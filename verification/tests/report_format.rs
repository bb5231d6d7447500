use crucible::report::format::{bar, first_line, format_ipv6, human_bytes, meminfo_kib, Style};

fn ref_human_bytes(b: u64) -> String {
    let units = ["B", "KiB", "MiB", "GiB", "TiB", "PiB"];
    let mut v = b as f64;
    let mut i = 0;
    while v >= 1024.0 && i < units.len() - 1 {
        v /= 1024.0;
        i += 1;
    }
    if i == 0 {
        format!("{} {}", b, units[i])
    } else {
        format!("{:.2} {}", v, units[i])
    }
}

#[test]
fn human_bytes_exact_values() {
    assert_eq!(human_bytes(0), "0 B");
    assert_eq!(human_bytes(1023), "1023 B");
    assert_eq!(human_bytes(1024), "1.00 KiB");
    assert_eq!(human_bytes(1536), "1.50 KiB");
    assert_eq!(human_bytes(1048576), "1.00 MiB");
    assert_eq!(human_bytes(u64::MAX), "16384.00 PiB");
}

#[test]
fn human_bytes_agrees_with_float_formatting() {
    let mut samples: Vec<u64> = vec![
        1, 512, 1000, 1025, 2047, 10_000, 999_999, 1_000_000, 123_456_789, 1 << 30, (1 << 30) + 1,
        5_368_709_120, 1 << 40, 1 << 50, 1 << 53, (1 << 53) + 1, (1 << 60) + 12345, u64::MAX - 1,
    ];
    let mut x: u64 = 0x9E3779B97F4A7C15;
    for _ in 0..2000 {
        x ^= x << 13;
        x ^= x >> 7;
        x ^= x << 17;
        samples.push(x >> (x % 64));
    }
    for b in samples {
        assert_eq!(human_bytes(b), ref_human_bytes(b), "b = {}", b);
    }
}

#[test]
fn bar_plain_half() {
    let st = Style::with(false);
    let want = format!("[{}{}] 50%", "━".repeat(10), "─".repeat(10));
    assert_eq!(bar(50, 100, 20, &st), want);
}

#[test]
fn bar_empty_when_total_is_zero() {
    let st = Style::with(true);
    assert_eq!(bar(5, 0, 20, &st), "");
}

#[test]
fn bar_rounding() {
    let st = Style::with(false);
    // 1/8 of 20 cells is 2.5: rounded half away from zero; 12.5 % to even.
    assert_eq!(bar(1, 8, 20, &st), format!("[{}{}] 12%", "━".repeat(3), "─".repeat(17)));
    // used above total counts as full
    assert_eq!(bar(300, 100, 4, &st), format!("[{}] 100%", "━".repeat(4)));
    assert_eq!(bar(0, 100, 5, &st), format!("[{}] 0%", "─".repeat(5)));
}

#[test]
fn bar_colours_follow_thresholds() {
    let st = Style::with(true);
    assert!(bar(74, 100, 20, &st).contains("\x1b[1;32m"));
    assert!(bar(75, 100, 20, &st).contains("\x1b[1;33m"));
    assert!(bar(89, 100, 20, &st).contains("\x1b[1;33m"));
    assert!(bar(90, 100, 20, &st).contains("\x1b[1;31m"));
    assert!(bar(100, 100, 20, &st).contains("\x1b[1;31m"));
}

#[test]
fn bar_cells_always_width() {
    let st = Style::with(false);
    for total in [1u64, 3, 7, 100, 1000, 12345] {
        for used in [0u64, 1, 2, total / 3, total / 2, total, total + 5] {
            let b = bar(used, total, 20, &st);
            let cells = b.chars().filter(|c| *c == '━' || *c == '─').count();
            assert_eq!(cells, 20);
        }
    }
}

#[test]
fn paint_and_styles() {
    let on = Style::with(true);
    let off = Style::with(false);
    assert_eq!(on.paint("1", "x"), "\x1b[1mx\x1b[0m");
    assert_eq!(off.paint("1", "x"), "x");
    assert_eq!(on.title("t"), "\x1b[1;36mt\x1b[0m");
    assert_eq!(on.key("k"), "\x1b[1;32mk\x1b[0m");
    assert_eq!(on.accent("a"), "\x1b[1;35ma\x1b[0m");
}

#[test]
fn colour_from_environment() {
    assert!(Style::from_env(false, None).on);
    assert!(Style::from_env(false, Some("xterm-256color")).on);
    assert!(!Style::from_env(false, Some("dumb")).on);
    assert!(!Style::from_env(true, Some("xterm")).on);
}

fn v6(groups: [u16; 8]) -> [u8; 16] {
    let mut b = [0u8; 16];
    for i in 0..8 {
        b[2 * i] = (groups[i] >> 8) as u8;
        b[2 * i + 1] = (groups[i] & 0xff) as u8;
    }
    b
}

#[test]
fn ipv6_compression() {
    assert_eq!(format_ipv6(&[0u8; 16]), "::");
    assert_eq!(format_ipv6(&v6([0, 0, 0, 0, 0, 0, 0, 1])), "::1");
    assert_eq!(format_ipv6(&v6([0x2001, 0xdb8, 0, 0, 0, 0, 0, 1])), "2001:db8::1");
    assert_eq!(format_ipv6(&v6([0xfe80, 0, 0, 0, 0x1, 0x2, 0x3, 0x4])), "fe80::1:2:3:4");
    assert_eq!(format_ipv6(&v6([1, 0, 2, 0, 3, 0, 4, 0])), "1:0:2:0:3:0:4:0");
    assert_eq!(format_ipv6(&v6([1, 2, 3, 4, 5, 6, 0, 0])), "1:2:3:4:5:6::");
    assert_eq!(format_ipv6(&v6([0, 0, 1, 2, 3, 4, 5, 6])), "::1:2:3:4:5:6");
}

#[test]
fn ipv6_first_longest_run_wins() {
    assert_eq!(format_ipv6(&v6([1, 0, 0, 2, 0, 0, 3, 4])), "1::2:0:0:3:4");
    assert_eq!(format_ipv6(&v6([1, 0, 0, 2, 0, 0, 0, 4])), "1:0:0:2::4");
}

#[test]
fn first_line_and_meminfo() {
    assert_eq!(first_line(Some("  abc  \nxyz")), Some("abc".to_string()));
    assert_eq!(first_line(Some("")), Some(String::new()));
    assert_eq!(first_line(None), None);
    let mi = "MemTotal:       16318128 kB\nMemFree:          123 kB\n";
    assert_eq!(meminfo_kib(Some(mi), "MemTotal:"), Some(16318128));
    assert_eq!(meminfo_kib(Some(mi), "MemFree:"), Some(123));
    assert_eq!(meminfo_kib(Some(mi), "SwapTotal:"), None);
    assert_eq!(meminfo_kib(None, "MemTotal:"), None);
}
