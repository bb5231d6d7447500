use crucible::bench::cpu::{
    lz4_compress_once, lz4_out_buf, make_lz4_buf, modpow, sha_round, shuffle, sort_round,
    worker_seed, xorshift64, LZ4_BLOCK,
};
use crucible::bench::disk::{
    choose_file_size, choose_scratch_dir, fit_to_space, is_ram_fs, rand_offset, MIN_FILE,
};
use crucible::bench::{run, Config, DiskOutcome, Suite};
use crucible::sysinfo::SysInfo;
use crucible::{run_named, run_suite_text, RunOpts};

#[test]
fn modpow_values() {
    assert_eq!(modpow(16, 5, 7), 4);
    assert_eq!(modpow(2, 10, 1000), 24);
    assert_eq!(modpow(5, 0, 7), 1);
    assert_eq!(modpow(5, 3, 1), 0);
    assert_eq!(modpow(5, 3, 0), 0);
    assert_eq!(modpow(u64::MAX, u64::MAX, 1_000_000_007), 254368884);
    assert_eq!(modpow(123456789, 987654321, (1u64 << 63) + 5), 4716220853036478527);
}

#[test]
fn modpow_matches_repeated_multiplication() {
    for m in 2u64..40 {
        for b in 0u64..20 {
            let mut acc: u64 = 1 % m;
            for e in 0u64..30 {
                assert_eq!(modpow(b, e, m), acc, "b={} e={} m={}", b, e, m);
                acc = acc * b % m;
            }
        }
    }
}

#[test]
fn sha_round_first_digest_byte() {
    assert_eq!(sha_round(b"abc"), 0xba);
    assert_eq!(sha_round(b""), 0xe3);
}

#[test]
fn lz4_round_trip() {
    let data = make_lz4_buf();
    assert_eq!(data.len(), LZ4_BLOCK);
    assert_eq!(&data[..8], &[0, 6, 5, 1, 10, 15, 6, 2]);
    assert!(data.iter().all(|b| *b < 16));
    let mut out = lz4_out_buf();
    assert_eq!(out.len(), 20 + LZ4_BLOCK * 110 / 100);
    assert!(out.iter().all(|b| *b == 0));
    let n = lz4_compress_once(&data, &mut out);
    assert!(n > 0 && n <= out.len());
    let back = lz4_flex::block::decompress(&out[..n], data.len()).unwrap();
    assert_eq!(back, data);
}

#[test]
fn lz4_output_too_small_counts_nothing() {
    let data = vec![7u8; 1000];
    let mut out = vec![0u8; 10];
    assert_eq!(lz4_compress_once(&data, &mut out), 0);
    assert_eq!(out, vec![0u8; 10]);
}

#[test]
fn xorshift_sequence() {
    let mut s: u64 = 0xDEADBEEFCAFEBABE;
    assert_eq!(xorshift64(&mut s), 2872271934144653387);
    assert_eq!(s, 2872271934144653387);
    assert_eq!(xorshift64(&mut s), 11715614644502221531);
    let mut z: u64 = 0;
    assert_eq!(xorshift64(&mut z), 0);
}

#[test]
fn shuffle_and_sort_round() {
    let mut buf = vec![0u64; 3];
    let mut seed: u64 = 0xDEADBEEFCAFEBABE;
    shuffle(&mut buf, &mut seed);
    assert_eq!(buf, vec![2872271934144653387, 11715614644502221531, 7563122543866761918]);
    assert_eq!(seed, 7563122543866761918);
    let mut buf2 = vec![0u64; 3];
    let mut seed2: u64 = 0xDEADBEEFCAFEBABE;
    sort_round(&mut buf2, &mut seed2);
    assert_eq!(buf2, vec![2872271934144653387, 7563122543866761918, 11715614644502221531]);
    assert_eq!(seed2, 7563122543866761918);
}

#[test]
fn worker_seeds() {
    assert_eq!(worker_seed(0), 0xDEADBEEFCAFEBABE);
    assert_eq!(worker_seed(1), 4655252340070467243);
    assert_eq!(worker_seed(2), 16339989210614874772);
}

#[test]
fn file_size_is_twice_ram_capped_at_4gib() {
    assert_eq!(choose_file_size(0), 0);
    assert_eq!(choose_file_size(512), 1 << 30);
    assert_eq!(choose_file_size(1024), 2 << 30);
    assert_eq!(choose_file_size(4096), 4 << 30);
    assert_eq!(choose_file_size(u64::MAX), 4 << 30);
}

#[test]
fn fit_to_space_clamps_and_refuses() {
    assert_eq!(fit_to_space(None, 4 << 30, "/x"), Ok(4 << 30));
    assert_eq!(fit_to_space(Some(1 << 30), 4 << 30, "/x"), Ok(512 << 20));
    assert_eq!(fit_to_space(Some(100 << 30), (1 << 30) + 12345, "/x"), Ok(1 << 30));
    assert_eq!(
        fit_to_space(Some(400 << 20), 4 << 30, "/x"),
        Err("not enough free space in /x (400 MiB available, need ~512 MiB) — skipping disk test"
            .to_string())
    );
    assert_eq!(
        fit_to_space(None, MIN_FILE - 1, "/d"),
        Err("not enough free space in /d (0 MiB available, need ~512 MiB) — skipping disk test"
            .to_string())
    );
}

#[test]
fn scratch_dir_and_ram_fs() {
    assert_eq!(choose_scratch_dir(Some("/a".into()), Some("/b".into()), "/tmp".into()), "/a");
    assert_eq!(choose_scratch_dir(None, Some("/b".into()), "/tmp".into()), "/b");
    assert_eq!(choose_scratch_dir(None, None, "/tmp".into()), "/tmp");
    assert!(is_ram_fs(0x0102_1994));
    assert!(is_ram_fs(0x8584_58f6));
    assert!(!is_ram_fs(0xEF53));
}

#[test]
fn random_offsets_stay_in_file() {
    let mut seed: u64 = 0;
    let off = rand_offset(&mut seed, 1 << 30);
    assert_eq!(off, 42250240);
    assert_eq!(seed, 2872271934144653387);
    let mut s: u64 = 0xBADC0FFEE0DDF00D;
    for _ in 0..1000 {
        let o = rand_offset(&mut s, 256 << 20);
        assert_eq!(o % 4096, 0);
        assert!(o + 4096 <= 256 << 20);
    }
    let mut t: u64 = 5;
    assert_eq!(rand_offset(&mut t, 10), 0);
}

fn info() -> SysInfo {
    SysInfo {
        cpu_model: "cpu".into(),
        logical_cores: 2,
        ram_mib: 1234,
        kernel: "k".into(),
        os: "os".into(),
        machine_id: "0123456789ab".into(),
    }
}

fn cfg() -> Config {
    Config { duration_secs: 3, runs: 2, streams: 5, dir: Some("/scratch".into()) }
}

#[test]
fn run_selects_suites() {
    let c = cfg();
    let r = run(
        Suite::Cpu,
        &c,
        info(),
        |d: u64, n: usize| (d, n),
        || -> u8 { panic!("mem not selected") },
        |_s: usize| -> u8 { panic!("net not selected") },
        |_m: u64, _d: Option<String>| -> Result<u8, String> { panic!("disk not selected") },
    );
    assert_eq!(r.cpu, Some((3, 2)));
    assert!(r.mem.is_none() && r.net.is_none() && r.disk.is_none());
    assert_eq!(r.sysinfo.ram_mib, 1234);
}

#[test]
fn run_all_and_disk_errors() {
    let c = cfg();
    let r = run(
        Suite::All,
        &c,
        info(),
        |d: u64, n: usize| d + n as u64,
        || 7u8,
        |s: usize| s * 10,
        |m: u64, d: Option<String>| -> Result<u8, String> { Err(format!("{} {:?}", m, d)) },
    );
    assert_eq!(r.cpu, Some(5));
    assert_eq!(r.mem, Some(7));
    assert_eq!(r.net, Some(50));
    match r.disk {
        Some(DiskOutcome::Failed { error }) => assert_eq!(error, "1234 Some(\"/scratch\")"),
        _ => panic!("expected a failed disk outcome"),
    }
    let r2 = run(
        Suite::Disk,
        &c,
        info(),
        |_d: u64, _n: usize| 0u8,
        || 0u8,
        |_s: usize| 0u8,
        |m: u64, _d: Option<String>| -> Result<u64, String> { Ok(m * 2) },
    );
    assert!(matches!(r2.disk, Some(DiskOutcome::Done(2468))));
    assert!(r2.cpu.is_none());
}

#[test]
fn run_suite_text_dispatch() {
    let opts = RunOpts { duration_secs: 0, runs: 0, streams: 9 };
    let t = run_suite_text("info", &opts, || "report".to_string(), |_s: Suite, _c: Config| -> String {
        panic!("no bench for info")
    });
    assert_eq!(t, "report");
    let t = run_suite_text("mem", &opts, || -> String { panic!("no report") }, |s: Suite, c: Config| {
        format!("{:?} {} {} {} {:?}", s, c.duration_secs, c.runs, c.streams, c.dir)
    });
    assert_eq!(t, "Mem 1 1 9 None");
    let t = run_suite_text("bogus", &opts, || String::new(), |s: Suite, _c: Config| format!("{:?}", s));
    assert_eq!(t, "All");
    let t = run_named("disk", || String::new(), |s: Suite, c: Config| {
        format!("{:?} {} {} {}", s, c.duration_secs, c.runs, c.streams)
    });
    assert_eq!(t, "Disk 10 5 4");
    let d = RunOpts::default();
    assert_eq!((d.duration_secs, d.runs, d.streams), (10, 5, 4));
}
