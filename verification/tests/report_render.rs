use crucible::report::format::Style;
use crucible::report::{render, report_rows_exec, ReportFacts};

fn facts() -> ReportFacts {
    ReportFacts {
        user: "u".to_string(),
        host: "h".to_string(),
        os: "Debian 12".to_string(),
        kernel: "6.1".to_string(),
        arch: "x86_64".to_string(),
        uptime: "1h 2m".to_string(),
        packages: "unknown".to_string(),
        shell: "bash".to_string(),
        cpu_model: "CPU".to_string(),
        cpu_physical: 4,
        cpu_logical: 8,
        cpu_freq: String::new(),
        cache: "L1d 32K".to_string(),
        load: "0.1 0.2 0.3".to_string(),
        gpus: vec!["GPU0".to_string()],
        mem_total_kib: Some(1024),
        mem_avail_kib: Some(512),
        swap_total_kib: None,
        swap_free_kib: None,
        disks: vec![],
        temps: vec![("cpu".to_string(), "45.0 °C".to_string())],
        battery: None,
        network: vec![
            ("eth0".to_string(), vec!["10.0.0.1".to_string()], Some("aa:bb:cc:dd:ee:ff".to_string())),
            ("wlan0".to_string(), vec![], None),
        ],
    }
}

#[test]
fn report_rows_in_order() {
    let rows = report_rows_exec(&facts(), &Style::with(false));
    let keys: Vec<&str> = rows.iter().map(|(k, _)| k.as_str()).collect();
    assert_eq!(
        keys,
        vec!["OS", "Host", "Kernel", "Uptime", "Packages", "Shell", "CPU", "Cache", "Load", "GPU",
             "Memory", "Temp (cpu)", "Net (eth0)"]
    );
    assert_eq!(rows[2].1, "6.1 (x86_64)");
    assert_eq!(rows[6].1, "CPU (4C/8T)");
    assert_eq!(rows[12].1, "MAC aa:bb:cc:dd:ee:ff  10.0.0.1");
}

#[test]
fn report_text_plain() {
    let f = facts();
    let st = Style::with(false);
    let out = render(&f, &st);
    let bar = format!("[{}{}] 50%", "━".repeat(10), "─".repeat(10));
    let rows: Vec<(&str, String)> = vec![
        ("OS", "Debian 12".to_string()),
        ("Host", "h".to_string()),
        ("Kernel", "6.1 (x86_64)".to_string()),
        ("Uptime", "1h 2m".to_string()),
        ("Packages", "unknown".to_string()),
        ("Shell", "bash".to_string()),
        ("CPU", "CPU (4C/8T)".to_string()),
        ("Cache", "L1d 32K".to_string()),
        ("Load", "0.1 0.2 0.3".to_string()),
        ("GPU", "GPU0".to_string()),
        ("Memory", format!("512.00 KiB / 1.00 MiB  {}", bar)),
        ("Temp (cpu)", "45.0 °C".to_string()),
        ("Net (eth0)", "MAC aa:bb:cc:dd:ee:ff  10.0.0.1".to_string()),
    ];
    let mut want = String::new();
    want.push_str("\n  u@h\n  ───\n  CRUCIBLE — crux info · deep system report\n\n");
    for (k, v) in &rows {
        want.push_str(&format!("  {:<10}  {}\n", k, v));
    }
    want.push('\n');
    assert_eq!(out, want);
}

#[test]
fn report_swap_and_disks() {
    let mut f = facts();
    f.swap_total_kib = Some(2048);
    f.swap_free_kib = Some(2048);
    f.disks = vec![("/".to_string(), "ext4".to_string(), 1024, 256)];
    f.battery = Some("87% (Charging)".to_string());
    let rows = report_rows_exec(&f, &Style::with(false));
    let swap = rows.iter().find(|(k, _)| k == "Swap").unwrap();
    assert_eq!(swap.1, format!("0 B / 2.00 MiB  [{}] 0%", "─".repeat(20)));
    let disk = rows.iter().find(|(k, _)| k == "Disk (/)").unwrap();
    assert_eq!(disk.1, format!("256 B / 1.00 KiB [ext4]  [{}{}] 25%", "━".repeat(5), "─".repeat(15)));
    assert!(rows.iter().any(|(k, v)| k == "Battery" && v == "87% (Charging)"));
}

#[test]
fn report_key_width_counts_bytes() {
    let mut f = facts();
    f.temps = vec![("é".to_string(), "1.0 °C".to_string())];
    f.network = vec![];
    let out = render(&f, &Style::with(false));
    // "Temp (é)" is 9 bytes but 8 characters: the column is 9 wide (the
    // longest key in bytes) and padded in characters, so one pad space.
    assert!(out.contains("  Temp (é)   1.0 °C\n"));
    assert!(out.contains("  Packages   unknown\n"));
}
