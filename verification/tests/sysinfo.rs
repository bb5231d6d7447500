use crucible::sysinfo::{
    fnv1a_hex, read_cpu_model, read_first_nonempty, read_kernel, read_machine_id,
    read_mem_total_mib, read_os, SysInfo,
};

#[test]
fn cpu_model_sources() {
    assert_eq!(read_cpu_model(Some("processor\t: 0\nmodel name\t: AMD Ryzen 7\n")), "AMD Ryzen 7");
    assert_eq!(read_cpu_model(Some("Processor\t: ARMv7\nHardware\t: BCM2835\n")), "BCM2835");
    assert_eq!(read_cpu_model(Some("nothing here\n")), "unknown");
    assert_eq!(read_cpu_model(None), "unknown");
}

#[test]
fn memory_kernel_os() {
    assert_eq!(read_mem_total_mib(Some("MemTotal:       16318128 kB\n")), 15935);
    assert_eq!(read_mem_total_mib(Some("MemFree: 1 kB\n")), 0);
    assert_eq!(read_mem_total_mib(None), 0);
    assert_eq!(
        read_kernel(Some("Linux version 6.5.0-14-generic (buildd@lcy02) (gcc) #14\n")),
        "6.5.0-14-generic"
    );
    assert_eq!(read_kernel(Some("  weird\n")), "weird");
    assert_eq!(read_kernel(None), "unknown");
    assert_eq!(read_os(Some("PRETTY_NAME=\"Arch Linux\"\n")), "Arch Linux");
    assert_eq!(read_os(None), "unknown");
}

#[test]
fn fnv_digests() {
    assert_eq!(fnv1a_hex(""), "cbf29ce48422");
    assert_eq!(fnv1a_hex("crux:abc"), "b5a162d2ec73");
}

#[test]
fn machine_id_prefers_machine_id_files() {
    let files = vec![None, Some("  \n".to_string()), Some(" abc \n".to_string())];
    assert_eq!(read_first_nonempty(&files), Some("abc".to_string()));
    assert_eq!(read_machine_id(&files, "Intel", 16000, "Ubuntu"), "b5a162d2ec73");
    let none: Vec<Option<String>> = vec![None, Some(String::new())];
    assert_eq!(read_first_nonempty(&none), None);
    assert_eq!(read_machine_id(&none, "Intel", 16000, "Ubuntu"), "09d51ee6bcab");
}

#[test]
fn machine_id_is_twelve_hex_digits() {
    for (m, r, o) in [("", 0u64, ""), ("x", 1, "y"), ("Ümlaut CPU", u64::MAX, "OS")] {
        let id = read_machine_id(&vec![], m, r, o);
        assert_eq!(id.len(), 12);
        assert!(id.chars().all(|c| c.is_ascii_hexdigit() && !c.is_ascii_uppercase()));
    }
}

#[test]
fn sysinfo_from_sources_and_text() {
    let s = SysInfo::from_sources(
        Some("model name\t: Intel X\n"),
        Some("MemTotal: 2048 kB\n"),
        Some("Linux version 6.1 (x)\n"),
        Some("PRETTY_NAME=\"Deb\"\n"),
        &vec![Some("abc".to_string())],
        4,
    );
    assert_eq!(s.cpu_model, "Intel X");
    assert_eq!(s.ram_mib, 2);
    assert_eq!(s.kernel, "6.1");
    assert_eq!(s.os, "Deb");
    assert_eq!(s.logical_cores, 4);
    assert_eq!(s.machine_id, "b5a162d2ec73");
    assert_eq!(s.json_header(), "# CRUCIBLE crux — Intel X | 4 cores | 2 MiB RAM | 6.1 | Deb");
    let rule = "=".repeat(51);
    let want = format!(
        "{r}\n  CRUCIBLE — crux benchmark  (trial by fire)\n{r}\nCPU    : Intel X\nCores  : 4\nRAM    : 2 MiB\nKernel : 6.1\nOS     : Deb\n{r}\n\n",
        r = rule
    );
    assert_eq!(s.banner(), want);
}
