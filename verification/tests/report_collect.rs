use crucible::report::collect::{
    arch, battery, is_sysinfo_alias, shell, cpu_cache, cpu_facts, disks, fs_usage, gpus, hostname, kernel, load_avg,
    mount_candidates, network, os_pretty, packages, uptime, username, IfAddr,
};

#[test]
fn hostname_sources() {
    assert_eq!(hostname(Some("myhost\n"), Some("other")), "myhost");
    assert_eq!(hostname(Some("\n"), Some("etc-host\n")), "etc-host");
    assert_eq!(hostname(None, Some("etc-host")), "etc-host");
    assert_eq!(hostname(None, None), "unknown");
}

#[test]
fn os_kernel_load() {
    assert_eq!(os_pretty(Some("NAME=x\nPRETTY_NAME=\"Ubuntu 22.04.3 LTS\"\n")), "Ubuntu 22.04.3 LTS");
    assert_eq!(os_pretty(Some("NAME=x\n")), "unknown");
    assert_eq!(os_pretty(None), "unknown");
    assert_eq!(kernel(Some("6.1.0-13-amd64\n")), "6.1.0-13-amd64");
    assert_eq!(kernel(None), "unknown");
    assert_eq!(load_avg(Some("0.52 0.58 0.59 1/1234 5678\n")), "0.52 0.58 0.59");
    assert_eq!(load_avg(Some("0.1 0.2")), "0.1 0.2");
    assert_eq!(load_avg(None), "unknown");
}

#[test]
fn uptime_formats() {
    assert_eq!(uptime(90061), "1d 1h 1m");
    assert_eq!(uptime(59), "0m");
    assert_eq!(uptime(3600), "1h 0m");
    assert_eq!(uptime(86400), "1d 0m");
    assert_eq!(uptime(200000), "2d 7h 33m");
}

#[test]
fn user_and_arch() {
    assert_eq!(username(Some("alice"), Some("bob")), "alice");
    assert_eq!(username(None, Some("bob")), "bob");
    assert_eq!(username(None, None), "user");
    assert_eq!(arch(Some("x86_64\n"), "aarch64"), "x86_64");
    assert_eq!(arch(None, "aarch64"), "aarch64");
}

#[test]
fn package_counts() {
    let dpkg = "Package: a\nStatus: install ok installed\n\nPackage: b\nStatus: install ok installed\n";
    assert_eq!(
        packages(Some(dpkg), Some(3), None, None, Some("app1\n\napp2\n")),
        "2 (dpkg), 2 (pacman), 2 (flatpak)"
    );
    assert_eq!(packages(None, Some(1), None, None, None), "unknown");
    assert_eq!(packages(None, None, Some("C:x\nP:musl\n\nC:y\nP:busybox\n"), Some("a\n  \nb\nc\n"), None), "2 (apk), 3 (rpm)");
    assert_eq!(packages(None, None, None, None, None), "unknown");
}

#[test]
fn cache_summary() {
    let c = vec![
        ("1".to_string(), "Data".to_string(), "32K".to_string()),
        ("1".to_string(), "Instruction".to_string(), "32K".to_string()),
        ("2".to_string(), "Unified".to_string(), "1024K".to_string()),
    ];
    assert_eq!(cpu_cache(&c), "L1d 32K, L1i 32K, L2 1024K");
    assert_eq!(cpu_cache(&vec![]), "unknown");
}

#[test]
fn battery_first_of_type_battery() {
    let s = vec![
        ("Mains".to_string(), "".to_string(), "".to_string()),
        ("Battery".to_string(), "87".to_string(), "Discharging".to_string()),
        ("Battery".to_string(), "10".to_string(), "Full".to_string()),
    ];
    assert_eq!(battery(&s), Some("87% (Discharging)".to_string()));
    assert_eq!(battery(&vec![]), None);
}

#[test]
fn gpus_from_lspci() {
    let l = "00:02.0 VGA compatible controller: Intel Corporation UHD Graphics 620 (rev 07)\n\
             01:00.0 3D controller: NVIDIA Corporation GP108M [GeForce MX150] (rev a1)\n\
             00:1f.3 Audio device: Intel Corporation Sunrise Point\n";
    assert_eq!(
        gpus(Some(l), &vec![]),
        vec![
            "Intel Corporation UHD Graphics 620".to_string(),
            "NVIDIA Corporation GP108M [GeForce MX150]".to_string()
        ]
    );
}

#[test]
fn gpus_fall_back_to_drm() {
    let cards = vec![
        ("card0".to_string(), Some("DRIVER=i915\nPCI_ID=8086:5917\n".to_string())),
        ("card0-eDP-1".to_string(), Some("DRIVER=x\n".to_string())),
        ("renderD128".to_string(), None),
        ("card1".to_string(), None),
    ];
    assert_eq!(gpus(None, &cards), vec!["card0 (i915)".to_string()]);
    assert_eq!(gpus(Some("00:1f.3 Audio device: x\n"), &cards), vec!["card0 (i915)".to_string()]);
}

#[test]
fn cpu_facts_x86() {
    let info = "processor\t: 0\nmodel name\t: Intel X\ncpu MHz\t\t: 2400.000\nphysical id\t: 0\ncore id\t\t: 0\n\n\
                processor\t: 1\nmodel name\t: Intel X\ncpu MHz\t\t: 2500.5\nphysical id\t: 0\ncore id\t\t: 0\n\n\
                processor\t: 2\nmodel name\t: Intel X\nphysical id\t: 0\ncore id\t\t: 1\n";
    let f = cpu_facts(Some(info), 16);
    assert_eq!(f.model, "Intel X");
    assert_eq!(f.logical, 3);
    assert_eq!(f.physical, 2);
    assert_eq!(f.mhz, vec!["2400.000".to_string(), "2500.5".to_string()]);
}

#[test]
fn cpu_facts_arm_and_missing() {
    let f = cpu_facts(Some("Hardware\t: BCM2835\nModel\t\t: Raspberry Pi 4\n"), 4);
    assert_eq!(f.model, "BCM2835");
    assert_eq!(f.logical, 4);
    assert_eq!(f.physical, 4);
    assert!(f.mhz.is_empty());
    let g = cpu_facts(None, 8);
    assert_eq!(g.model, "unknown");
    assert_eq!(g.logical, 8);
    assert_eq!(g.physical, 8);
}

#[test]
fn mounts_filtered_and_deduplicated() {
    let m = "/dev/sda1 / ext4 rw 0 0\nproc /proc proc rw 0 0\n/dev/sda1 / ext4 rw 0 0\n\
             /dev/sdb1 /mnt/data xfs rw 0 0\ntmpfs /tmp tmpfs rw 0 0\n\
             /dev/loop0 /snap/x squashfs ro 0 0\noverlay /var/lib/docker overlay rw 0 0\nshort line\n";
    assert_eq!(
        mount_candidates(Some(m)),
        vec![("/".to_string(), "ext4".to_string()), ("/mnt/data".to_string(), "xfs".to_string())]
    );
    assert!(mount_candidates(None).is_empty());
}

#[test]
fn disks_keep_sized_filesystems() {
    let sized = vec![
        ("/".to_string(), "ext4".to_string(), Some((100u64, 40u64))),
        ("/boot".to_string(), "vfat".to_string(), None),
        ("/z".to_string(), "xfs".to_string(), Some((0u64, 0u64))),
    ];
    assert_eq!(disks(&sized), vec![("/".to_string(), "ext4".to_string(), 100u64, 40u64)]);
    assert_eq!(fs_usage(10, 4, 4096), (40960, 24576));
    assert_eq!(fs_usage(1, 5, 1), (1, 0));
}

#[test]
fn network_rows_sorted_without_loopback() {
    let mut ll = [0u8; 16];
    ll[0] = 0xfe;
    ll[1] = 0x80;
    ll[15] = 1;
    let entries = vec![
        ("lo".to_string(), IfAddr::V4([127, 0, 0, 1])),
        ("wlan0".to_string(), IfAddr::Other),
        ("eth0".to_string(), IfAddr::Packet { halen: 6, addr: [0xaa, 0xbb, 0xcc, 0x0d, 0xee, 0xff, 0, 0] }),
        ("eth0".to_string(), IfAddr::V4([10, 0, 0, 1])),
        ("eth0".to_string(), IfAddr::V6(ll)),
        ("docker0".to_string(), IfAddr::Absent),
        ("eth0".to_string(), IfAddr::Packet { halen: 0, addr: [0; 8] }),
    ];
    let rows = network(&entries);
    assert_eq!(
        rows,
        vec![
            ("docker0".to_string(), vec![], None),
            (
                "eth0".to_string(),
                vec!["10.0.0.1".to_string(), "fe80::1".to_string()],
                Some("aa:bb:cc:0d:ee:ff".to_string())
            ),
            ("wlan0".to_string(), vec![], None),
        ]
    );
}

#[test]
fn network_last_mac_wins() {
    let entries = vec![
        ("a".to_string(), IfAddr::Packet { halen: 6, addr: [1, 2, 3, 4, 5, 6, 0, 0] }),
        ("a".to_string(), IfAddr::Packet { halen: 6, addr: [0x10, 0x20, 0x30, 0x40, 0x50, 0x60, 0, 0] }),
    ];
    assert_eq!(network(&entries), vec![("a".to_string(), vec![], Some("10:20:30:40:50:60".to_string()))]);
    assert!(network(&vec![("lo".to_string(), IfAddr::Absent)]).is_empty());
}

#[test]
fn shell_and_alias_names() {
    assert_eq!(shell(Some("/bin/bash")), "bash");
    assert_eq!(shell(Some("/usr/bin/zsh/")), "zsh");
    assert_eq!(shell(Some("/")), "/");
    assert_eq!(shell(None), "unknown");
    assert!(is_sysinfo_alias(Some("/usr/local/bin/sysinfo")));
    assert!(is_sysinfo_alias(Some("sysinfo")));
    assert!(!is_sysinfo_alias(Some("/usr/local/bin/crux")));
    assert!(!is_sysinfo_alias(None));
}
