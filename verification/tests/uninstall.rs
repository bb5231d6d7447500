use crucible::affinity::{full_set, single_set};
use crucible::uninstall::{targets, Report};

#[test]
fn summaries() {
    let mut r = Report::default();
    assert!(r.is_empty());
    assert_eq!(r.summary(), "Nothing found to remove (already uninstalled, or installed elsewhere).");
    r.removed.push("/a".into());
    r.removed.push("/b".into());
    assert!(!r.is_empty());
    assert_eq!(r.summary(), "Uninstalled CRUCIBLE — 2 item(s) removed.");
    r.failed.push("/c".into());
    assert_eq!(r.summary(), "Removed 2 item(s); 1 needed elevated permissions (re-run with sudo).");
    let only_failed = Report { removed: vec![], failed: vec!["/x".into()] };
    assert!(!only_failed.is_empty());
    assert_eq!(only_failed.summary(), "Removed 0 item(s); 1 needed elevated permissions (re-run with sudo).");
}

#[test]
fn installer_targets() {
    let t = targets(Some("/home/u"));
    assert_eq!(t.len(), 22);
    assert_eq!(t[0], "/usr/local/bin/crux");
    assert_eq!(t[5], "/usr/bin/crux-gui");
    assert_eq!(t[6], "/home/u/.local/bin/crux");
    assert_eq!(t[8], "/home/u/.local/bin/crux-gui");
    assert_eq!(t[9], "/home/u/.local/share/man/man1/crux.1");
    assert_eq!(t[16], "/home/u/.config/fish/completions/crux.fish");
    assert_eq!(t[21], "/usr/share/icons/hicolor/scalable/apps/crucible.svg");
    let d = targets(None);
    assert_eq!(d[6], "./.local/bin/crux");
}

#[test]
fn cpu_sets() {
    assert_eq!(full_set(0), Vec::<usize>::new());
    assert_eq!(full_set(3), vec![0, 1, 2]);
    assert_eq!(single_set(5), vec![5]);
}
