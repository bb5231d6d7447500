use crucible::gui::{
    export_status, merge_render, run_end, run_status, run_step, RunStep, share_status, submit_status, can_compare, gui_opts, prefs_from_fields, prefs_from_json, share_body, strip_file_url, suite_label, suites_for,
    valid_backend, Prefs,
};

#[test]
fn prefs_validation() {
    let p = Prefs::default();
    assert!(p.dark);
    assert_eq!(p.render_backend, "auto");

    let p = prefs_from_json(r#"{"dark":false,"render_backend":"vulkan"}"#);
    assert!(!p.dark);
    assert_eq!(p.render_backend, "vulkan");

    // an invalid backend falls back to the default
    let p = prefs_from_json(r#"{"dark":false,"render_backend":"directx"}"#);
    assert!(!p.dark);
    assert_eq!(p.render_backend, "auto");

    // a corrupt file falls back to all defaults
    let p = prefs_from_json("not json");
    assert!(p.dark);
    assert_eq!(p.render_backend, "auto");

    // wrong types are ignored
    let p = prefs_from_json(r#"{"dark":"no","render_backend":3}"#);
    assert!(p.dark);
    assert_eq!(p.render_backend, "auto");
}

#[test]
fn backends() {
    assert!(valid_backend("auto") && valid_backend("opengl") && valid_backend("vulkan"));
    assert!(!valid_backend("Vulkan") && !valid_backend(""));
}

#[test]
fn labels_and_paths() {
    assert_eq!(suite_label("cpu"), "CPU");
    assert_eq!(suite_label("mem"), "memory");
    assert_eq!(suite_label("net"), "network");
    assert_eq!(suite_label("disk"), "storage");
    assert_eq!(suite_label("info"), "system info");
    assert_eq!(suite_label("all"), "benchmark");
    assert_eq!(strip_file_url("file:///home/u/r.txt"), "/home/u/r.txt");
    assert_eq!(strip_file_url("/home/u/r.txt"), "/home/u/r.txt");
    assert_eq!(strip_file_url("file:/x"), "file:/x");
}

#[test]
fn share_body_choice() {
    assert_eq!(share_body("{\"a\":1}", "text"), Some("{\"a\":1}".to_string()));
    assert_eq!(share_body("", "report\n"), Some("report\n".to_string()));
    assert_eq!(share_body("", "  \n\t"), None);
}

#[test]
fn gui_run_plan() {
    let o = gui_opts(0, -3);
    assert_eq!((o.duration_secs, o.runs, o.streams), (1, 1, 4));
    let o = gui_opts(7, 2);
    assert_eq!((o.duration_secs, o.runs, o.streams), (7, 2, 4));
    assert_eq!(suites_for("all"), vec!["cpu", "mem", "net", "disk"]);
    assert_eq!(suites_for("net"), vec!["net"]);
    assert!(can_compare("a", "b"));
    assert!(!can_compare("a", "a"));
    assert!(!can_compare("", "b"));
}

#[test]
fn prefs_from_read_fields() {
    let p = prefs_from_fields(Some(false), Some("opengl"));
    assert!(!p.dark);
    assert_eq!(p.render_backend, "opengl");
    let p = prefs_from_fields(None, Some("metal"));
    assert!(p.dark);
    assert_eq!(p.render_backend, "auto");
}

#[test]
fn status_lines() {
    assert_eq!(run_status(&Ok("1-x".to_string())), "Done — recorded 1-x.");
    assert_eq!(run_status(&Err("no results".to_string())), "Done (history not saved: no results).");
    let shared = crucible::upload::Shared { url: "u".to_string(), backend: "paste.rs" };
    assert_eq!(share_status(&Ok(shared)), "Shared via paste.rs.");
    assert_eq!(share_status(&Err("x".to_string())), "Share failed: x");
    assert_eq!(submit_status(&Ok("u".to_string())), "Submitted to the score server.");
    assert_eq!(submit_status(&Err("x".to_string())), "Submit failed: x");
    assert_eq!(export_status("report", "/tmp/r.txt", &Ok(())), "Saved report to /tmp/r.txt");
    assert_eq!(export_status("JSON", "/tmp/r.json", &Err("denied".to_string())), "Save failed: denied");
}

#[test]
fn render_merged_into_run_json() {
    let m = merge_render(r#"{"cpu":{"score":5},"sysinfo":{"id":"a"}}"#, r#"{"score":42,"api":"vulkan"}"#, "{}").unwrap();
    assert_eq!(m, r#"{"cpu":{"score":5},"render":{"api":"vulkan","score":42},"sysinfo":{"id":"a"}}"#);
    // an earlier render section is replaced
    let m = merge_render(r#"{"render":1}"#, "2", "{}").unwrap();
    assert_eq!(m, r#"{"render":2}"#);
}

#[test]
fn render_only_run_starts_from_sysinfo() {
    let m = merge_render("", r#"{"score":7}"#, r#"{"machine_id":"m1"}"#).unwrap();
    assert_eq!(m, r#"{"render":{"score":7},"sysinfo":{"machine_id":"m1"}}"#);
    // a run JSON that is not an object is replaced too
    let m = merge_render("[1,2]", "3", r#"{"machine_id":"m1"}"#).unwrap();
    assert_eq!(m, r#"{"render":3,"sysinfo":{"machine_id":"m1"}}"#);
}

#[test]
fn render_result_not_json_rejected() {
    let e = merge_render(r#"{"a":1}"#, "not json", "{}").unwrap_err();
    assert!(!e.is_empty());
    assert_eq!(Err(e), serde_json::from_str::<serde_json::Value>("not json").map_err(|e| e.to_string()).map(|_| ()));
    let e = merge_render("", "{}", "{oops").unwrap_err();
    assert!(!e.is_empty());
}

#[test]
fn run_request_decisions() {
    assert!(matches!(run_step(true, "cpu"), RunStep::Ignore));
    assert!(matches!(run_step(true, "info"), RunStep::Ignore));
    assert!(matches!(run_step(false, "info"), RunStep::ShowInfo));
    match run_step(false, "all") {
        RunStep::RunSuites(v) => assert_eq!(v, vec!["cpu", "mem", "net", "disk"]),
        _ => panic!("expected suites"),
    }
    match run_step(false, "disk") {
        RunStep::RunSuites(v) => assert_eq!(v, vec!["disk"]),
        _ => panic!("expected suites"),
    }
}

#[test]
fn run_end_records_only_results() {
    let (has, msg) = run_end(String::new(), |_j: String| -> Result<String, String> { panic!("nothing to record") });
    assert!(!has);
    assert_eq!(msg, "Done (history not saved: no results).");
    let (has, msg) = run_end("{\"cpu\":1}".to_string(), |j: String| {
        assert_eq!(j, "{\"cpu\":1}");
        Ok("20240101-000000-ab12".to_string())
    });
    assert!(has);
    assert_eq!(msg, "Done — recorded 20240101-000000-ab12.");
    let (has, msg) = run_end("{}".to_string(), |_j: String| Err("disk full".to_string()));
    assert!(has);
    assert_eq!(msg, "Done (history not saved: disk full).");
}
