use crucible::upload::{reply_url, server_base, share, submit, submit_reply, upload, DEFAULT_SERVER};

#[test]
fn server_base_override_and_default() {
    assert_eq!(server_base(None), "https://crux.mmzsigmond.me");
    assert_eq!(server_base(None), DEFAULT_SERVER);
    assert_eq!(server_base(Some("http://localhost:8787//")), "http://localhost:8787");
    assert_eq!(server_base(Some("https://x.example")), "https://x.example");
}

#[test]
fn reply_with_url() {
    let body = r#"{"id":"deadbeef0001","url":"https://crux.mmzsigmond.me/r/deadbeef0001"}"#;
    assert_eq!(
        submit_reply("https://b", body, Some("https://loc")),
        Ok("https://crux.mmzsigmond.me/r/deadbeef0001".to_string())
    );
}

#[test]
fn reply_falls_back_to_location_then_id() {
    assert_eq!(submit_reply("https://b", r#"{"id":"ab12"}"#, Some("https://loc/r/ab12")), Ok("https://loc/r/ab12".to_string()));
    assert_eq!(submit_reply("https://b", r#"{"id":"ab12"}"#, None), Ok("https://b/r/ab12".to_string()));
}

#[test]
fn reply_raw_url_or_error() {
    assert_eq!(submit_reply("https://b", "  https://paste/x \n", None), Ok("https://paste/x".to_string()));
    assert_eq!(
        submit_reply("https://b", " oops ", None),
        Err("server returned an unexpected response: oops".to_string())
    );
    assert_eq!(
        submit_reply("https://b", r#"{"id":5}"#, None),
        Err("server returned an unexpected response: {\"id\":5}".to_string())
    );
}

#[test]
fn submit_posts_to_results_endpoint() {
    let r = submit("https://srv", |ep: String| -> Result<(String, Option<String>), String> {
        assert_eq!(ep, "https://srv/api/results");
        Ok((r#"{"id":"i1"}"#.to_string(), None))
    });
    assert_eq!(r, Ok("https://srv/r/i1".to_string()));
    let e = submit("https://srv", |_ep: String| -> Result<(String, Option<String>), String> {
        Err("connection refused".to_string())
    });
    assert_eq!(e, Err("connection refused".to_string()));
}

#[test]
fn paste_reply_trimmed() {
    assert_eq!(upload(|| Ok("https://paste.rs/abc\n".to_string())), Ok("https://paste.rs/abc".to_string()));
    assert_eq!(upload(|| Err("timeout".to_string())), Err("timeout".to_string()));
}

#[test]
fn share_prefers_server() {
    let s = share(|| Ok("https://srv/r/1".to_string()), |_e: String| -> Result<String, String> {
        panic!("paste.rs must not be tried")
    })
    .ok()
    .unwrap();
    assert_eq!((s.url.as_str(), s.backend), ("https://srv/r/1", "crux"));
}

#[test]
fn share_falls_back_to_paste() {
    let s = share(|| Err("down".to_string()), |e: String| {
        assert_eq!(e, "down");
        Ok("https://paste.rs/x".to_string())
    })
    .ok()
    .unwrap();
    assert_eq!((s.url.as_str(), s.backend), ("https://paste.rs/x", "paste.rs"));
    let e = share(|| Err("down".to_string()), |_e: String| Err("also down".to_string())).err().unwrap();
    assert_eq!(e, "server failed (down); paste.rs fallback also failed (also down)");
}

#[test]
fn reply_decisions_from_fields() {
    assert_eq!(reply_url("https://b", "x", Some("u"), Some("l"), Some("i")), Ok("u".to_string()));
    assert_eq!(reply_url("https://b", "x", None, Some("l"), Some("i")), Ok("l".to_string()));
    assert_eq!(reply_url("https://b", "x", None, None, Some("i")), Ok("https://b/r/i".to_string()));
    assert_eq!(reply_url("https://b", " http://z ", None, None, None), Ok("http://z".to_string()));
    assert_eq!(
        reply_url("https://b", "", None, None, None),
        Err("server returned an unexpected response: ".to_string())
    );
}
