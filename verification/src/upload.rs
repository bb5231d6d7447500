//! Sharing results: the CRUCIBLE score server first, paste.rs as the
//! fallback. The HTTP requests are made by the caller's transport; this
//! module decides what is sent where and what a reply means.
use vstd::prelude::*;

use crate::json::{json_str_field, str_field};
use crate::report::collect::opt_view_string;
use crate::text::{chars_of, push_str, starts_with, string_of, trim, trim_end_ch, trim_end_matches, trim_ws};

verus! {

broadcast use vstd::string::group_string_axioms;

/// Default CRUCIBLE score server (overridden by `CRUX_SERVER`).
pub const DEFAULT_SERVER: &'static str = "https://crux.mmzsigmond.me";

/// Where a result ended up after sharing.
pub struct Shared {
    /// Human-facing URL of the result.
    pub url: String,
    /// The backend that accepted it: `crux` or `paste.rs`.
    pub backend: &'static str,
}

/// The server base URL: the `CRUX_SERVER` value when set, else the
/// default, without trailing slashes.
pub open spec fn spec_server_base(crux_server: Option<Seq<char>>) -> Seq<char> {
    trim_end_ch(
        match crux_server {
            Some(s) => s,
            None => "https://crux.mmzsigmond.me"@,
        },
        '/',
    )
}

/// The configured server base URL from the value of `CRUX_SERVER`
/// (`None`: unset or unreadable).
pub fn server_base(crux_server: Option<&str>) -> (r: String)
    ensures
        r@ == spec_server_base(opt_view_str(crux_server)),
{
    let raw = match crux_server {
        Some(s) => chars_of(s),
        None => chars_of(DEFAULT_SERVER),
    };
    proof {
        reveal_strlit("https://crux.mmzsigmond.me");
    }
    let t = trim_end_matches(raw.as_slice(), '/');
    string_of(t.as_slice())
}

/// The view of an optional string slice.
pub open spec fn opt_view_str(o: Option<&str>) -> Option<Seq<char>> {
    match o {
        Some(s) => Some(s@),
        None => None,
    }
}

/// The endpoint results are posted to.
pub open spec fn results_endpoint(base: Seq<char>) -> Seq<char> {
    base + "/api/results"@
}

/// What a server reply means, from its body, the body's JSON `url` and
/// `id` strings and the `Location` header: the `url`; else the
/// `Location`; else `<base>/r/<id>`; else the trimmed body when it is
/// itself a URL; else an error quoting it.
pub open spec fn reply_outcome(
    base: Seq<char>,
    body: Seq<char>,
    url: Option<Seq<char>>,
    location: Option<Seq<char>>,
    id: Option<Seq<char>>,
) -> Result<Seq<char>, Seq<char>> {
    match url {
        Some(u) => Ok(u),
        None => match location {
            Some(l) => Ok(l),
            None => match id {
                Some(i) => Ok(base + "/r/"@ + i),
                None => if "http"@.is_prefix_of(trim_ws(body)) {
                    Ok(trim_ws(body))
                } else {
                    Err("server returned an unexpected response: "@ + trim_ws(body))
                },
            },
        },
    }
}

/// What a server reply means: `reply_outcome` with the `url` and `id` of
/// its JSON body.
pub open spec fn submit_outcome(base: Seq<char>, body: Seq<char>, location: Option<Seq<char>>) -> Result<
    Seq<char>,
    Seq<char>,
> {
    reply_outcome(base, body, json_str_field(body, "url"@), location, json_str_field(body, "id"@))
}

/// The view of a text result.
pub open spec fn result_view(r: Result<String, String>) -> Result<Seq<char>, Seq<char>> {
    match r {
        Ok(s) => Ok(s@),
        Err(e) => Err(e@),
    }
}

/// Decides what a server reply means from its body, the `url` and `id`
/// strings of the body's JSON (when present) and its `Location` header.
pub fn reply_url(
    base: &str,
    body: &str,
    url: Option<&str>,
    location: Option<&str>,
    id: Option<&str>,
) -> (r: Result<String, String>)
    ensures
        result_view(r) == reply_outcome(
            base@,
            body@,
            opt_view_str(url),
            opt_view_str(location),
            opt_view_str(id),
        ),
{
    match url {
        Some(u) => {
            return Ok(string_of(chars_of(u).as_slice()));
        },
        None => {},
    }
    match location {
        Some(l) => {
            return Ok(string_of(chars_of(l).as_slice()));
        },
        None => {},
    }
    match id {
        Some(i) => {
            let mut v: Vec<char> = Vec::new();
            push_str(&mut v, base);
            push_str(&mut v, "/r/");
            push_str(&mut v, i);
            return Ok(string_of(v.as_slice()));
        },
        None => {},
    }
    let t = trim(chars_of(body).as_slice());
    if starts_with(t.as_slice(), chars_of("http").as_slice()) {
        Ok(string_of(t.as_slice()))
    } else {
        let mut e: Vec<char> = Vec::new();
        push_str(&mut e, "server returned an unexpected response: ");
        crate::text::push_all(&mut e, t.as_slice());
        Err(string_of(e.as_slice()))
    }
}

/// Reads the server's reply to a submission: its body and `Location`
/// header.
pub fn submit_reply(base: &str, body: &str, location: Option<&str>) -> (r: Result<String, String>)
    ensures
        result_view(r) == submit_outcome(base@, body@, opt_view_str(location)),
{
    let url = str_field(body, "url");
    let id = str_field(body, "id");
    let u = match &url {
        Some(x) => Some(x.as_str()),
        None => None,
    };
    let i = match &id {
        Some(x) => Some(x.as_str()),
        None => None,
    };
    reply_url(base, body, u, location, i)
}

/// The outcome of a submission for the transport's result: its error, or
/// what its reply (body, `Location`) means.
pub open spec fn submit_result(
    base: Seq<char>,
    res: Result<(String, Option<String>), String>,
) -> Result<Seq<char>, Seq<char>> {
    match res {
        Err(e) => Err(e@),
        Ok((body, loc)) => submit_outcome(base, body@, opt_view_string(loc)),
    }
}

/// Submits a full results JSON to the score server at `base`: `post`
/// sends it to `<base>/api/results` and returns the reply's body and
/// `Location` header, or the transport's error.
pub fn submit<F>(base: &str, post: F) -> (r: Result<String, String>) where
    F: FnOnce(String) -> Result<(String, Option<String>), String>,

    requires
        forall|ep: String| ep@ == results_endpoint(base@) ==> post.requires((ep,)),
    ensures
        exists|ep: String, res: Result<(String, Option<String>), String>|
            ep@ == results_endpoint(base@) && post.ensures((ep,), res) && result_view(r)
                == submit_result(base@, res),
{
    let mut v: Vec<char> = Vec::new();
    push_str(&mut v, base);
    push_str(&mut v, "/api/results");
    let ep = string_of(v.as_slice());
    let ghost g_ep = ep;
    let res = post(ep);
    let ghost g = res;
    assert(post.ensures((g_ep,), g));
    let r = match res {
        Err(e) => Err(e),
        Ok((body, loc)) => {
            let l = match &loc {
                Some(x) => Some(x.as_str()),
                None => None,
            };
            submit_reply(base, body.as_str(), l)
        },
    };
    assert(result_view(r) == submit_result(base@, g));
    r
}

/// The paste.rs outcome: the trimmed reply body, or the transport's error.
pub open spec fn upload_result(res: Result<String, String>) -> Result<Seq<char>, Seq<char>> {
    match res {
        Ok(b) => Ok(trim_ws(b@)),
        Err(e) => Err(e@),
    }
}

/// Uploads text to paste.rs: `post` sends it and returns the reply body
/// (the paste's URL) or the transport's error.
pub fn upload<F>(post: F) -> (r: Result<String, String>) where F: FnOnce() -> Result<String, String>
    requires
        post.requires(()),
    ensures
        exists|res: Result<String, String>| post.ensures((), res) && result_view(r) == upload_result(res),
{
    let res = post();
    let ghost g = res;
    assert(post.ensures((), g));
    let r = match res {
        Ok(b) => Ok(string_of(trim(chars_of(b.as_str()).as_slice()).as_slice())),
        Err(e) => Err(e),
    };
    assert(result_view(r) == upload_result(g));
    r
}

/// The outcome of sharing: the server's URL; else, after the server
/// failed with `server_err`, paste.rs's URL; else both errors.
pub open spec fn share_after_server(server_err: Seq<char>, paste: Result<Seq<char>, Seq<char>>) -> Result<
    (Seq<char>, Seq<char>),
    Seq<char>,
> {
    match paste {
        Ok(u) => Ok((u, "paste.rs"@)),
        Err(pe) => Err("server failed ("@ + server_err + "); paste.rs fallback also failed ("@ + pe
            + ")"@),
    }
}

/// The view of a share outcome: (URL, backend) or the error.
pub open spec fn shared_view(r: Result<Shared, String>) -> Result<(Seq<char>, Seq<char>), Seq<char>> {
    match r {
        Ok(s) => Ok((s.url@, s.backend@)),
        Err(e) => Err(e@),
    }
}

/// Shares results: `submit` (the score server) first; only when it fails,
/// `upload` (paste.rs). Returns the URL and the backend that took it, or
/// both errors. `upload` is handed the server's error, and may be called
/// only with an error that `submit` returned: it is never called before
/// the server failed.
pub fn share<FS, FU>(submit: FS, upload: FU) -> (r: Result<Shared, String>) where
    FS: FnOnce() -> Result<String, String>,
    FU: FnOnce(String) -> Result<String, String>,

    requires
        submit.requires(()),
        forall|e: String| submit.ensures((), Err::<String, String>(e)) ==> upload.requires((e,)),
    ensures
        exists|sr: Result<String, String>|
            submit.ensures((), sr) && match sr {
                Ok(u) => shared_view(r) == Ok::<(Seq<char>, Seq<char>), Seq<char>>((u@, "crux"@)),
                Err(se) => exists|pr: Result<String, String>|
                    upload.ensures((se,), pr) && shared_view(r) == share_after_server(
                        se@,
                        result_view(pr),
                    ),
            },
{
    let sr = submit();
    let ghost gs = sr;
    assert(submit.ensures((), gs));
    proof {
        reveal_strlit("crux");
        reveal_strlit("paste.rs");
    }
    match sr {
        Ok(url) => {
            let r = Ok(Shared { url, backend: "crux" });
            assert(shared_view(r) == Ok::<(Seq<char>, Seq<char>), Seq<char>>((gs->Ok_0@, "crux"@)));
            r
        },
        Err(server_err) => {
            let ghost ge = server_err;
            let pr = upload(server_err.clone());
            let ghost gp = pr;
            assert(upload.ensures((ge,), gp));
            match pr {
                Ok(url) => {
                    let r = Ok(Shared { url, backend: "paste.rs" });
                    assert(shared_view(r) == share_after_server(server_err@, result_view(gp)));
                    r
                },
                Err(paste_err) => {
                    let mut e: Vec<char> = Vec::new();
                    push_str(&mut e, "server failed (");
                    push_str(&mut e, server_err.as_str());
                    push_str(&mut e, "); paste.rs fallback also failed (");
                    push_str(&mut e, paste_err.as_str());
                    push_str(&mut e, ")");
                    let r = Err(string_of(e.as_slice()));
                    assert(shared_view(r) == share_after_server(server_err@, result_view(gp)));
                    r
                },
            }
        },
    }
}

} // verus!
