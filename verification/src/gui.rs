//! The desktop front-end's decisions: its persisted preferences and what
//! its controller runs, shares and exports. The Qt bridge, threads and
//! files are the caller's.
use vstd::prelude::*;

use crate::json::{
    bool_field, is_object, json_bool_field, json_is_object, json_object2, json_parse_error, json_str_field,
    json_with_key, object2, parse_error, str_field, with_key,
};
use crate::upload::result_view;
use crate::text::{chars_of, slice_vec, starts_with, str_eq, string_of, trim, trim_ws};
use crate::RunOpts;

verus! {

broadcast use vstd::string::group_string_axioms;

/// Persisted GUI preferences (`~/.config/crucible/gui.json`).
#[derive(Clone, Debug)]
pub struct Prefs {
    /// Dark theme.
    pub dark: bool,
    /// `auto`, `opengl` or `vulkan`: the renderer applied at launch.
    pub render_backend: String,
}

impl Default for Prefs {
    /// Dark theme, automatic renderer.
    fn default() -> (p: Self)
        ensures
            p.dark,
            p.render_backend@ == "auto"@,
    {
        Prefs { dark: true, render_backend: string_of(chars_of("auto").as_slice()) }
    }
}

/// A renderer name the preferences accept.
pub open spec fn is_backend(b: Seq<char>) -> bool {
    b == "auto"@ || b == "opengl"@ || b == "vulkan"@
}

/// Whether `b` is a renderer name the preferences accept.
pub fn valid_backend(b: &str) -> (r: bool)
    ensures
        r == is_backend(b@),
{
    str_eq(b, "auto") || str_eq(b, "opengl") || str_eq(b, "vulkan")
}

/// The preferences from the fields read from a settings file: `dark` when
/// given, `render_backend` when given and an accepted renderer name, each
/// else its default.
pub fn prefs_from_fields(dark: Option<bool>, render_backend: Option<&str>) -> (p: Prefs)
    ensures
        p.dark == match dark {
            Some(d) => d,
            None => true,
        },
        p.render_backend@ == match render_backend {
            Some(b) => if is_backend(b@) { b@ } else { "auto"@ },
            None => "auto"@,
        },
{
    let mut p = Prefs::default();
    match dark {
        Some(d) => {
            p.dark = d;
        },
        None => {},
    }
    match render_backend {
        Some(b) => {
            if valid_backend(b) {
                p.render_backend = string_of(chars_of(b).as_slice());
            }
        },
        None => {},
    }
    p
}

/// The preferences a settings file's text gives: each field from the
/// JSON when present and valid (`dark` a boolean, `render_backend` an
/// accepted renderer name), else its default; all defaults when the text
/// is not JSON.
pub fn prefs_from_json(text: &str) -> (p: Prefs)
    ensures
        p.dark == match json_bool_field(text@, "dark"@) {
            Some(d) => d,
            None => true,
        },
        p.render_backend@ == match json_str_field(text@, "render_backend"@) {
            Some(b) => if is_backend(b) { b } else { "auto"@ },
            None => "auto"@,
        },
        crate::json::json_parse_error(text@) is Some ==> p.dark && p.render_backend@ == "auto"@,
{
    let dark = bool_field(text, "dark");
    let backend = str_field(text, "render_backend");
    let b = match &backend {
        Some(x) => Some(x.as_str()),
        None => None,
    };
    prefs_from_fields(dark, b)
}

/// The status label of a suite kind.
pub open spec fn spec_suite_label(kind: Seq<char>) -> Seq<char> {
    if kind == "cpu"@ {
        "CPU"@
    } else if kind == "mem"@ {
        "memory"@
    } else if kind == "net"@ {
        "network"@
    } else if kind == "disk"@ {
        "storage"@
    } else if kind == "info"@ {
        "system info"@
    } else {
        "benchmark"@
    }
}

/// The label shown while a suite runs.
pub fn suite_label(kind: &str) -> (r: &'static str)
    ensures
        r@ == spec_suite_label(kind@),
{
    if str_eq(kind, "cpu") {
        "CPU"
    } else if str_eq(kind, "mem") {
        "memory"
    } else if str_eq(kind, "net") {
        "network"
    } else if str_eq(kind, "disk") {
        "storage"
    } else if str_eq(kind, "info") {
        "system info"
    } else {
        "benchmark"
    }
}

/// A path from a file dialog: a `file://` prefix removed.
pub open spec fn spec_strip_file_url(p: Seq<char>) -> Seq<char> {
    if "file://"@.is_prefix_of(p) {
        p.skip(7)
    } else {
        p
    }
}

/// A plain path from a path or `file://` URL.
pub fn strip_file_url(p: &str) -> (r: String)
    ensures
        r@ == spec_strip_file_url(p@),
{
    let v = chars_of(p);
    let pre = chars_of("file://");
    proof {
        reveal_strlit("file://");
    }
    assert(pre@.len() == 7);
    if starts_with(v.as_slice(), pre.as_slice()) {
        let n = v.len();
        let t = slice_vec(v.as_slice(), 7, n);
        assert(t@ =~= p@.skip(7));
        string_of(t.as_slice())
    } else {
        string_of(v.as_slice())
    }
}

/// The run JSON after a render result: `render` set as the `"render"`
/// section of the current run JSON `cur` when that is an object, else of a
/// new object holding the system facts `sysinfo` under `"sysinfo"`. A
/// `render` text that is not JSON is rejected with its parse error (and so
/// is a `sysinfo` text that is not, where it is needed).
pub open spec fn spec_merge_render(cur: Seq<char>, render: Seq<char>, sysinfo: Seq<char>) -> Result<
    Seq<char>,
    Seq<char>,
> {
    match json_parse_error(render) {
        Some(e) => Err(e),
        None => if json_is_object(cur) {
            Ok(json_with_key(cur, "render"@, render))
        } else {
            match json_parse_error(sysinfo) {
                Some(e) => Err(e),
                None => Ok(json_object2("sysinfo"@, sysinfo, "render"@, render)),
            }
        },
    }
}

/// Merges the render benchmark's result JSON into the run JSON so that
/// sharing, submitting and exporting carry it; `sysinfo` is the system
/// facts as JSON, for a run that has no JSON yet.
pub fn merge_render(cur: &str, render: &str, sysinfo: &str) -> (r: Result<String, String>)
    ensures
        result_view(r) == spec_merge_render(cur@, render@, sysinfo@),
{
    match parse_error(render) {
        Some(e) => {
            return Err(e);
        },
        None => {},
    }
    if is_object(cur) {
        Ok(with_key(cur, "render", render))
    } else {
        match parse_error(sysinfo) {
            Some(e) => Err(e),
            None => Ok(object2("sysinfo", sysinfo, "render", render)),
        }
    }
}

/// What is shared or submitted: the last run's JSON when there is one,
/// else the report text unless it is blank.
pub open spec fn spec_share_body(last_json: Seq<char>, output: Seq<char>) -> Option<Seq<char>> {
    if last_json.len() > 0 {
        Some(last_json)
    } else if trim_ws(output).len() == 0 {
        None
    } else {
        Some(output)
    }
}

/// The body to share or submit, from the last run's JSON and the shown
/// report text.
pub fn share_body(last_json: &str, output: &str) -> (r: Option<String>)
    ensures
        crate::report::collect::opt_view_string(r) == spec_share_body(last_json@, output@),
{
    let j = chars_of(last_json);
    if j.len() > 0 {
        return Some(string_of(j.as_slice()));
    }
    let t = chars_of(output);
    if trim(t.as_slice()).len() == 0 {
        None
    } else {
        Some(string_of(t.as_slice()))
    }
}

/// The options of a GUI run: the chosen seconds and runs, each at least
/// 1, and four download streams.
pub fn gui_opts(duration: i32, runs: i32) -> (o: RunOpts)
    ensures
        o.duration_secs == if duration >= 1 { duration as int } else { 1 },
        o.runs == if runs >= 1 { runs as int } else { 1 },
        o.streams == 4,
{
    RunOpts {
        duration_secs: if duration >= 1 { duration as u64 } else { 1 },
        runs: if runs >= 1 { runs as usize } else { 1 },
        streams: 4,
    }
}

/// The suites a GUI run goes through one by one: the four for `all`, else
/// the one named.
pub open spec fn spec_suites_for(kind: Seq<char>) -> Seq<Seq<char>> {
    if kind == "all"@ {
        seq!["cpu"@, "mem"@, "net"@, "disk"@]
    } else {
        seq![kind]
    }
}

/// The suites a GUI run of `kind` goes through.
pub fn suites_for(kind: &str) -> (r: Vec<String>)
    ensures
        crate::report::collect::string_views(r@) == spec_suites_for(kind@),
{
    let mut v: Vec<String> = Vec::new();
    if str_eq(kind, "all") {
        v.push(string_of(chars_of("cpu").as_slice()));
        v.push(string_of(chars_of("mem").as_slice()));
        v.push(string_of(chars_of("net").as_slice()));
        v.push(string_of(chars_of("disk").as_slice()));
    } else {
        v.push(string_of(chars_of(kind).as_slice()));
    }
    assert(crate::report::collect::string_views(v@) =~= spec_suites_for(kind@));
    v
}

/// Whether two run ids can be compared: both given and different.
pub fn can_compare(a: &str, b: &str) -> (r: bool)
    ensures
        r == (a@.len() > 0 && b@.len() > 0 && a@ != b@),
{
    let x = chars_of(a);
    let y = chars_of(b);
    x.len() > 0 && y.len() > 0 && !crate::text::same_chars(x.as_slice(), y.as_slice())
}

/// What the controller does when a run of `kind` is asked for.
pub enum RunStep {
    /// A run is going: nothing.
    Ignore,
    /// `info`: show the system report, with no results.
    ShowInfo,
    /// Run these suites one by one and merge their results.
    RunSuites(Vec<String>),
}

/// The controller's first decision on a run request: nothing while a run
/// is going, the report for `info`, else the suites of `kind`.
pub fn run_step(running: bool, kind: &str) -> (r: RunStep)
    ensures
        running ==> r is Ignore,
        !running && kind@ == "info"@ ==> r is ShowInfo,
        !running && kind@ != "info"@ ==> (r matches RunStep::RunSuites(v)
            && crate::report::collect::string_views(v@) == spec_suites_for(kind@)),
{
    if running {
        RunStep::Ignore
    } else if str_eq(kind, "info") {
        RunStep::ShowInfo
    } else {
        RunStep::RunSuites(suites_for(kind))
    }
}

} // verus!

verus! {

// ---------- status lines ----------

/// The status after a run: the id it was recorded under, or why history
/// was not saved.
pub fn run_status(recorded: &Result<String, String>) -> (r: String)
    ensures
        r@ == match recorded {
            Ok(id) => "Done — recorded "@ + id@ + "."@,
            Err(e) => "Done (history not saved: "@ + e@ + ")."@,
        },
{
    let mut v: Vec<char> = Vec::new();
    match recorded {
        Ok(id) => {
            crate::text::push_str(&mut v, "Done — recorded ");
            crate::text::push_str(&mut v, id.as_str());
            crate::text::push_str(&mut v, ".");
        },
        Err(e) => {
            crate::text::push_str(&mut v, "Done (history not saved: ");
            crate::text::push_str(&mut v, e.as_str());
            crate::text::push_str(&mut v, ").");
        },
    }
    string_of(v.as_slice())
}

/// The status line for what recording a run gave.
pub open spec fn spec_run_status(recorded: Result<Seq<char>, Seq<char>>) -> Seq<char> {
    match recorded {
        Ok(id) => "Done — recorded "@ + id + "."@,
        Err(e) => "Done (history not saved: "@ + e + ")."@,
    }
}

/// The end of a suite run from its merged JSON (empty: no results):
/// whether there are results, and the status line. Only a non-empty JSON is
/// handed to `record`, which stores it in history and gives its id.
pub fn run_end<F>(json: String, record: F) -> (r: (bool, String)) where
    F: FnOnce(String) -> Result<String, String>,

    requires
        json@.len() > 0 ==> record.requires((json,)),
    ensures
        json@.len() == 0 ==> !r.0 && r.1@ == spec_run_status(Err("no results"@)),
        json@.len() > 0 ==> r.0 && exists|res: Result<String, String>|
            record.ensures((json,), res) && r.1@ == spec_run_status(
                crate::upload::result_view(res),
            ),
{
    let ghost gj = json;
    if chars_of(json.as_str()).len() == 0 {
        let e = string_of(chars_of("no results").as_slice());
        proof {
            reveal_strlit("no results");
        }
        (false, run_status(&Err(e)))
    } else {
        let res = record(json);
        let ghost g = res;
        assert(record.ensures((gj,), g));
        let st = run_status(&res);
        assert(st@ == spec_run_status(crate::upload::result_view(g)));
        (true, st)
    }
}

/// The status after sharing: the backend that took the result, or the
/// error.
pub fn share_status(result: &Result<crate::upload::Shared, String>) -> (r: String)
    ensures
        r@ == match result {
            Ok(s) => "Shared via "@ + s.backend@ + "."@,
            Err(e) => "Share failed: "@ + e@,
        },
{
    let mut v: Vec<char> = Vec::new();
    match result {
        Ok(s) => {
            crate::text::push_str(&mut v, "Shared via ");
            crate::text::push_str(&mut v, s.backend);
            crate::text::push_str(&mut v, ".");
        },
        Err(e) => {
            crate::text::push_str(&mut v, "Share failed: ");
            crate::text::push_str(&mut v, e.as_str());
        },
    }
    string_of(v.as_slice())
}

/// The status after a submission to the score server.
pub fn submit_status(result: &Result<String, String>) -> (r: String)
    ensures
        r@ == match result {
            Ok(_) => "Submitted to the score server."@,
            Err(e) => "Submit failed: "@ + e@,
        },
{
    let mut v: Vec<char> = Vec::new();
    match result {
        Ok(_) => {
            crate::text::push_str(&mut v, "Submitted to the score server.");
        },
        Err(e) => {
            crate::text::push_str(&mut v, "Submit failed: ");
            crate::text::push_str(&mut v, e.as_str());
        },
    }
    string_of(v.as_slice())
}

/// The status after writing the report or the JSON (`what`) to `path`.
pub fn export_status(what: &str, path: &str, result: &Result<(), String>) -> (r: String)
    ensures
        r@ == match result {
            Ok(_) => "Saved "@ + what@ + " to "@ + path@,
            Err(e) => "Save failed: "@ + e@,
        },
{
    let mut v: Vec<char> = Vec::new();
    match result {
        Ok(_) => {
            crate::text::push_str(&mut v, "Saved ");
            crate::text::push_str(&mut v, what);
            crate::text::push_str(&mut v, " to ");
            crate::text::push_str(&mut v, path);
        },
        Err(e) => {
            crate::text::push_str(&mut v, "Save failed: ");
            crate::text::push_str(&mut v, e.as_str());
        },
    }
    string_of(v.as_slice())
}

} // verus!
