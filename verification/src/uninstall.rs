//! Self-uninstall: the artifacts the installer may have placed, and the
//! report of a removal sweep. The removing itself is the caller's.
use vstd::prelude::*;

use crate::history::{join_path, path_join};
use crate::text::{chars_of, dec, push_all, push_str, spec_dec, string_of};

verus! {

broadcast use vstd::string::group_string_axioms;

/// Outcome of an uninstall sweep.
#[derive(Debug)]
pub struct Report {
    /// Paths that were removed.
    pub removed: Vec<String>,
    /// Paths that exist but could not be removed (e.g. permission denied).
    pub failed: Vec<String>,
}

/// The status line of a sweep that removed `removed` paths and failed on
/// `failed`.
pub open spec fn spec_summary(removed: nat, failed: nat) -> Seq<char> {
    if removed == 0 && failed == 0 {
        "Nothing found to remove (already uninstalled, or installed elsewhere)."@
    } else if failed == 0 {
        "Uninstalled CRUCIBLE — "@ + spec_dec(removed) + " item(s) removed."@
    } else {
        "Removed "@ + spec_dec(removed) + " item(s); "@ + spec_dec(failed)
            + " needed elevated permissions (re-run with sudo)."@
    }
}

impl Default for Report {
    /// A sweep with nothing removed and nothing failed.
    fn default() -> (r: Report)
        ensures
            r.removed@.len() == 0,
            r.failed@.len() == 0,
    {
        Report { removed: Vec::new(), failed: Vec::new() }
    }
}

impl Report {
    /// Whether the sweep found nothing at all.
    pub fn is_empty(&self) -> (r: bool)
        ensures
            r == (self.removed@.len() == 0 && self.failed@.len() == 0),
    {
        self.removed.len() == 0 && self.failed.len() == 0
    }

    /// A short human summary for the CLI or a GUI status line.
    pub fn summary(&self) -> (r: String)
        ensures
            r@ == spec_summary(self.removed@.len(), self.failed@.len()),
    {
        let mut v: Vec<char> = Vec::new();
        if self.removed.len() == 0 && self.failed.len() == 0 {
            push_str(&mut v, "Nothing found to remove (already uninstalled, or installed elsewhere).");
        } else if self.failed.len() == 0 {
            push_str(&mut v, "Uninstalled CRUCIBLE — ");
            push_all(&mut v, dec(self.removed.len() as u64).as_slice());
            push_str(&mut v, " item(s) removed.");
        } else {
            push_str(&mut v, "Removed ");
            push_all(&mut v, dec(self.removed.len() as u64).as_slice());
            push_str(&mut v, " item(s); ");
            push_all(&mut v, dec(self.failed.len() as u64).as_slice());
            push_str(&mut v, " needed elevated permissions (re-run with sudo).");
        }
        assert(v@ =~= spec_summary(self.removed@.len(), self.failed@.len()));
        string_of(v.as_slice())
    }
}

/// Every path the installer may have created, for the home directory `h`:
/// the binaries and the `sysinfo` alias (system, then per-user), the man
/// page, shell completions, desktop entry and icon.
pub open spec fn spec_targets(h: Seq<char>) -> Seq<Seq<char>> {
    let lb = path_join(h, ".local/bin"@);
    seq![
        "/usr/local/bin/crux"@,
        "/usr/local/bin/sysinfo"@,
        "/usr/local/bin/crux-gui"@,
        "/usr/bin/crux"@,
        "/usr/bin/sysinfo"@,
        "/usr/bin/crux-gui"@,
        path_join(lb, "crux"@),
        path_join(lb, "sysinfo"@),
        path_join(lb, "crux-gui"@),
        path_join(h, ".local/share/man/man1/crux.1"@),
        "/usr/local/share/man/man1/crux.1"@,
        "/usr/share/man/man1/crux.1"@,
        path_join(h, ".local/share/bash-completion/completions/crux"@),
        "/usr/share/bash-completion/completions/crux"@,
        path_join(h, ".local/share/zsh/site-functions/_crux"@),
        "/usr/share/zsh/site-functions/_crux"@,
        path_join(h, ".config/fish/completions/crux.fish"@),
        "/usr/share/fish/vendor_completions.d/crux.fish"@,
        path_join(h, ".local/share/applications/crux-gui.desktop"@),
        "/usr/share/applications/crux-gui.desktop"@,
        path_join(h, ".local/share/icons/hicolor/scalable/apps/crucible.svg"@),
        "/usr/share/icons/hicolor/scalable/apps/crucible.svg"@,
    ]
}

/// The home directory: `HOME`, or `.` when unset.
pub open spec fn home_of(home: Option<&str>) -> Seq<char> {
    match home {
        Some(h) => h@,
        None => "."@,
    }
}

fn push_text(v: &mut Vec<String>, s: &str)
    ensures
        final(v)@.len() == old(v)@.len() + 1,
        forall|i: int| 0 <= i < old(v)@.len() ==> final(v)@[i] == old(v)@[i],
        final(v)@[old(v)@.len() as int]@ == s@,
{
    v.push(string_of(chars_of(s).as_slice()));
}

/// All paths the installer may have created, from the value of `HOME`.
pub fn targets(home: Option<&str>) -> (r: Vec<String>)
    ensures
        crate::report::collect::string_views(r@) == spec_targets(home_of(home)),
{
    let h: &str = match home {
        Some(x) => x,
        None => ".",
    };
    let lb = join_path(h, ".local/bin");
    let mut v: Vec<String> = Vec::new();
    push_text(&mut v, "/usr/local/bin/crux");
    push_text(&mut v, "/usr/local/bin/sysinfo");
    push_text(&mut v, "/usr/local/bin/crux-gui");
    push_text(&mut v, "/usr/bin/crux");
    push_text(&mut v, "/usr/bin/sysinfo");
    push_text(&mut v, "/usr/bin/crux-gui");
    v.push(join_path(lb.as_str(), "crux"));
    v.push(join_path(lb.as_str(), "sysinfo"));
    v.push(join_path(lb.as_str(), "crux-gui"));
    v.push(join_path(h, ".local/share/man/man1/crux.1"));
    push_text(&mut v, "/usr/local/share/man/man1/crux.1");
    push_text(&mut v, "/usr/share/man/man1/crux.1");
    v.push(join_path(h, ".local/share/bash-completion/completions/crux"));
    push_text(&mut v, "/usr/share/bash-completion/completions/crux");
    v.push(join_path(h, ".local/share/zsh/site-functions/_crux"));
    push_text(&mut v, "/usr/share/zsh/site-functions/_crux");
    v.push(join_path(h, ".config/fish/completions/crux.fish"));
    push_text(&mut v, "/usr/share/fish/vendor_completions.d/crux.fish");
    v.push(join_path(h, ".local/share/applications/crux-gui.desktop"));
    push_text(&mut v, "/usr/share/applications/crux-gui.desktop");
    v.push(join_path(h, ".local/share/icons/hicolor/scalable/apps/crucible.svg"));
    push_text(&mut v, "/usr/share/icons/hicolor/scalable/apps/crucible.svg");
    assert(h@ == home_of(home));
    assert(crate::report::collect::string_views(v@) =~= spec_targets(home_of(home)));
    v
}

} // verus!
