//! The report's collectors, with the reading of /proc, /sys, commands and
//! sockets left to the caller: each function here takes what was read and
//! computes the value shown.
use vstd::prelude::*;

use crate::report::format::first_line;
use crate::text::{
    chars_of, count_from, count_matches, dec, first_rest_after, first_rest_after_exec, join_range,
    join_with, lines, push_all, push_digits, push_str, seq_views, slice_vec, spec_dec,
    spec_first_line, spec_lines, spec_words, string_of, trim, trim_ws, words,
};

verus! {

broadcast use vstd::string::group_string_axioms;

/// The view of an optional text.
pub open spec fn opt_view(o: Option<&str>) -> Option<Seq<char>> {
    match o {
        Some(s) => Some(s@),
        None => None,
    }
}

/// `hostname`: the first line of /proc/sys/kernel/hostname if it is not
/// empty, else the first line of /etc/hostname, else `unknown`.
pub open spec fn spec_hostname(proc_hostname: Option<Seq<char>>, etc_hostname: Option<Seq<char>>) -> Seq<char> {
    match proc_hostname {
        Some(p) if spec_first_line(p).len() > 0 => spec_first_line(p),
        _ => match etc_hostname {
            Some(e) => spec_first_line(e),
            None => "unknown"@,
        },
    }
}

/// The host name from the contents of /proc/sys/kernel/hostname and
/// /etc/hostname (`None`: not readable).
pub fn hostname(proc_hostname: Option<&str>, etc_hostname: Option<&str>) -> (r: String)
    ensures
        r@ == spec_hostname(opt_view(proc_hostname), opt_view(etc_hostname)),
{
    if let Some(l) = first_line(proc_hostname) {
        if !l.as_str().is_empty() {
            return l;
        }
    }
    match first_line(etc_hostname) {
        Some(l) => l,
        None => {
            let u = chars_of("unknown");
            string_of(u.as_slice())
        },
    }
}

/// The distribution name from the contents of /etc/os-release.
pub fn os_pretty(os_release: Option<&str>) -> (r: String)
    ensures
        r@ == crate::sysinfo::spec_os_pretty(opt_view(os_release)),
{
    crate::sysinfo::read_os(os_release)
}

/// `kernel`: the first line of /proc/sys/kernel/osrelease, else `unknown`.
pub fn kernel(osrelease: Option<&str>) -> (r: String)
    ensures
        r@ == match osrelease {
            Some(t) => spec_first_line(t@),
            None => "unknown"@,
        },
{
    match first_line(osrelease) {
        Some(l) => l,
        None => {
            let u = chars_of("unknown");
            string_of(u.as_slice())
        },
    }
}

/// `uptime(secs)`: `<d>d ` if there are whole days, `<h>h ` if the hours of
/// the day are not 0, and always `<m>m`.
pub open spec fn spec_uptime(secs: nat) -> Seq<char> {
    let d = secs / 86400;
    let h = (secs % 86400) / 3600;
    let m = (secs % 3600) / 60;
    (if d > 0 { spec_dec(d) + "d "@ } else { Seq::empty() }) + (if h > 0 {
        spec_dec(h) + "h "@
    } else {
        Seq::empty()
    }) + spec_dec(m) + "m"@
}

/// The uptime, given in whole seconds, as days, hours and minutes.
pub fn uptime(secs: u64) -> (r: String)
    ensures
        r@ == spec_uptime(secs as nat),
{
    let d = secs / 86400;
    let h = (secs % 86400) / 3600;
    let m = (secs % 3600) / 60;
    let mut out: Vec<char> = Vec::new();
    if d > 0 {
        push_digits(&mut out, d, 10);
        push_str(&mut out, "d ");
    }
    if h > 0 {
        push_digits(&mut out, h, 10);
        push_str(&mut out, "h ");
    }
    push_digits(&mut out, m, 10);
    push_str(&mut out, "m");
    assert(out@ =~= spec_uptime(secs as nat));
    string_of(out.as_slice())
}

/// `load_avg`: the first three fields of /proc/loadavg joined by spaces,
/// `unknown` when it cannot be read.
pub open spec fn spec_load_avg(loadavg: Option<Seq<char>>) -> Seq<char> {
    match loadavg {
        None => "unknown"@,
        Some(t) => {
            let ws = spec_words(t);
            join_with(if ws.len() <= 3 { ws } else { ws.take(3) }, " "@)
        },
    }
}

/// The load averages from the contents of /proc/loadavg.
pub fn load_avg(loadavg: Option<&str>) -> (r: String)
    ensures
        r@ == spec_load_avg(opt_view(loadavg)),
{
    match loadavg {
        None => {
            let u = chars_of("unknown");
            string_of(u.as_slice())
        },
        Some(t) => {
            let v = chars_of(t);
            let ws = words(v.as_slice());
            let n = if ws.len() <= 3 { ws.len() } else { 3 };
            let sp = chars_of(" ");
            let j = join_range(&ws, 0, n, sp.as_slice());
            proof {
                let all = seq_views(ws@);
                if ws.len() <= 3 {
                    assert(all.subrange(0, n as int) =~= all);
                } else {
                    assert(all.subrange(0, n as int) =~= all.take(3));
                }
            }
            string_of(j.as_slice())
        },
    }
}

} // verus!

verus! {

// ---------- packages ----------

/// Number of lines that are not blank.
pub open spec fn nonblank_count(ls: Seq<Seq<char>>) -> nat
    decreases ls.len(),
{
    if ls.len() == 0 {
        0
    } else {
        nonblank_count(ls.drop_last()) + if trim_ws(ls.last()).len() > 0 { 1nat } else { 0nat }
    }
}

fn nonblank_lines(t: &str) -> (n: usize)
    ensures
        n == nonblank_count(spec_lines(t@)),
{
    let v = chars_of(t);
    let ls = lines(v.as_slice());
    let ghost all = seq_views(ls@);
    let mut n: usize = 0;
    let mut i: usize = 0;
    while i < ls.len()
        invariant
            i <= ls.len(),
            all == seq_views(ls@),
            all == spec_lines(t@),
            n == nonblank_count(all.take(i as int)),
            n <= i,
        decreases ls.len() - i,
    {
        let tl = trim(ls[i].as_slice());
        assert(all.take(i + 1).drop_last() =~= all.take(i as int));
        if tl.len() > 0 {
            n += 1;
        }
        i += 1;
    }
    assert(all.take(i as int) =~= all);
    n
}

/// The one-element list `[<n> (<manager>)]` when `n > 0`, else empty.
pub open spec fn counted(n: nat, manager: Seq<char>) -> Seq<Seq<char>> {
    if n > 0 {
        seq![count_label(n, manager)]
    } else {
        Seq::empty()
    }
}

/// `<n> (<manager>)`.
pub open spec fn count_label(n: nat, manager: Seq<char>) -> Seq<char> {
    spec_dec(n) + " ("@ + manager + ")"@
}

/// The package counts that `packages` reports, in order: dpkg (installed
/// entries in its status file), pacman (entries of its local database, less
/// one), apk (entries of its installed database), rpm and flatpak (non-blank
/// lines of `rpm -qa` and `flatpak list --app`); each only when it is
/// positive and its source could be read.
pub open spec fn package_parts(
    dpkg_status: Option<Seq<char>>,
    pacman_dirs: Option<nat>,
    apk_installed: Option<Seq<char>>,
    rpm_list: Option<Seq<char>>,
    flatpak_list: Option<Seq<char>>,
) -> Seq<Seq<char>> {
    let dpkg = match dpkg_status {
        Some(s) => counted(count_from(s, "\nStatus: install ok installed"@, 0), "dpkg"@),
        None => Seq::empty(),
    };
    let pacman = match pacman_dirs {
        Some(n) if n > 1 => counted((n - 1) as nat, "pacman"@),
        _ => Seq::empty(),
    };
    let apk = match apk_installed {
        Some(s) => counted(count_from(s, "\nP:"@, 0), "apk"@),
        None => Seq::empty(),
    };
    let rpm = match rpm_list {
        Some(s) => counted(nonblank_count(spec_lines(s)), "rpm"@),
        None => Seq::empty(),
    };
    let flatpak = match flatpak_list {
        Some(s) => counted(nonblank_count(spec_lines(s)), "flatpak"@),
        None => Seq::empty(),
    };
    dpkg + pacman + apk + rpm + flatpak
}

/// `packages`: the counts joined by `, `, or `unknown` when there are none.
pub open spec fn spec_packages(parts: Seq<Seq<char>>) -> Seq<char> {
    if parts.len() == 0 {
        "unknown"@
    } else {
        join_with(parts, ", "@)
    }
}

fn push_count_part(parts: &mut Vec<Vec<char>>, n: usize, manager: &str)
    ensures
        seq_views(final(parts)@) == seq_views(old(parts)@) + counted(n as nat, manager@),
{
    if n == 0 {
        assert(seq_views(parts@) =~= seq_views(parts@) + counted(n as nat, manager@));
        return;
    }
    let mut p = dec(n as u64);
    push_str(&mut p, " (");
    push_str(&mut p, manager);
    push_str(&mut p, ")");
    let ghost before = seq_views(parts@);
    parts.push(p);
    assert(seq_views(parts@) =~= before + counted(n as nat, manager@));
}

/// Package counts across the common managers, from what was read: the dpkg
/// status file, the number of entries in pacman's local database directory,
/// apk's installed database, and the output of `rpm -qa` (only when
/// /var/lib/rpm exists) and `flatpak list --app` (each `None` when absent).
pub fn packages(
    dpkg_status: Option<&str>,
    pacman_dirs: Option<usize>,
    apk_installed: Option<&str>,
    rpm_list: Option<&str>,
    flatpak_list: Option<&str>,
) -> (r: String)
    ensures
        r@ == spec_packages(
            package_parts(
                opt_view(dpkg_status),
                match pacman_dirs { Some(n) => Some(n as nat), None => None },
                opt_view(apk_installed),
                opt_view(rpm_list),
                opt_view(flatpak_list),
            ),
        ),
{
    let mut parts: Vec<Vec<char>> = Vec::new();
    let ghost p0 = seq_views(parts@);
    assert(p0 =~= Seq::<Seq<char>>::empty());
    if let Some(s) = dpkg_status {
        let v = chars_of(s);
        let pat = chars_of("\nStatus: install ok installed");
        proof {
            reveal_strlit("\nStatus: install ok installed");
        }
        let n = count_matches(v.as_slice(), pat.as_slice());
        push_count_part(&mut parts, n, "dpkg");
    }
    let ghost p1 = seq_views(parts@);
    if let Some(n) = pacman_dirs {
        if n > 1 {
            push_count_part(&mut parts, n - 1, "pacman");
        }
    }
    let ghost p2 = seq_views(parts@);
    if let Some(s) = apk_installed {
        let v = chars_of(s);
        let pat = chars_of("\nP:");
        proof {
            reveal_strlit("\nP:");
        }
        let n = count_matches(v.as_slice(), pat.as_slice());
        push_count_part(&mut parts, n, "apk");
    }
    let ghost p3 = seq_views(parts@);
    if let Some(s) = rpm_list {
        let n = nonblank_lines(s);
        push_count_part(&mut parts, n, "rpm");
    }
    let ghost p4 = seq_views(parts@);
    if let Some(s) = flatpak_list {
        let n = nonblank_lines(s);
        push_count_part(&mut parts, n, "flatpak");
    }
    proof {
        assert(p1 == p0 + match opt_view(dpkg_status) {
            Some(s) => counted(count_from(s, "\nStatus: install ok installed"@, 0), "dpkg"@),
            None => Seq::empty(),
        });
        let spec_parts = package_parts(
            opt_view(dpkg_status),
            match pacman_dirs { Some(n) => Some(n as nat), None => None },
            opt_view(apk_installed),
            opt_view(rpm_list),
            opt_view(flatpak_list),
        );
        assert(seq_views(parts@) =~= spec_parts);
    }
    if parts.len() == 0 {
        let u = chars_of("unknown");
        string_of(u.as_slice())
    } else {
        let sep = chars_of(", ");
        let j = join_range(&parts, 0, parts.len(), sep.as_slice());
        assert(seq_views(parts@).subrange(0, parts.len() as int) =~= seq_views(parts@));
        string_of(j.as_slice())
    }
}

} // verus!

verus! {

// ---------- CPU caches ----------

/// One cache as the report names it: `L<level>d`, `L<level>i` or
/// `L<level>` (by its type), a space, and its size.
pub open spec fn cache_part(level: Seq<char>, ty: Seq<char>, size: Seq<char>) -> Seq<char> {
    let tag = if ty == "Data"@ {
        "L"@ + level + "d"@
    } else if ty == "Instruction"@ {
        "L"@ + level + "i"@
    } else {
        "L"@ + level
    };
    tag + " "@ + size
}

/// The views of (level, type, size) triples.
pub open spec fn triple_views(v: Seq<(String, String, String)>) -> Seq<(Seq<char>, Seq<char>, Seq<char>)> {
    v.map_values(|t: (String, String, String)| (t.0@, t.1@, t.2@))
}

/// `cpu_cache`: the caches joined by `, `, `unknown` when there are none.
pub open spec fn spec_cpu_cache(caches: Seq<(Seq<char>, Seq<char>, Seq<char>)>) -> Seq<char> {
    if caches.len() == 0 {
        "unknown"@
    } else {
        join_with(
            Seq::new(caches.len(), |i: int| cache_part(caches[i].0, caches[i].1, caches[i].2)),
            ", "@,
        )
    }
}

fn same_text(a: &[char], b: &[char]) -> (r: bool)
    ensures
        r == (a@ == b@),
{
    if a.len() != b.len() {
        return false;
    }
    let r = crate::text::starts_with(a, b);
    proof {
        if r {
            assert(a@ =~= b@);
        }
        if a@ == b@ {
            assert(b@.is_prefix_of(a@));
        }
    }
    r
}

/// The CPU cache summary from the `level`, `type` and `size` of each cache
/// index of cpu0 (in index order, up to the first missing one).
pub fn cpu_cache(caches: &Vec<(String, String, String)>) -> (r: String)
    ensures
        r@ == spec_cpu_cache(triple_views(caches@)),
{
    let ghost cs = triple_views(caches@);
    if caches.len() == 0 {
        let u = chars_of("unknown");
        return string_of(u.as_slice());
    }
    let mut parts: Vec<Vec<char>> = Vec::new();
    let mut i: usize = 0;
    while i < caches.len()
        invariant
            i <= caches.len(),
            cs == triple_views(caches@),
            parts.len() == i,
            forall|k: int| 0 <= k < i ==> #[trigger] parts@[k]@ == cache_part(cs[k].0, cs[k].1, cs[k].2),
        decreases caches.len() - i,
    {
        let (level, ty, size) = (&caches[i].0, &caches[i].1, &caches[i].2);
        let t = chars_of(ty.as_str());
        let data = chars_of("Data");
        let instr = chars_of("Instruction");
        let mut p: Vec<char> = Vec::new();
        push_str(&mut p, "L");
        push_str(&mut p, level.as_str());
        if same_text(t.as_slice(), data.as_slice()) {
            push_str(&mut p, "d");
        } else if same_text(t.as_slice(), instr.as_slice()) {
            push_str(&mut p, "i");
        }
        push_str(&mut p, " ");
        push_str(&mut p, size.as_str());
        assert(p@ =~= cache_part(cs[i as int].0, cs[i as int].1, cs[i as int].2));
        parts.push(p);
        i += 1;
    }
    let sep = chars_of(", ");
    let j = join_range(&parts, 0, parts.len(), sep.as_slice());
    assert(seq_views(parts@).subrange(0, parts.len() as int) =~= Seq::new(
        cs.len(),
        |k: int| cache_part(cs[k].0, cs[k].1, cs[k].2),
    ));
    string_of(j.as_slice())
}

// ---------- battery ----------

/// `battery`: for the first power supply of type `Battery`,
/// `<capacity>% (<status>)`.
pub open spec fn spec_battery(supplies: Seq<(Seq<char>, Seq<char>, Seq<char>)>) -> Option<Seq<char>>
    decreases supplies.len(),
{
    if supplies.len() == 0 {
        None
    } else if supplies[0].0 == "Battery"@ {
        Some(supplies[0].1 + "% ("@ + supplies[0].2 + ")"@)
    } else {
        spec_battery(supplies.drop_first())
    }
}

/// The battery state from the `type`, `capacity` and `status` of each power
/// supply (in directory order).
pub fn battery(supplies: &Vec<(String, String, String)>) -> (r: Option<String>)
    ensures
        match r {
            Some(s) => spec_battery(triple_views(supplies@)) == Some(s@),
            None => spec_battery(triple_views(supplies@)) is None,
        },
{
    let ghost all = triple_views(supplies@);
    let bat = chars_of("Battery");
    let mut i: usize = 0;
    assert(all.skip(0) =~= all);
    while i < supplies.len()
        invariant
            i <= supplies.len(),
            all == triple_views(supplies@),
            bat@ == "Battery"@,
            spec_battery(all.skip(i as int)) == spec_battery(all),
        decreases supplies.len() - i,
    {
        assert(all.skip(i as int)[0] == all[i as int]);
        let t = chars_of(supplies[i].0.as_str());
        if same_text(t.as_slice(), bat.as_slice()) {
            let mut out: Vec<char> = Vec::new();
            push_str(&mut out, supplies[i].1.as_str());
            push_str(&mut out, "% (");
            push_str(&mut out, supplies[i].2.as_str());
            push_str(&mut out, ")");
            return Some(string_of(out.as_slice()));
        }
        assert(all.skip(i as int).drop_first() =~= all.skip(i + 1));
        i += 1;
    }
    assert(all.skip(i as int).len() == 0);
    None
}

} // verus!

verus! {

// ---------- GPUs ----------

/// An `lspci` line describing a display adapter.
pub open spec fn is_gpu_line(l: Seq<char>) -> bool {
    ||| crate::text::spec_find(l, "VGA compatible controller"@) is Some
    ||| crate::text::spec_find(l, "3D controller"@) is Some
    ||| crate::text::spec_find(l, "Display controller"@) is Some
}

/// The model in an `lspci` line: the trimmed text after the first `": "`,
/// cut at the last `" (rev "`; the whole trimmed line if there is no `": "`.
pub open spec fn gpu_model(l: Seq<char>) -> Seq<char> {
    match crate::text::spec_find(l, ": "@) {
        Some(i) => {
            let m = trim_ws(l.skip(i + 2));
            match crate::text::spec_rfind(m, " (rev "@) {
                Some(p) => m.take(p),
                None => m,
            }
        },
        None => trim_ws(l),
    }
}

/// The models of the display adapters among `lspci` lines, in order.
pub open spec fn lspci_gpus(ls: Seq<Seq<char>>) -> Seq<Seq<char>>
    decreases ls.len(),
{
    if ls.len() == 0 {
        Seq::empty()
    } else {
        lspci_gpus(ls.drop_last()) + if is_gpu_line(ls.last()) {
            seq![gpu_model(ls.last())]
        } else {
            Seq::empty()
        }
    }
}

/// `<card> (<driver>)` for each `DRIVER=` line of a card's uevent text.
pub open spec fn card_drivers(name: Seq<char>, ls: Seq<Seq<char>>) -> Seq<Seq<char>>
    decreases ls.len(),
{
    if ls.len() == 0 {
        Seq::empty()
    } else {
        card_drivers(name, ls.drop_last()) + if "DRIVER="@.is_prefix_of(ls.last()) {
            seq![name + " ("@ + ls.last().skip(7) + ")"@]
        } else {
            Seq::empty()
        }
    }
}

/// A DRM device name standing for a whole card: `card<N>`, not a connector.
pub open spec fn is_card_name(name: Seq<char>) -> bool {
    "card"@.is_prefix_of(name) && crate::text::find_char(name, '-') is None
}

/// The DRM fallback: drivers of the cards, from (name, uevent text) pairs
/// in directory order.
pub open spec fn drm_gpus(cards: Seq<(Seq<char>, Option<Seq<char>>)>) -> Seq<Seq<char>>
    decreases cards.len(),
{
    if cards.len() == 0 {
        Seq::empty()
    } else {
        let (name, uevent) = cards.last();
        drm_gpus(cards.drop_last()) + if is_card_name(name) {
            card_drivers(
                name,
                match uevent {
                    Some(u) => spec_lines(u),
                    None => Seq::empty(),
                },
            )
        } else {
            Seq::empty()
        }
    }
}

/// `gpus`: the adapters `lspci` lists, or when it lists none (or did not
/// run) the drivers of the DRM cards.
pub open spec fn spec_gpus(lspci: Option<Seq<char>>, cards: Seq<(Seq<char>, Option<Seq<char>>)>) -> Seq<Seq<char>> {
    let from_lspci = match lspci {
        Some(t) => lspci_gpus(spec_lines(t)),
        None => Seq::empty(),
    };
    if from_lspci.len() > 0 {
        from_lspci
    } else {
        drm_gpus(cards)
    }
}

/// The views of (name, optional text) pairs.
pub open spec fn card_views(v: Seq<(String, Option<String>)>) -> Seq<(Seq<char>, Option<Seq<char>>)> {
    v.map_values(
        |c: (String, Option<String>)|
            (c.0@, match c.1 { Some(u) => Some(u@), None => None }),
    )
}

/// The views of a vector of strings.
pub open spec fn string_views(v: Seq<String>) -> Seq<Seq<char>> {
    v.map_values(|s: String| s@)
}

fn gpu_model_exec(l: &[char]) -> (m: Vec<char>)
    ensures
        m@ == gpu_model(l@),
{
    let sep = chars_of(": ");
    match crate::text::find_from_exec(l, sep.as_slice(), 0) {
        Some(i) => {
            proof {
                reveal_strlit(": ");
                assert(sep@.len() == 2);
                crate::text::lemma_find_from_bounds(l@, sep@, 0);
                assert(i + 2 <= l@.len());
            }
            let n = l.len();
            let rest = slice_vec(l, i + 2, n);
            assert(rest@ =~= l@.skip(i + 2));
            let m = trim(rest.as_slice());
            let rev = chars_of(" (rev ");
            match crate::text::rfind(m.as_slice(), rev.as_slice()) {
                Some(p) => {
                    proof {
                        lemma_rfind_bounds(m@, rev@);
                    }
                    let t = slice_vec(m.as_slice(), 0, p);
                    assert(t@ =~= m@.take(p as int));
                    t
                },
                None => m,
            }
        },
        None => trim(l),
    }
}

/// A position `str::rfind` reports lies within the text.
pub proof fn lemma_rfind_bounds(s: Seq<char>, p: Seq<char>)
    ensures
        crate::text::spec_rfind(s, p) matches Some(j) ==> 0 <= j <= s.len(),
{
    lemma_rfind_from_bounds(s, p, s.len() - p.len());
}

/// An occurrence found searching backwards from `i` fits in the text.
pub proof fn lemma_rfind_from_bounds(s: Seq<char>, p: Seq<char>, i: int)
    ensures
        crate::text::rfind_from(s, p, i) matches Some(j) ==> 0 <= j && j + p.len() <= s.len(),
    decreases i + 1,
{
    if i >= 0 && !crate::text::occurs_at(s, p, i) {
        lemma_rfind_from_bounds(s, p, i - 1);
    }
}

fn contains_text(l: &[char], p: &str) -> (r: bool)
    ensures
        r == (crate::text::spec_find(l@, p@) is Some),
{
    let pv = chars_of(p);
    crate::text::contains(l, pv.as_slice())
}

/// Display adapters from the output of `lspci` (`None`: it did not run or
/// failed) or else from the DRM devices: (name, uevent text) per entry of
/// /sys/class/drm, in directory order.
pub fn gpus(lspci: Option<&str>, cards: &Vec<(String, Option<String>)>) -> (r: Vec<String>)
    ensures
        string_views(r@) == spec_gpus(opt_view(lspci), card_views(cards@)),
{
    let mut out: Vec<String> = Vec::new();
    let ghost from_lspci = match opt_view(lspci) {
        Some(t) => lspci_gpus(spec_lines(t)),
        None => Seq::<Seq<char>>::empty(),
    };
    if let Some(t) = lspci {
        let v = chars_of(t);
        let ls = lines(v.as_slice());
        let ghost all = seq_views(ls@);
        let mut i: usize = 0;
        while i < ls.len()
            invariant
                i <= ls.len(),
                all == seq_views(ls@),
                all == spec_lines(t@),
                string_views(out@) == lspci_gpus(all.take(i as int)),
            decreases ls.len() - i,
        {
            let l = ls[i].as_slice();
            assert(all.take(i + 1).drop_last() =~= all.take(i as int));
            assert(all.take(i + 1).last() == l@);
            let ghost before = string_views(out@);
            if contains_text(l, "VGA compatible controller") || contains_text(l, "3D controller")
                || contains_text(l, "Display controller") {
                let m = gpu_model_exec(l);
                out.push(string_of(m.as_slice()));
                assert(string_views(out@) =~= before + seq![gpu_model(l@)]);
            } else {
                assert(string_views(out@) =~= before + Seq::<Seq<char>>::empty());
            }
            i += 1;
        }
        assert(all.take(i as int) =~= all);
    } else {
        assert(string_views(out@) =~= Seq::<Seq<char>>::empty());
    }
    if out.len() > 0 {
        return out;
    }
    let ghost cv = card_views(cards@);
    let mut k: usize = 0;
    assert(string_views(out@) =~= drm_gpus(cv.take(0)));
    while k < cards.len()
        invariant
            k <= cards.len(),
            cv == card_views(cards@),
            string_views(out@) == drm_gpus(cv.take(k as int)),
        decreases cards.len() - k,
    {
        let name = chars_of(cards[k].0.as_str());
        assert(cv.take(k + 1).drop_last() =~= cv.take(k as int));
        assert(cv.take(k + 1).last() == cv[k as int]);
        let ghost before = string_views(out@);
        let card = chars_of("card");
        let mut dash = false;
        let mut j: usize = 0;
        while j < name.len()
            invariant
                j <= name.len(),
                dash == exists|q: int| 0 <= q < j && name@[q] == '-',
            decreases name.len() - j,
        {
            if name[j] == '-' {
                dash = true;
            }
            j += 1;
        }
        proof {
            if !dash {
                crate::text::lemma_find_char(name@, '-', name@.len() as int);
            } else {
                let q = choose|q: int| 0 <= q < name@.len() && name@[q] == '-';
                lemma_find_char_some(name@, '-', q);
            }
        }
        if crate::text::starts_with(name.as_slice(), card.as_slice()) && !dash {
            let ut: Vec<char> = match &cards[k].1 {
                Some(u) => chars_of(u.as_str()),
                None => Vec::new(),
            };
            let uls = lines(ut.as_slice());
            let ghost ul = seq_views(uls@);
            proof {
                if cards@[k as int].1 is None {
                    assert(ut@.len() == 0);
                    assert(ul =~= Seq::<Seq<char>>::empty());
                }
            }
            let drv = chars_of("DRIVER=");
            proof {
                reveal_strlit("DRIVER=");
                assert(drv@.len() == 7);
            }
            let mut m: usize = 0;
            assert(string_views(out@) =~= before + card_drivers(name@, ul.take(0)));
            while m < uls.len()
                invariant
                    m <= uls.len(),
                    ul == seq_views(uls@),
                    drv@ == "DRIVER="@,
                    drv@.len() == 7,
                    string_views(out@) == before + card_drivers(name@, ul.take(m as int)),
                decreases uls.len() - m,
            {
                let l = uls[m].as_slice();
                assert(ul.take(m + 1).drop_last() =~= ul.take(m as int));
                assert(ul.take(m + 1).last() == l@);
                let ghost b2 = string_views(out@);
                if crate::text::starts_with(l, drv.as_slice()) {
                    let mut e: Vec<char> = Vec::new();
                    push_all(&mut e, name.as_slice());
                    push_str(&mut e, " (");
                    let d = slice_vec(l, 7, l.len());
                    push_all(&mut e, d.as_slice());
                    push_str(&mut e, ")");
                    assert(d@ =~= l@.skip(7));
                    out.push(string_of(e.as_slice()));
                    assert(string_views(out@) =~= b2 + seq![name@ + " ("@ + l@.skip(7) + ")"@]);
                } else {
                    assert(string_views(out@) =~= b2 + Seq::<Seq<char>>::empty());
                }
                m += 1;
            }
            assert(ul.take(m as int) =~= ul);
            assert(string_views(out@) =~= before + card_drivers(
                name@,
                match cv[k as int].1 {
                    Some(u) => spec_lines(u),
                    None => Seq::empty(),
                },
            ));
        } else {
            assert(string_views(out@) =~= before + Seq::<Seq<char>>::empty());
        }
        k += 1;
    }
    assert(cv.take(k as int) =~= cv);
    out
}

/// A character present in `s` is found.
pub proof fn lemma_find_char_some(s: Seq<char>, c: char, q: int)
    requires
        0 <= q < s.len(),
        s[q] == c,
    ensures
        crate::text::find_char(s, c) is Some,
    decreases q,
{
    if q > 0 && s[0] != c {
        lemma_find_char_some(s.drop_first(), c, q - 1);
    }
}

} // verus!

verus! {

// ---------- network interfaces ----------

/// One address entry of an interface, as the system lists it
/// (`getifaddrs`), reduced to plain values.
pub enum IfAddr {
    /// The entry carries no address.
    Absent,
    /// An IPv4 address, octets in network order.
    V4([u8; 4]),
    /// An IPv6 address, bytes in network order.
    V6([u8; 16]),
    /// A link-layer address: its length in bytes and up to eight bytes.
    Packet { halen: u8, addr: [u8; 8] },
    /// An address of another family.
    Other,
}

/// Dotted-quad text of an IPv4 address.
pub open spec fn ipv4_text(b: Seq<u8>) -> Seq<char> {
    spec_dec(b[0] as nat) + "."@ + spec_dec(b[1] as nat) + "."@ + spec_dec(b[2] as nat) + "."@
        + spec_dec(b[3] as nat)
}

/// Two lower-case hex digits of a byte (`{:02x}`).
pub open spec fn hex2(b: u8) -> Seq<char> {
    crate::text::zero_pad(crate::text::spec_hex(b as nat), 2)
}

/// `aa:bb:cc:dd:ee:ff` text of a six-byte hardware address.
pub open spec fn mac_text(a: Seq<u8>) -> Seq<char> {
    hex2(a[0]) + ":"@ + hex2(a[1]) + ":"@ + hex2(a[2]) + ":"@ + hex2(a[3]) + ":"@ + hex2(a[4])
        + ":"@ + hex2(a[5])
}

/// The IP address text an entry contributes, if any.
pub open spec fn addr_ip(a: IfAddr) -> Option<Seq<char>> {
    match a {
        IfAddr::V4(b) => Some(ipv4_text(b@)),
        IfAddr::V6(b) => Some(crate::report::format::spec_format_ipv6(b@)),
        _ => None,
    }
}

/// The MAC text an entry contributes: a link-layer address of six bytes.
pub open spec fn addr_mac(a: IfAddr) -> Option<Seq<char>> {
    match a {
        IfAddr::Packet { halen, addr } => if halen == 6 {
            Some(mac_text(addr@))
        } else {
            None
        },
        _ => None,
    }
}

/// The views of (interface name, address) entries.
pub open spec fn entry_views(v: Seq<(String, IfAddr)>) -> Seq<(Seq<char>, IfAddr)> {
    v.map_values(|e: (String, IfAddr)| (e.0@, e.1))
}

/// The addresses of interface `name`, in the order the entries list them.
pub open spec fn iface_ips(es: Seq<(Seq<char>, IfAddr)>, name: Seq<char>) -> Seq<Seq<char>>
    decreases es.len(),
{
    if es.len() == 0 {
        Seq::empty()
    } else {
        iface_ips(es.drop_last(), name) + if es.last().0 == name && addr_ip(es.last().1) is Some {
            seq![addr_ip(es.last().1)->0]
        } else {
            Seq::empty()
        }
    }
}

/// The MAC of interface `name`: that of its last six-byte link-layer entry.
pub open spec fn iface_mac(es: Seq<(Seq<char>, IfAddr)>, name: Seq<char>) -> Option<Seq<char>>
    decreases es.len(),
{
    if es.len() == 0 {
        None
    } else if es.last().0 == name && addr_mac(es.last().1) is Some {
        addr_mac(es.last().1)
    } else {
        iface_mac(es.drop_last(), name)
    }
}

/// `name` is listed by some entry and is not the loopback interface.
pub open spec fn is_iface(es: Seq<(Seq<char>, IfAddr)>, name: Seq<char>) -> bool {
    name != "lo"@ && exists|i: int| 0 <= i < es.len() && #[trigger] es[i].0 == name
}

/// The views of the report's interface rows.
pub open spec fn iface_row_views(v: Seq<(String, Vec<String>, Option<String>)>) -> Seq<
    (Seq<char>, Seq<Seq<char>>, Option<Seq<char>>),
> {
    v.map_values(
        |r: (String, Vec<String>, Option<String>)|
            (r.0@, string_views(r.1@), opt_view_string(r.2)),
    )
}

/// What `network` returns for the entries `es`: one row per interface other
/// than `lo`, ordered by name, each with its addresses and MAC.
pub open spec fn network_rows(
    es: Seq<(Seq<char>, IfAddr)>,
    rows: Seq<(Seq<char>, Seq<Seq<char>>, Option<Seq<char>>)>,
) -> bool {
    &&& forall|i: int, j: int|
        0 <= i < j < rows.len() ==> crate::text::lex_lt(#[trigger] rows[i].0, #[trigger] rows[j].0)
    &&& forall|i: int|
        0 <= i < rows.len() ==> {
            &&& is_iface(es, #[trigger] rows[i].0)
            &&& rows[i].1 == iface_ips(es, rows[i].0)
            &&& rows[i].2 == iface_mac(es, rows[i].0)
        }
    &&& forall|n: Seq<char>|
        is_iface(es, n) ==> exists|i: int| 0 <= i < rows.len() && #[trigger] rows[i].0 == n
}

fn ipv4_exec(b: &[u8; 4]) -> (r: Vec<char>)
    ensures
        r@ == ipv4_text(b@),
{
    let mut out: Vec<char> = Vec::new();
    push_digits(&mut out, b[0] as u64, 10);
    push_str(&mut out, ".");
    push_digits(&mut out, b[1] as u64, 10);
    push_str(&mut out, ".");
    push_digits(&mut out, b[2] as u64, 10);
    push_str(&mut out, ".");
    push_digits(&mut out, b[3] as u64, 10);
    assert(out@ =~= ipv4_text(b@));
    out
}

fn mac_exec(a: &[u8; 8]) -> (r: Vec<char>)
    ensures
        r@ == mac_text(a@),
{
    let mut out: Vec<char> = Vec::new();
    let mut k: usize = 0;
    while k < 6
        invariant
            k <= 6,
            k == 0 ==> out@ == Seq::<char>::empty(),
            k > 0 ==> out@ == mac_prefix(a@, k as int),
        decreases 6 - k,
    {
        if k > 0 {
            push_str(&mut out, ":");
        }
        let h = crate::text::hex(a[k] as u64);
        crate::text::push_zero_padded(&mut out, h.as_slice(), 2);
        k += 1;
    }
    assert(mac_prefix(a@, 6) =~= mac_text(a@)) by {
        reveal_with_fuel(mac_prefix, 6);
    }
    out
}

/// The first `k` groups of a MAC text, `:`-separated.
pub open spec fn mac_prefix(a: Seq<u8>, k: int) -> Seq<char>
    decreases k,
{
    if k <= 1 {
        hex2(a[0])
    } else {
        mac_prefix(a, k - 1) + ":"@ + hex2(a[k - 1])
    }
}

/// Position in the name-sorted `rows` where `name` is, or where it belongs.
fn name_slot(rows: &Vec<(String, Vec<String>, Option<String>)>, name: &[char]) -> (k: usize)
    ensures
        k <= rows.len(),
        forall|j: int| 0 <= j < k ==> crate::text::lex_lt(#[trigger] rows@[j].0@, name@),
        k < rows.len() ==> !crate::text::lex_lt(rows@[k as int].0@, name@),
{
    let mut k: usize = 0;
    while k < rows.len()
        invariant
            k <= rows.len(),
            forall|j: int| 0 <= j < k ==> crate::text::lex_lt(#[trigger] rows@[j].0@, name@),
        decreases rows.len() - k,
    {
        let rk = chars_of(rows[k].0.as_str());
        if !crate::text::lex_less(rk.as_slice(), name) {
            return k;
        }
        k += 1;
    }
    k
}

/// The interfaces, from the address entries in the order the system lists
/// them: one row per interface name other than `lo`, sorted by name, with
/// its IPv4/IPv6 addresses in listing order and the MAC of its last six-byte
/// link-layer address.
#[verifier::spinoff_prover]
#[verifier::rlimit(60)]
pub fn network(entries: &Vec<(String, IfAddr)>) -> (r: Vec<(String, Vec<String>, Option<String>)>)
    ensures
        network_rows(entry_views(entries@), iface_row_views(r@)),
{
    let ghost es = entry_views(entries@);
    let mut rows: Vec<(String, Vec<String>, Option<String>)> = Vec::new();
    let mut i: usize = 0;
    assert(es.take(0) =~= Seq::<(Seq<char>, IfAddr)>::empty());
    while i < entries.len()
        invariant
            i <= entries.len(),
            es == entry_views(entries@),
            network_rows(es.take(i as int), iface_row_views(rows@)),
        decreases entries.len() - i,
    {
        let ghost pre = es.take(i as int);
        let ghost post = es.take(i + 1);
        let ghost rv = iface_row_views(rows@);
        assert(post.drop_last() =~= pre);
        assert(post.last() == es[i as int]);
        let name = chars_of(entries[i].0.as_str());
        let ghost nm = name@;
        assert(nm == post.last().0);
        let lo = chars_of("lo");
        proof {
            assert forall|n: Seq<char>| n != nm implies iface_ips(post, n) == iface_ips(pre, n)
                && iface_mac(post, n) == iface_mac(pre, n) by {}
            assert forall|n: Seq<char>| #[trigger] is_iface(post, n) implies is_iface(pre, n) || n
                == nm by {
                let w = choose|w: int| 0 <= w < post.len() && #[trigger] post[w].0 == n;
                if w < i {
                    assert(pre[w].0 == n);
                }
            }
            assert forall|n: Seq<char>| #[trigger] is_iface(pre, n) implies is_iface(post, n) by {
                let w = choose|w: int| 0 <= w < pre.len() && #[trigger] pre[w].0 == n;
                assert(post[w].0 == n);
            }
        }
        if !same_text(name.as_slice(), lo.as_slice()) {
            let k = name_slot(&rows, name.as_slice());
            let found = k < rows.len() && {
                let rk = chars_of(rows[k].0.as_str());
                same_text(rk.as_slice(), name.as_slice())
            };
            proof {
                assert(is_iface(post, nm)) by {
                    assert(post[i as int].0 == nm);
                }
                if k < rows.len() && !found {
                    crate::text::lemma_lex_total(rv[k as int].0, nm);
                }
                if !found {
                    assert(!is_iface(pre, nm)) by {
                        if is_iface(pre, nm) {
                            let a = choose|a: int| 0 <= a < rv.len() && #[trigger] rv[a].0 == nm;
                            crate::text::lemma_lex_asym(nm, nm);
                            if a > k {
                                crate::text::lemma_lex_trans(nm, rv[k as int].0, rv[a].0);
                            }
                        }
                    }
                    lemma_no_iface_no_ips(pre, nm);
                }
            }
            let mut row = if found {
                rows.remove(k)
            } else {
                (string_of(name.as_slice()), Vec::new(), None)
            };
            assert(string_views(row.1@) == iface_ips(pre, nm));
            assert(opt_view_string(row.2) == iface_mac(pre, nm));
            let ghost ips0 = row.1@;
            match &entries[i].1 {
                IfAddr::V4(b) => {
                    let t = ipv4_exec(b);
                    row.1.push(string_of(t.as_slice()));
                    assert(string_views(row.1@) =~= string_views(ips0) + seq![ipv4_text(b@)]);
                },
                IfAddr::V6(b) => {
                    let t = crate::report::format::format_ipv6(b);
                    row.1.push(t);
                    assert(string_views(row.1@) =~= string_views(ips0) + seq![
                        crate::report::format::spec_format_ipv6(b@),
                    ]);
                },
                IfAddr::Packet { halen, addr } => {
                    if *halen == 6 {
                        let m = mac_exec(addr);
                        row.2 = Some(string_of(m.as_slice()));
                    }
                    assert(string_views(row.1@) =~= string_views(ips0) + Seq::<Seq<char>>::empty());
                },
                _ => {
                    assert(string_views(row.1@) =~= string_views(ips0) + Seq::<Seq<char>>::empty());
                },
            }
            assert(row.0@ == nm);
            assert(string_views(row.1@) == iface_ips(post, nm));
            assert(opt_view_string(row.2) == iface_mac(post, nm));
            rows.insert(k, row);
            proof {
                let nv = iface_row_views(rows@);
                crate::text::lemma_lex_asym(nm, nm);
                assert(nv[k as int] == (nm, iface_ips(post, nm), iface_mac(post, nm)));
                assert(nv.len() == if found { rv.len() } else { rv.len() + 1 });
                assert forall|a: int| 0 <= a < nv.len() && a != k implies #[trigger] nv[a] == rv[
                    old_index(a, k as int, found)] by {}
                // the rows kept from before name other interfaces
                assert forall|a: int| 0 <= a < rv.len() && (!found || a != k) implies #[trigger] rv[a].0
                    != nm by {
                    if found {
                        if a < k {
                            assert(crate::text::lex_lt(rv[a].0, rv[k as int].0));
                        } else {
                            assert(crate::text::lex_lt(rv[k as int].0, rv[a].0));
                        }
                    } else {
                        assert(is_iface(pre, rv[a].0));
                    }
                }
                if !found && k < rv.len() {
                    assert(crate::text::lex_lt(nm, rv[k as int].0));
                }
                assert forall|a: int, b: int|
                    0 <= a < b < nv.len() implies crate::text::lex_lt(
                    #[trigger] nv[a].0,
                    #[trigger] nv[b].0,
                ) by {
                    if a == k {
                        let bb = old_index(b, k as int, found);
                        if !found && bb > k {
                            crate::text::lemma_lex_trans(nm, rv[k as int].0, rv[bb].0);
                        }
                    } else if b == k {
                        assert(crate::text::lex_lt(rv[a].0, nm));
                    } else {
                        assert(old_index(a, k as int, found) < old_index(b, k as int, found));
                    }
                }
                assert forall|a: int| 0 <= a < nv.len() implies {
                    &&& is_iface(post, #[trigger] nv[a].0)
                    &&& nv[a].1 == iface_ips(post, nv[a].0)
                    &&& nv[a].2 == iface_mac(post, nv[a].0)
                } by {
                    if a != k {
                        let aa = old_index(a, k as int, found);
                        assert(rv[aa].0 != nm);
                        assert(is_iface(pre, rv[aa].0));
                    }
                }
                assert forall|n: Seq<char>| is_iface(post, n) implies exists|a: int|
                    0 <= a < nv.len() && #[trigger] nv[a].0 == n by {
                    if n == nm {
                        assert(nv[k as int].0 == n);
                    } else {
                        assert(is_iface(pre, n));
                        let a = choose|a: int| 0 <= a < rv.len() && #[trigger] rv[a].0 == n;
                        let na = if found || a < k { a } else { a + 1 };
                        assert(old_index(na, k as int, found) == a);
                        assert(nv[na].0 == n);
                    }
                }
            }
        } else {
            proof {
                reveal_strlit("lo");
                assert forall|a: int| 0 <= a < rv.len() implies {
                    &&& is_iface(post, #[trigger] rv[a].0)
                    &&& rv[a].1 == iface_ips(post, rv[a].0)
                    &&& rv[a].2 == iface_mac(post, rv[a].0)
                } by {
                    assert(is_iface(pre, rv[a].0));
                }
                assert forall|n: Seq<char>| is_iface(post, n) implies exists|a: int|
                    0 <= a < rv.len() && #[trigger] rv[a].0 == n by {
                    assert(is_iface(pre, n));
                }
            }
        }
        i += 1;
    }
    assert(es.take(entries.len() as int) =~= es);
    rows
}

/// Where row `a` of the updated rows was before slot `k` was filled
/// (`found`: the row at `k` was replaced; otherwise one was inserted).
pub open spec fn old_index(a: int, k: int, found: bool) -> int {
    if found || a < k {
        a
    } else {
        a - 1
    }
}

/// The view of an optional `String`.
pub open spec fn opt_view_string(o: Option<String>) -> Option<Seq<char>> {
    match o {
        Some(v) => Some(v@),
        None => None,
    }
}

/// An interface no entry names has no addresses and no MAC.
pub proof fn lemma_no_iface_no_ips(es: Seq<(Seq<char>, IfAddr)>, name: Seq<char>)
    requires
        forall|i: int| 0 <= i < es.len() ==> #[trigger] es[i].0 != name,
    ensures
        iface_ips(es, name) == Seq::<Seq<char>>::empty(),
        iface_mac(es, name) is None,
    decreases es.len(),
{
    if es.len() > 0 {
        assert(es.last() == es[es.len() - 1]);
        lemma_no_iface_no_ips(es.drop_last(), name);
    }
}

} // verus!

verus! {

// ---------- /proc/cpuinfo ----------

/// What a scan of /proc/cpuinfo has gathered: the model, the number of
/// `model name` lines, the current `physical id`, the (physical id,
/// core id) pairs seen, and the `cpu MHz` values.
pub type CpuScan = (Seq<char>, nat, Seq<char>, Seq<(Seq<char>, Seq<char>)>, Seq<Seq<char>>);

/// One line of /proc/cpuinfo folded into the scan: `key : value`, split at
/// the first `:`, both sides trimmed; lines without `:` are skipped.
pub open spec fn cpu_step(st: CpuScan, l: Seq<char>) -> CpuScan {
    match crate::text::find_char(l, ':') {
        None => st,
        Some(p) => {
            let k = trim_ws(l.take(p));
            let v = trim_ws(l.skip(p + 1));
            if k == "model name"@ {
                (if st.0 == "unknown"@ { v } else { st.0 }, st.1 + 1, st.2, st.3, st.4)
            } else if (k == "Hardware"@ || k == "Model"@) && st.0 == "unknown"@ {
                (v, st.1, st.2, st.3, st.4)
            } else if k == "cpu MHz"@ {
                (st.0, st.1, st.2, st.3, st.4.push(v))
            } else if k == "physical id"@ {
                (st.0, st.1, v, st.3, st.4)
            } else if k == "core id"@ {
                (st.0, st.1, st.2, st.3.push((st.2, v)), st.4)
            } else {
                st
            }
        },
    }
}

/// The scan of the lines `ls`, from the model `unknown` and nothing seen.
pub open spec fn cpu_scan(ls: Seq<Seq<char>>) -> CpuScan
    decreases ls.len(),
{
    if ls.len() == 0 {
        ("unknown"@, 0, Seq::empty(), Seq::empty(), Seq::empty())
    } else {
        cpu_step(cpu_scan(ls.drop_last()), ls.last())
    }
}

/// The text of an optional file, empty when it could not be read.
pub open spec fn text_or_empty(o: Option<Seq<char>>) -> Seq<char> {
    match o {
        Some(t) => t,
        None => Seq::empty(),
    }
}

/// The number of distinct values in `s`.
pub open spec fn distinct_count<A>(s: Seq<A>) -> nat
    decreases s.len(),
{
    if s.len() == 0 {
        0
    } else {
        distinct_count(s.drop_last()) + if s.drop_last().contains(s.last()) {
            0nat
        } else {
            1nat
        }
    }
}

/// `distinct_count` is the size of the set of values.
pub proof fn lemma_distinct_count<A>(s: Seq<A>)
    ensures
        distinct_count(s) == s.to_set().len(),
    decreases s.len(),
{
    if s.len() == 0 {
        assert(s.to_set() =~= Set::<A>::empty());
    } else {
        let d = s.drop_last();
        lemma_distinct_count(d);
        assert(s.to_set() =~= d.to_set().insert(s.last())) by {
            assert forall|x: A| s.to_set().contains(x) <==> d.to_set().insert(s.last()).contains(x) by {
                if s.contains(x) {
                    let j = choose|j: int| 0 <= j < s.len() && s[j] == x;
                    if j < s.len() - 1 {
                        assert(d[j] == x);
                    }
                }
                if d.contains(x) {
                    let j = choose|j: int| 0 <= j < d.len() && d[j] == x;
                    assert(s[j] == x);
                }
                assert(s[s.len() - 1] == s.last());
            }
        }
        vstd::seq_lib::seq_to_set_is_finite(d);
        if d.contains(s.last()) {
            assert(d.to_set().contains(s.last()));
        } else {
            assert(!d.to_set().contains(s.last()));
        }
    }
}

/// The CPU facts of the report that /proc/cpuinfo gives.
pub struct CpuFacts {
    /// The first `model name`, else a `Hardware`/`Model` value, else `unknown`.
    pub model: String,
    /// Logical CPUs: the `model name` lines, else the scheduler's count.
    pub logical: usize,
    /// Physical cores: distinct (physical id, core id) pairs, else `logical`.
    pub physical: usize,
    /// The `cpu MHz` values, to be read as numbers.
    pub mhz: Vec<String>,
}

/// The views of a vector of character pairs.
pub open spec fn pair_views(v: Seq<(Vec<char>, Vec<char>)>) -> Seq<(Seq<char>, Seq<char>)> {
    v.map_values(|p: (Vec<char>, Vec<char>)| (p.0@, p.1@))
}

/// The integer facts of `cpu_info` from the text of /proc/cpuinfo (`None`:
/// unreadable) and the scheduler's count of logical CPUs.
pub fn cpu_facts(cpuinfo: Option<&str>, parallelism: usize) -> (r: CpuFacts)
    ensures
        ({
            let sc = cpu_scan(spec_lines(text_or_empty(opt_view(cpuinfo))));
            &&& r.model@ == sc.0
            &&& r.logical == if sc.1 == 0 { parallelism as nat } else { sc.1 }
            &&& r.physical == if sc.3.len() == 0 { r.logical as nat } else { sc.3.to_set().len() }
            &&& string_views(r.mhz@) == sc.4
        }),
{
    let text: Vec<char> = match cpuinfo {
        Some(t) => chars_of(t),
        None => Vec::new(),
    };
    assert(text@ == text_or_empty(opt_view(cpuinfo)));
    let ls = lines(text.as_slice());
    let ghost all = seq_views(ls@);
    let mut model = chars_of("unknown");
    let mut logical: usize = 0;
    let mut cur: Vec<char> = Vec::new();
    let mut pairs: Vec<(Vec<char>, Vec<char>)> = Vec::new();
    let mut mhz: Vec<String> = Vec::new();
    let unknown = chars_of("unknown");
    let model_name = chars_of("model name");
    let hardware = chars_of("Hardware");
    let model_key = chars_of("Model");
    let cpu_mhz = chars_of("cpu MHz");
    let physical_id = chars_of("physical id");
    let core_id = chars_of("core id");
    let mut i: usize = 0;
    assert(all.take(0) =~= Seq::<Seq<char>>::empty());
    assert(pair_views(pairs@) =~= Seq::<(Seq<char>, Seq<char>)>::empty());
    assert(string_views(mhz@) =~= Seq::<Seq<char>>::empty());
    while i < ls.len()
        invariant
            i <= ls.len(),
            all == seq_views(ls@),
            logical <= i,
            unknown@ == "unknown"@,
            model_name@ == "model name"@,
            hardware@ == "Hardware"@,
            model_key@ == "Model"@,
            cpu_mhz@ == "cpu MHz"@,
            physical_id@ == "physical id"@,
            core_id@ == "core id"@,
            (model@, logical as nat, cur@, pair_views(pairs@), string_views(mhz@)) == cpu_scan(
                all.take(i as int),
            ),
        decreases ls.len() - i,
    {
        let l = ls[i].as_slice();
        assert(all.take(i + 1).drop_last() =~= all.take(i as int));
        assert(all.take(i + 1).last() == l@);
        match crate::sysinfo::find_char_exec(l, ':') {
            None => {},
            Some(p) => {
                proof {
                    crate::sysinfo::lemma_find_char_in_bounds(l@, ':');
                }
                let before = slice_vec(l, 0, p);
                let n = l.len();
                let after = slice_vec(l, p + 1, n);
                assert(before@ =~= l@.take(p as int));
                assert(after@ =~= l@.skip(p + 1));
                let k = trim(before.as_slice());
                let v = trim(after.as_slice());
                if same_text(k.as_slice(), model_name.as_slice()) {
                    if same_text(model.as_slice(), unknown.as_slice()) {
                        model = v;
                    }
                    logical = logical + 1;
                } else if (same_text(k.as_slice(), hardware.as_slice()) || same_text(
                    k.as_slice(),
                    model_key.as_slice(),
                )) && same_text(model.as_slice(), unknown.as_slice()) {
                    model = v;
                } else if same_text(k.as_slice(), cpu_mhz.as_slice()) {
                    let ghost m0 = mhz@;
                    mhz.push(string_of(v.as_slice()));
                    assert(string_views(mhz@) =~= string_views(m0).push(v@));
                } else if same_text(k.as_slice(), physical_id.as_slice()) {
                    cur = v;
                } else if same_text(k.as_slice(), core_id.as_slice()) {
                    let n2 = cur.len();
                    let c2 = slice_vec(cur.as_slice(), 0, n2);
                    assert(c2@ =~= cur@);
                    let ghost p0 = pairs@;
                    pairs.push((c2, v));
                    assert(pair_views(pairs@) =~= pair_views(p0).push((cur@, v@)));
                }
            },
        }
        i += 1;
    }
    assert(all.take(ls.len() as int) =~= all);
    let ghost pv = pair_views(pairs@);
    let mut distinct: usize = 0;
    let mut j: usize = 0;
    assert(pv.take(0) =~= Seq::<(Seq<char>, Seq<char>)>::empty());
    while j < pairs.len()
        invariant
            j <= pairs.len(),
            pv == pair_views(pairs@),
            distinct <= j,
            distinct == distinct_count(pv.take(j as int)),
        decreases pairs.len() - j,
    {
        let mut seen = false;
        let mut m: usize = 0;
        while m < j
            invariant
                m <= j < pairs.len(),
                pv == pair_views(pairs@),
                seen == exists|q: int| 0 <= q < m && pv[q] == pv[j as int],
            decreases j - m,
        {
            assert(pv[m as int] == (pairs@[m as int].0@, pairs@[m as int].1@));
            assert(pv[j as int] == (pairs@[j as int].0@, pairs@[j as int].1@));
            if same_text(pairs[m].0.as_slice(), pairs[j].0.as_slice()) && same_text(
                pairs[m].1.as_slice(),
                pairs[j].1.as_slice(),
            ) {
                seen = true;
            }
            m += 1;
        }
        let ghost t = pv.take(j + 1);
        assert(t.drop_last() =~= pv.take(j as int));
        assert(t.last() == pv[j as int]);
        proof {
            if seen {
                let q = choose|q: int| 0 <= q < j && pv[q] == pv[j as int];
                assert(pv.take(j as int)[q] == pv[j as int]);
            }
            if pv.take(j as int).contains(pv[j as int]) {
                let q = choose|q: int| 0 <= q < j && pv.take(j as int)[q] == pv[j as int];
                assert(pv[q] == pv[j as int]);
            }
        }
        if !seen {
            distinct = distinct + 1;
        }
        j += 1;
    }
    assert(pv.take(pairs.len() as int) =~= pv);
    proof {
        lemma_distinct_count(pv);
    }
    let logical = if logical == 0 {
        parallelism
    } else {
        logical
    };
    let physical = if pairs.len() == 0 {
        logical
    } else {
        distinct
    };
    CpuFacts { model: string_of(model.as_slice()), logical, physical, mhz }
}

} // verus!

verus! {

// ---------- disks ----------

/// The filesystem types the report treats as real storage.
pub open spec fn is_real_fs(t: Seq<char>) -> bool {
    ||| t == "ext4"@
    ||| t == "ext3"@
    ||| t == "ext2"@
    ||| t == "xfs"@
    ||| t == "btrfs"@
    ||| t == "zfs"@
    ||| t == "f2fs"@
    ||| t == "vfat"@
    ||| t == "exfat"@
    ||| t == "ntfs"@
    ||| t == "ntfs3"@
    ||| t == "overlay"@
    ||| t == "fuseblk"@
}

/// A /proc/mounts line, split at whitespace, names a real filesystem on a
/// device path: at least three fields, a real type, a device starting `/`.
pub open spec fn is_real_mount(ws: Seq<Seq<char>>) -> bool {
    ws.len() >= 3 && is_real_fs(ws[2]) && ws[0].len() > 0 && ws[0][0] == '/'
}

/// The mount points of the candidates.
pub open spec fn cand_mounts(c: Seq<(Seq<char>, Seq<char>)>) -> Seq<Seq<char>> {
    c.map_values(|p: (Seq<char>, Seq<char>)| p.0)
}

/// (mount point, type) of each real filesystem of /proc/mounts, in order,
/// a mount point listed again (a bind duplicate) skipped.
pub open spec fn mount_cands(ls: Seq<Seq<char>>) -> Seq<(Seq<char>, Seq<char>)>
    decreases ls.len(),
{
    if ls.len() == 0 {
        Seq::empty()
    } else {
        let prev = mount_cands(ls.drop_last());
        let ws = spec_words(ls.last());
        if is_real_mount(ws) && !cand_mounts(prev).contains(ws[1]) {
            prev.push((ws[1], ws[2]))
        } else {
            prev
        }
    }
}

fn real_fs_exec(t: &[char]) -> (r: bool)
    ensures
        r == is_real_fs(t@),
{
    same_text(t, chars_of("ext4").as_slice()) || same_text(t, chars_of("ext3").as_slice())
        || same_text(t, chars_of("ext2").as_slice()) || same_text(t, chars_of("xfs").as_slice())
        || same_text(t, chars_of("btrfs").as_slice()) || same_text(t, chars_of("zfs").as_slice())
        || same_text(t, chars_of("f2fs").as_slice()) || same_text(t, chars_of("vfat").as_slice())
        || same_text(t, chars_of("exfat").as_slice()) || same_text(t, chars_of("ntfs").as_slice())
        || same_text(t, chars_of("ntfs3").as_slice()) || same_text(
        t,
        chars_of("overlay").as_slice(),
    ) || same_text(t, chars_of("fuseblk").as_slice())
}

/// The views of (text, text) pairs.
pub open spec fn string_pair_views(v: Seq<(String, String)>) -> Seq<(Seq<char>, Seq<char>)> {
    v.map_values(|p: (String, String)| (p.0@, p.1@))
}

/// The real filesystems of /proc/mounts (`None`: unreadable) as (mount
/// point, type), in order and without repeated mount points: the mounts
/// `disks` then sizes.
pub fn mount_candidates(mounts: Option<&str>) -> (r: Vec<(String, String)>)
    ensures
        string_pair_views(r@) == mount_cands(spec_lines(text_or_empty(opt_view(mounts)))),
{
    let text: Vec<char> = match mounts {
        Some(t) => chars_of(t),
        None => Vec::new(),
    };
    let ls = lines(text.as_slice());
    let ghost all = seq_views(ls@);
    let mut out: Vec<(String, String)> = Vec::new();
    let mut i: usize = 0;
    assert(all.take(0) =~= Seq::<Seq<char>>::empty());
    assert(string_pair_views(out@) =~= Seq::<(Seq<char>, Seq<char>)>::empty());
    while i < ls.len()
        invariant
            i <= ls.len(),
            all == seq_views(ls@),
            string_pair_views(out@) == mount_cands(all.take(i as int)),
        decreases ls.len() - i,
    {
        let l = ls[i].as_slice();
        assert(all.take(i + 1).drop_last() =~= all.take(i as int));
        assert(all.take(i + 1).last() == l@);
        let f = words(l);
        let ghost ws = seq_views(f@);
        let ghost prev = string_pair_views(out@);
        if f.len() >= 3 && real_fs_exec(f[2].as_slice()) && f[0].len() > 0 && f[0][0] == '/' {
            assert(ws[0] == f@[0]@ && ws[1] == f@[1]@ && ws[2] == f@[2]@);
            let mut seen = false;
            let mut j: usize = 0;
            while j < out.len()
                invariant
                    j <= out.len(),
                    f.len() >= 3,
                    prev == string_pair_views(out@),
                    seen == exists|q: int| 0 <= q < j && prev[q].0 == f@[1]@,
                decreases out.len() - j,
            {
                let m = chars_of(out[j].0.as_str());
                assert(prev[j as int].0 == m@);
                if same_text(m.as_slice(), f[1].as_slice()) {
                    seen = true;
                }
                j += 1;
            }
            proof {
                if seen {
                    let q = choose|q: int| 0 <= q < out.len() && prev[q].0 == f@[1]@;
                    assert(cand_mounts(prev)[q] == ws[1]);
                }
                if cand_mounts(prev).contains(ws[1]) {
                    let q = choose|q: int| 0 <= q < prev.len() && cand_mounts(prev)[q] == ws[1];
                    assert(prev[q].0 == f@[1]@);
                }
            }
            if !seen {
                out.push((string_of(f[1].as_slice()), string_of(f[2].as_slice())));
                assert(string_pair_views(out@) =~= prev.push((ws[1], ws[2])));
            }
        }
        i += 1;
    }
    assert(all.take(ls.len() as int) =~= all);
    out
}

/// What `statvfs` gives for a mount: (total bytes, used bytes) from the
/// block count, the blocks available to unprivileged users, and the
/// fragment size; used is what is not available, floored at zero.
pub fn fs_usage(blocks: u64, bavail: u64, frsize: u64) -> (r: (u64, u64))
    requires
        blocks * frsize <= u64::MAX,
        bavail * frsize <= u64::MAX,
    ensures
        r.0 == blocks * frsize,
        r.1 == if bavail * frsize <= blocks * frsize { blocks * frsize - bavail * frsize } else { 0 },
{
    let total = blocks * frsize;
    let avail = bavail * frsize;
    (total, total.saturating_sub(avail))
}

/// The disk rows: each candidate's (mount, type, total, used) where its
/// filesystem could be sized and is not empty.
pub open spec fn spec_disks(c: Seq<(Seq<char>, Seq<char>, Option<(u64, u64)>)>) -> Seq<
    (Seq<char>, Seq<char>, u64, u64),
>
    decreases c.len(),
{
    if c.len() == 0 {
        Seq::empty()
    } else {
        let prev = spec_disks(c.drop_last());
        match c.last().2 {
            Some((total, used)) => if total > 0 {
                prev.push((c.last().0, c.last().1, total, used))
            } else {
                prev
            },
            None => prev,
        }
    }
}

/// The views of (mount, type, usage) candidates.
pub open spec fn sized_views(v: Seq<(String, String, Option<(u64, u64)>)>) -> Seq<
    (Seq<char>, Seq<char>, Option<(u64, u64)>),
> {
    v.map_values(|c: (String, String, Option<(u64, u64)>)| (c.0@, c.1@, c.2))
}

/// The views of disk rows.
pub open spec fn disk_views(v: Seq<(String, String, u64, u64)>) -> Seq<
    (Seq<char>, Seq<char>, u64, u64),
> {
    v.map_values(|d: (String, String, u64, u64)| (d.0@, d.1@, d.2, d.3))
}

/// The disks of the report, (mount, type, total, used), from the mount
/// candidates with what `statvfs` gave for each (`None`: it failed).
pub fn disks(sized: &Vec<(String, String, Option<(u64, u64)>)>) -> (r: Vec<(String, String, u64, u64)>)
    ensures
        disk_views(r@) == spec_disks(sized_views(sized@)),
{
    let ghost sv = sized_views(sized@);
    let mut out: Vec<(String, String, u64, u64)> = Vec::new();
    let mut i: usize = 0;
    assert(sv.take(0) =~= Seq::<(Seq<char>, Seq<char>, Option<(u64, u64)>)>::empty());
    assert(disk_views(out@) =~= Seq::<(Seq<char>, Seq<char>, u64, u64)>::empty());
    while i < sized.len()
        invariant
            i <= sized.len(),
            sv == sized_views(sized@),
            disk_views(out@) == spec_disks(sv.take(i as int)),
        decreases sized.len() - i,
    {
        assert(sv.take(i + 1).drop_last() =~= sv.take(i as int));
        assert(sv.take(i + 1).last() == sv[i as int]);
        let ghost prev = disk_views(out@);
        match sized[i].2 {
            Some((total, used)) => {
                if total > 0 {
                    let m = chars_of(sized[i].0.as_str());
                    let t = chars_of(sized[i].1.as_str());
                    out.push((string_of(m.as_slice()), string_of(t.as_slice()), total, used));
                    assert(disk_views(out@) =~= prev.push((m@, t@, total, used)));
                }
            },
            None => {},
        }
        i += 1;
    }
    assert(sv.take(sized.len() as int) =~= sv);
    out
}

} // verus!

verus! {

/// The disk candidates are all real filesystems, and no mount point is
/// listed twice.
pub proof fn lemma_mount_cands(ls: Seq<Seq<char>>)
    ensures
        forall|i: int|
            0 <= i < mount_cands(ls).len() ==> is_real_fs(#[trigger] mount_cands(ls)[i].1),
        forall|i: int, j: int|
            0 <= i < j < mount_cands(ls).len() ==> #[trigger] mount_cands(ls)[i].0
                != #[trigger] mount_cands(ls)[j].0,
    decreases ls.len(),
{
    if ls.len() > 0 {
        lemma_mount_cands(ls.drop_last());
        let prev = mount_cands(ls.drop_last());
        let ws = spec_words(ls.last());
        if is_real_mount(ws) && !cand_mounts(prev).contains(ws[1]) {
            let c = mount_cands(ls);
            assert(c == prev.push((ws[1], ws[2])));
            assert forall|i: int, j: int| 0 <= i < j < c.len() implies #[trigger] c[i].0
                != #[trigger] c[j].0 by {
                if j == c.len() - 1 {
                    assert(cand_mounts(prev)[i] == c[i].0);
                }
            }
        }
    }
}

} // verus!

verus! {

// ---------- user and machine ----------

/// The user name: `USER`, else `LOGNAME`, else `user`.
pub fn username(user: Option<&str>, logname: Option<&str>) -> (r: String)
    ensures
        r@ == match user {
            Some(u) => u@,
            None => match logname {
                Some(l) => l@,
                None => "user"@,
            },
        },
{
    match user {
        Some(u) => string_of(chars_of(u).as_slice()),
        None => match logname {
            Some(l) => string_of(chars_of(l).as_slice()),
            None => string_of(chars_of("user").as_slice()),
        },
    }
}

/// The machine architecture: the output of `uname -m` trimmed (`None`:
/// the command failed), else the architecture the program was built for.
pub fn arch(uname_m: Option<&str>, built_for: &str) -> (r: String)
    ensures
        r@ == match uname_m {
            Some(o) => trim_ws(o@),
            None => built_for@,
        },
{
    match uname_m {
        Some(o) => string_of(trim(chars_of(o).as_slice()).as_slice()),
        None => string_of(chars_of(built_for).as_slice()),
    }
}

} // verus!

verus! {

/// The shell's name: the last component of `SHELL` (all of it when it has
/// none), `unknown` when `SHELL` is unset.
pub fn shell(shell_var: Option<&str>) -> (r: String)
    ensures
        r@ == match shell_var {
            Some(s) => match crate::history::path_file_name(s@) {
                Some(f) => f,
                None => s@,
            },
            None => "unknown"@,
        },
{
    match shell_var {
        Some(s) => match crate::history::file_name(s) {
            Some(f) => f,
            None => string_of(chars_of(s).as_slice()),
        },
        None => string_of(chars_of("unknown").as_slice()),
    }
}

/// Whether the program was started under the `sysinfo` alias: the last
/// component of its invocation name is `sysinfo`.
pub fn is_sysinfo_alias(argv0: Option<&str>) -> (r: bool)
    ensures
        r == match argv0 {
            Some(a) => crate::history::path_file_name(a@) == Some("sysinfo"@),
            None => false,
        },
{
    match argv0 {
        Some(a) => match crate::history::file_name(a) {
            Some(f) => crate::text::str_eq(f.as_str(), "sysinfo"),
            None => false,
        },
        None => false,
    }
}

} // verus!

verus! {

/// A line of /proc/cpuinfo read as `key : value`: split at its first `:`,
/// both sides trimmed.
pub open spec fn cpuinfo_line(l: Seq<char>, key: Seq<char>, value: Seq<char>) -> bool {
    exists|i: int|
        crate::text::find_char(l, ':') == Some(i) && trim_ws(#[trigger] l.take(i)) == key
            && trim_ws(l.skip(i + 1)) == value
}

/// A `physical id` line with value `p` followed by a `core id` line with
/// value `c` adds the core (p, c) to the cores seen: a core id is paired
/// with the physical id of its own processor block.
pub proof fn lemma_core_pair(ls: Seq<Seq<char>>, l1: Seq<char>, l2: Seq<char>, p: Seq<char>, c: Seq<char>)
    requires
        cpuinfo_line(l1, "physical id"@, p),
        cpuinfo_line(l2, "core id"@, c),
    ensures
        cpu_scan(ls.push(l1).push(l2)).3 == cpu_scan(ls).3.push((p, c)),
{
    reveal_strlit("core id");
    reveal_strlit("cpu MHz");
    reveal_strlit("physical id");
    reveal_strlit("model name");
    reveal_strlit("Hardware");
    reveal_strlit("Model");
    let a = ls.push(l1);
    assert(ls.push(l1).push(l2).drop_last() =~= a);
    assert(a.drop_last() =~= ls);
    let st = cpu_scan(ls);
    let st1 = cpu_step(st, l1);
    let i1 = choose|i: int|
        crate::text::find_char(l1, ':') == Some(i) && trim_ws(#[trigger] l1.take(i)) == "physical id"@
            && trim_ws(l1.skip(i + 1)) == p;
    let k1 = trim_ws(l1.take(i1));
    assert(k1.len() == 11);
    assert(k1 != "model name"@ && k1 != "Hardware"@ && k1 != "Model"@ && k1 != "cpu MHz"@);
    assert(st1 == (st.0, st.1, p, st.3, st.4));
    let i2 = choose|i: int|
        crate::text::find_char(l2, ':') == Some(i) && trim_ws(#[trigger] l2.take(i)) == "core id"@
            && trim_ws(l2.skip(i + 1)) == c;
    let k2 = trim_ws(l2.take(i2));
    assert(k2.len() == 7);
    assert(k2[1] != "cpu MHz"@[1]);
    assert(k2 != "model name"@ && k2 != "Hardware"@ && k2 != "Model"@ && k2 != "cpu MHz"@
        && k2 != "physical id"@);
    assert(cpu_step(st1, l2) == (st1.0, st1.1, st1.2, st1.3.push((p, c)), st1.4));
    assert(cpu_scan(a) == st1);
    assert(cpu_scan(ls.push(l1).push(l2)) == cpu_step(cpu_scan(a), l2));
}

/// A `model name` line counts one logical CPU and gives the model when
/// none was found before it; a `cpu MHz` line adds its value to the clock
/// readings; a line without `:` changes nothing.
pub proof fn lemma_cpuinfo_lines(ls: Seq<Seq<char>>, l: Seq<char>, v: Seq<char>)
    ensures
        cpuinfo_line(l, "model name"@, v) ==> ({
            let st = cpu_scan(ls);
            let nx = cpu_scan(ls.push(l));
            &&& nx.0 == if st.0 == "unknown"@ { v } else { st.0 }
            &&& nx.1 == st.1 + 1
            &&& nx.3 == st.3
            &&& nx.4 == st.4
        }),
        cpuinfo_line(l, "cpu MHz"@, v) ==> ({
            let st = cpu_scan(ls);
            let nx = cpu_scan(ls.push(l));
            &&& nx.0 == st.0
            &&& nx.1 == st.1
            &&& nx.3 == st.3
            &&& nx.4 == st.4.push(v)
        }),
        crate::text::find_char(l, ':') is None ==> cpu_scan(ls.push(l)) == cpu_scan(ls),
{
    reveal_strlit("cpu MHz");
    reveal_strlit("model name");
    reveal_strlit("Hardware");
    reveal_strlit("Model");
    assert(ls.push(l).drop_last() =~= ls);
    if cpuinfo_line(l, "cpu MHz"@, v) {
        let i = choose|i: int|
            crate::text::find_char(l, ':') == Some(i) && trim_ws(#[trigger] l.take(i)) == "cpu MHz"@
                && trim_ws(l.skip(i + 1)) == v;
        let k = trim_ws(l.take(i));
        assert(k.len() == 7);
        assert(k != "model name"@ && k != "Hardware"@ && k != "Model"@);
    }
}

/// Cores with equal core ids in the blocks of two different physical ids
/// count separately: two blocks with new pairs add two physical cores.
pub proof fn lemma_sockets_count_apart(
    ls: Seq<Seq<char>>,
    l1: Seq<char>,
    l2: Seq<char>,
    l3: Seq<char>,
    l4: Seq<char>,
    p1: Seq<char>,
    p2: Seq<char>,
    c: Seq<char>,
)
    requires
        cpuinfo_line(l1, "physical id"@, p1),
        cpuinfo_line(l2, "core id"@, c),
        cpuinfo_line(l3, "physical id"@, p2),
        cpuinfo_line(l4, "core id"@, c),
        p1 != p2,
        !cpu_scan(ls).3.contains((p1, c)),
        !cpu_scan(ls).3.contains((p2, c)),
    ensures
        cpu_scan(ls.push(l1).push(l2).push(l3).push(l4)).3.to_set().len() == cpu_scan(ls).3.to_set().len() + 2,
{
    let a = ls.push(l1).push(l2);
    lemma_core_pair(ls, l1, l2, p1, c);
    lemma_core_pair(a, l3, l4, p2, c);
    let s0 = cpu_scan(ls).3;
    let s1 = s0.push((p1, c));
    let s2 = s1.push((p2, c));
    assert(cpu_scan(a.push(l3).push(l4)).3 == s2);
    assert(s1.drop_last() =~= s0);
    assert(s2.drop_last() =~= s1);
    assert(!s1.contains((p2, c))) by {
        if s1.contains((p2, c)) {
            let j = choose|j: int| 0 <= j < s1.len() && s1[j] == (p2, c);
            if j < s0.len() {
                assert(s0[j] == (p2, c));
            }
        }
    }
    lemma_distinct_count(s0);
    lemma_distinct_count(s1);
    lemma_distinct_count(s2);
}

/// `p` stands somewhere in `l`.
pub open spec fn contains_phrase(l: Seq<char>, p: Seq<char>) -> bool {
    exists|i: int| 0 <= i && i + p.len() <= l.len() && #[trigger] l.subrange(i, i + p.len()) == p
}

/// `spec_find` finds a phrase exactly when it stands in the text.
proof fn lemma_find_iff_contains(l: Seq<char>, p: Seq<char>)
    ensures
        crate::text::spec_find(l, p) is Some <==> contains_phrase(l, p),
{
    crate::text::lemma_find_from_bounds(l, p, 0);
    if contains_phrase(l, p) {
        let i = choose|i: int| 0 <= i && i + p.len() <= l.len() && #[trigger] l.subrange(i, i + p.len()) == p;
        assert(crate::text::occurs_at(l, p, i));
    }
    if crate::text::spec_find(l, p) is Some {
        let j = crate::text::spec_find(l, p).unwrap();
        assert(crate::text::occurs_at(l, p, j));
        assert(l.subrange(j, j + p.len()) == p);
    }
}

/// Every `lspci` line that mentions a VGA compatible, 3D or display
/// controller adds its model to the GPU list, after those of the lines
/// before it; any other line adds nothing.
pub proof fn lemma_lspci_line(ls: Seq<Seq<char>>, l: Seq<char>)
    ensures
        lspci_gpus(Seq::<Seq<char>>::empty()) == Seq::<Seq<char>>::empty(),
        contains_phrase(l, "VGA compatible controller"@) || contains_phrase(l, "3D controller"@)
            || contains_phrase(l, "Display controller"@) ==> lspci_gpus(ls.push(l)) == lspci_gpus(
            ls,
        ).push(gpu_model(l)),
        !(contains_phrase(l, "VGA compatible controller"@) || contains_phrase(l, "3D controller"@)
            || contains_phrase(l, "Display controller"@)) ==> lspci_gpus(ls.push(l)) == lspci_gpus(
            ls,
        ),
{
    lemma_find_iff_contains(l, "VGA compatible controller"@);
    lemma_find_iff_contains(l, "3D controller"@);
    lemma_find_iff_contains(l, "Display controller"@);
    assert(ls.push(l).drop_last() =~= ls);
    if is_gpu_line(l) {
        assert(lspci_gpus(ls.push(l)) =~= lspci_gpus(ls).push(gpu_model(l)));
    } else {
        assert(lspci_gpus(ls.push(l)) =~= lspci_gpus(ls));
    }
}

/// A /proc/mounts line whose device is a path, whose type is a real
/// filesystem (ext4, ext3, ext2, xfs, btrfs, zfs, f2fs, vfat, exfat, ntfs,
/// ntfs3, overlay or fuseblk) and whose mount point is not listed yet adds
/// the candidate (mount point, type); any other line adds nothing.
pub proof fn lemma_mount_line(ls: Seq<Seq<char>>, l: Seq<char>)
    ensures
        mount_cands(Seq::<Seq<char>>::empty()) == Seq::<(Seq<char>, Seq<char>)>::empty(),
        ({
            let ws = spec_words(l);
            let kept = ws.len() >= 3 && ws[0].len() > 0 && ws[0][0] == '/' && (ws[2] == "ext4"@
                || ws[2] == "ext3"@ || ws[2] == "ext2"@ || ws[2] == "xfs"@ || ws[2] == "btrfs"@
                || ws[2] == "zfs"@ || ws[2] == "f2fs"@ || ws[2] == "vfat"@ || ws[2] == "exfat"@
                || ws[2] == "ntfs"@ || ws[2] == "ntfs3"@ || ws[2] == "overlay"@ || ws[2]
                == "fuseblk"@);
            let fresh = forall|q: int|
                0 <= q < mount_cands(ls).len() ==> (#[trigger] mount_cands(ls)[q]).0 != ws[1];
            &&& kept && fresh ==> mount_cands(ls.push(l)) == mount_cands(ls).push((ws[1], ws[2]))
            &&& !(kept && fresh) ==> mount_cands(ls.push(l)) == mount_cands(ls)
        }),
{
    let ws = spec_words(l);
    let prev = mount_cands(ls);
    assert(ls.push(l).drop_last() =~= ls);
    if ws.len() >= 3 {
        let fresh = forall|q: int| 0 <= q < prev.len() ==> (#[trigger] prev[q]).0 != ws[1];
        if cand_mounts(prev).contains(ws[1]) {
            let q = choose|q: int| 0 <= q < prev.len() && cand_mounts(prev)[q] == ws[1];
            assert(prev[q].0 == ws[1]);
        }
        if !fresh {
            let q = choose|q: int| 0 <= q < prev.len() && (#[trigger] prev[q]).0 == ws[1];
            assert(cand_mounts(prev)[q] == ws[1]);
        }
    }
}

} // verus!
