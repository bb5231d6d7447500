//! Local run history: where runs are stored, how a run is named, and how its
//! time stamp is shown.
use vstd::prelude::*;

use crate::text::{
    all_digits, ascii_lower, chars_of, dec, digits_value, find_char, is_ascii_alnum, is_digit,
    join_range, join_with, lemma_dec_is_digits, lemma_find_char, lemma_parse_dec, parse_u64,
    push_all, push_str, push_zero_padded, seq_views, slice_vec, spec_dec, spec_parse_u64,
    spec_words, string_of, trim_ch, trim_matches, words, zero_pad,
};

verus! {

broadcast use vstd::string::group_string_axioms;

// ---------- the Gregorian calendar ----------

/// A Gregorian leap year.
pub open spec fn is_leap(y: int) -> bool {
    (y % 4 == 0 && y % 100 != 0) || y % 400 == 0
}

/// Days in year `y`.
pub open spec fn year_len(y: int) -> int {
    if is_leap(y) { 366 } else { 365 }
}

/// Days in month `m` (1 = January) of year `y`.
pub open spec fn days_in_month(y: int, m: int) -> int {
    if m == 2 {
        if is_leap(y) { 29 } else { 28 }
    } else if m == 4 || m == 6 || m == 9 || m == 11 {
        30
    } else {
        31
    }
}

/// Days in the months of year `y` before month `m`.
pub open spec fn days_before_month(y: int, m: int) -> int
    decreases m,
{
    if m <= 1 {
        0
    } else {
        days_before_month(y, m - 1) + days_in_month(y, m - 1)
    }
}

/// Leap years among 1 ..= n (for n >= 0).
pub open spec fn leaps_through(n: int) -> int {
    n / 4 - n / 100 + n / 400
}

/// Days from 1970-01-01 to January 1st of year `y` (y >= 1970).
pub open spec fn days_before_year(y: int) -> int {
    365 * (y - 1970) + leaps_through(y - 1) - leaps_through(1969)
}

/// Days from 1970-01-01 (day 0) to the date `y-m-d`.
pub open spec fn days_from_civil(y: int, m: int, d: int) -> int {
    days_before_year(y) + days_before_month(y, m) + d - 1
}

/// A valid date on or after 1970-01-01.
pub open spec fn valid_date(y: int, m: int, d: int) -> bool {
    y >= 1970 && 1 <= m <= 12 && 1 <= d <= days_in_month(y, m)
}

/// The days before year `y + 1` are those before `y` plus the length of `y`.
pub proof fn lemma_year_step(y: int)
    requires
        y >= 1970,
    ensures
        days_before_year(y + 1) == days_before_year(y) + year_len(y),
{
    assert(leaps_through(y) - leaps_through(y - 1) == if is_leap(y) { 1int } else { 0int })
        by (nonlinear_arith)
        requires
            y >= 1970,
    ;
}

/// Every 400 years hold 146097 days.
pub proof fn lemma_cycle_step(y: int)
    requires
        y >= 1970,
    ensures
        days_before_year(y + 400) == days_before_year(y) + 146097,
{
    assert(leaps_through(y + 399) == leaps_through(y - 1) + 97) by (nonlinear_arith)
        requires
            y >= 1970,
    ;
}

/// The days before the year `c` whole 400-year cycles after 1970.
pub proof fn lemma_cycles(c: int)
    requires
        c >= 0,
    ensures
        days_before_year(1970 + 400 * c) == 146097 * c,
    decreases c,
{
    if c > 0 {
        lemma_cycles(c - 1);
        lemma_cycle_step(1970 + 400 * (c - 1));
    }
}

/// The twelve months fill the year.
pub proof fn lemma_months_fill_year(y: int)
    ensures
        days_before_month(y, 12) + days_in_month(y, 12) == year_len(y),
{
    reveal_with_fuel(days_before_month, 12);
}

fn year_length(y: u64) -> (n: u64)
    ensures
        n == year_len(y as int),
{
    if (y % 4 == 0 && y % 100 != 0) || y % 400 == 0 { 366 } else { 365 }
}

fn month_length(y: u64, m: u64) -> (n: u64)
    ensures
        n == days_in_month(y as int, m as int),
{
    let leap = (y % 4 == 0 && y % 100 != 0) || y % 400 == 0;
    if m == 2 {
        if leap { 29 } else { 28 }
    } else if m == 4 || m == 6 || m == 9 || m == 11 {
        30
    } else {
        31
    }
}

/// The date of day `days` counted from 1970-01-01 (day 0).
pub fn civil_from_days(days: u64) -> (r: (u64, u64, u64))
    ensures
        valid_date(r.0 as int, r.1 as int, r.2 as int),
        days_from_civil(r.0 as int, r.1 as int, r.2 as int) == days,
{
    let cycles = days / 146097;
    let mut rem = days % 146097;
    let mut y: u64 = 1970 + 400 * cycles;
    proof {
        lemma_cycles(cycles as int);
    }
    while rem >= year_length(y)
        invariant
            y >= 1970,
            y <= 1970 + 400 * cycles + 400,
            cycles <= days / 146097,
            days as int == days_before_year(y as int) + rem,
            rem < 146097,
            rem as int <= days_before_year(1970 + 400 * cycles + 400) - days_before_year(y as int),
        decreases rem,
    {
        proof {
            lemma_year_step(y as int);
        }
        let len = year_length(y);
        rem -= len;
        y += 1;
    }
    let ghost rem_y = rem;
    proof {
        lemma_months_fill_year(y as int);
    }
    let mut m: u64 = 1;
    loop
        invariant
            1 <= m <= 12,
            rem + days_before_month(y as int, m as int) == rem_y,
            rem_y < year_len(y as int),
            days_before_month(y as int, 12) + days_in_month(y as int, 12) == year_len(y as int),
            rem < year_len(y as int) - days_before_month(y as int, m as int),
        ensures
            1 <= m <= 12,
            rem + days_before_month(y as int, m as int) == rem_y,
            rem < days_in_month(y as int, m as int),
        decreases 12 - m,
    {
        let dim = month_length(y, m);
        if rem < dim {
            break;
        }
        if m == 12 {
            assert(false);
        }
        rem -= dim;
        m += 1;
    }
    (y, m, rem + 1)
}

}

verus! {

/// Month `m` ends within its year, after every earlier month.
pub proof fn lemma_month_bounds(y: int, m: int)
    requires
        1 <= m <= 12,
    ensures
        days_before_month(y, m) + days_in_month(y, m) <= year_len(y),
        0 <= days_before_month(y, m),
        forall|k: int| 1 <= k < m ==> days_before_month(y, k) + days_in_month(y, k)
            <= days_before_month(y, m),
{
    reveal_with_fuel(days_before_month, 13);
}

/// A later year starts after an earlier one ends.
pub proof fn lemma_years_increase(y1: int, y2: int)
    requires
        1970 <= y1 < y2,
    ensures
        days_before_year(y1) + year_len(y1) <= days_before_year(y2),
    decreases y2 - y1,
{
    lemma_year_step(y1);
    if y1 + 1 < y2 {
        lemma_years_increase(y1 + 1, y2);
        lemma_year_step(y1 + 1);
    }
}

/// Distinct valid dates have distinct day numbers: the date that
/// `fmt_time` shows for a time stamp is the only one with that day number.
pub proof fn lemma_civil_unique(y1: int, m1: int, d1: int, y2: int, m2: int, d2: int)
    requires
        valid_date(y1, m1, d1),
        valid_date(y2, m2, d2),
        days_from_civil(y1, m1, d1) == days_from_civil(y2, m2, d2),
    ensures
        y1 == y2 && m1 == m2 && d1 == d2,
{
    lemma_month_bounds(y1, m1);
    lemma_month_bounds(y2, m2);
    if y1 < y2 {
        lemma_years_increase(y1, y2);
    } else if y2 < y1 {
        lemma_years_increase(y2, y1);
    } else {
        if m1 < m2 {
            assert(days_before_month(y1, m1) + days_in_month(y1, m1) <= days_before_month(y1, m2));
        } else if m2 < m1 {
            assert(days_before_month(y1, m2) + days_in_month(y1, m2) <= days_before_month(y1, m1));
        }
    }
}

/// `YYYY-MM-DD HH:MM UTC`, each field zero-padded.
pub open spec fn time_text(y: nat, m: nat, d: nat, h: nat, mi: nat) -> Seq<char> {
    zero_pad(spec_dec(y), 4) + "-"@ + zero_pad(spec_dec(m), 2) + "-"@ + zero_pad(spec_dec(d), 2)
        + " "@ + zero_pad(spec_dec(h), 2) + ":"@ + zero_pad(spec_dec(mi), 2) + " UTC"@
}

/// A Unix time stamp as `YYYY-MM-DD HH:MM UTC`.
pub fn fmt_time(unix: u64) -> (r: String)
    ensures
        exists|y: nat, m: nat, d: nat|
            valid_date(y as int, m as int, d as int) && days_from_civil(y as int, m as int, d as int)
                == unix / 86400 && r@ == #[trigger] time_text(y, m, d, ((unix % 86400) / 3600) as nat, ((unix % 3600) / 60) as nat),
{
    let days = unix / 86400;
    let secs = unix % 86400;
    let h = secs / 3600;
    let mi = (secs % 3600) / 60;
    assert((unix % 86400) % 3600 == unix % 3600) by (nonlinear_arith);
    let (y, m, d) = civil_from_days(days);
    let mut out: Vec<char> = Vec::new();
    let v = dec(y);
    push_zero_padded(&mut out, v.as_slice(), 4);
    push_str(&mut out, "-");
    let v = dec(m);
    push_zero_padded(&mut out, v.as_slice(), 2);
    push_str(&mut out, "-");
    let v = dec(d);
    push_zero_padded(&mut out, v.as_slice(), 2);
    push_str(&mut out, " ");
    let v = dec(h);
    push_zero_padded(&mut out, v.as_slice(), 2);
    push_str(&mut out, ":");
    let v = dec(mi);
    push_zero_padded(&mut out, v.as_slice(), 2);
    push_str(&mut out, " UTC");
    assert(out@ =~= time_text(y as nat, m as nat, d as nat, h as nat, mi as nat));
    string_of(out.as_slice())
}

}

verus! {

// ---------- paths and names ----------

/// `Path::join` with a relative component: `base` + `/` + `comp`, without
/// doubling a separator `base` already ends with, and just `comp` when
/// `base` is empty.
pub open spec fn path_join(base: Seq<char>, comp: Seq<char>) -> Seq<char> {
    if base.len() == 0 {
        comp
    } else if base.last() == '/' {
        base + comp
    } else {
        base + "/"@ + comp
    }
}

/// Joins a relative path component onto `base`.
pub fn join_path(base: &str, comp: &str) -> (r: String)
    ensures
        r@ == path_join(base@, comp@),
{
    let b = chars_of(base);
    let mut out: Vec<char> = Vec::new();
    push_all(&mut out, b.as_slice());
    if b.len() > 0 && b[b.len() - 1] != '/' {
        push_str(&mut out, "/");
    }
    push_str(&mut out, comp);
    assert(out@ =~= path_join(base@, comp@));
    string_of(out.as_slice())
}

/// `data_dir`: `$XDG_DATA_HOME/crucible` when that is set and not empty,
/// else `$HOME/.local/share/crucible` (`.` standing in for an unset `HOME`).
pub open spec fn spec_data_dir(xdg: Option<Seq<char>>, home: Option<Seq<char>>) -> Seq<char> {
    match xdg {
        Some(x) if x.len() > 0 => path_join(x, "crucible"@),
        _ => match home {
            Some(h) => path_join(h, ".local/share/crucible"@),
            None => path_join("."@, ".local/share/crucible"@),
        },
    }
}

/// The data directory from the values of `XDG_DATA_HOME` and `HOME`.
pub fn data_dir(xdg_data_home: Option<&str>, home: Option<&str>) -> (r: String)
    ensures
        r@ == spec_data_dir(
            match xdg_data_home { Some(x) => Some(x@), None => None },
            match home { Some(h) => Some(h@), None => None },
        ),
{
    if let Some(x) = xdg_data_home {
        if !x.is_empty() {
            return join_path(x, "crucible");
        }
    }
    match home {
        Some(h) => join_path(h, ".local/share/crucible"),
        None => join_path(".", ".local/share/crucible"),
    }
}

/// The history directory inside a data directory.
pub fn history_dir(data_dir: &str) -> (r: String)
    ensures
        r@ == path_join(data_dir@, "history"@),
{
    join_path(data_dir, "history")
}

/// `slug(s)`: ASCII letters and digits kept (lower-cased), every other
/// character made `-`, leading and trailing `-` removed; `host` if nothing
/// is left.
pub open spec fn spec_slug(s: Seq<char>) -> Seq<char> {
    let mapped = s.map_values(|c: char| if is_ascii_alnum(c) { c } else { '-' });
    let t = trim_ch(mapped, '-').map_values(|c: char| ascii_lower(c));
    if t.len() == 0 {
        "host"@
    } else {
        t
    }
}

/// A file-name-safe, lower-case form of `s`.
pub fn slug(s: &str) -> (r: String)
    ensures
        r@ == spec_slug(s@),
{
    let v = chars_of(s);
    let mut mapped: Vec<char> = Vec::new();
    let mut i: usize = 0;
    while i < v.len()
        invariant
            i <= v.len(),
            mapped@ == v@.take(i as int).map_values(
                |c: char| if is_ascii_alnum(c) { c } else { '-' },
            ),
        decreases v.len() - i,
    {
        let c = v[i];
        let alnum = ('0' <= c && c <= '9') || ('a' <= c && c <= 'z') || ('A' <= c && c <= 'Z');
        mapped.push(if alnum { c } else { '-' });
        assert(v@.take(i + 1).drop_last() =~= v@.take(i as int));
        i += 1;
    }
    assert(v@.take(v.len() as int) =~= v@);
    let t = trim_matches(mapped.as_slice(), '-');
    let mut low: Vec<char> = Vec::new();
    let mut j: usize = 0;
    while j < t.len()
        invariant
            j <= t.len(),
            low@ == t@.take(j as int).map_values(|c: char| ascii_lower(c)),
        decreases t.len() - j,
    {
        let c = t[j];
        let l = if 'A' <= c && c <= 'Z' {
            let u = c as u32 + 32;
            assert(0x61 <= u <= 0x7a);
            char_of_ascii(u)
        } else {
            c
        };
        low.push(l);
        assert(t@.take(j + 1).drop_last() =~= t@.take(j as int));
        j += 1;
    }
    assert(t@.take(t.len() as int) =~= t@);
    if low.len() == 0 {
        let h = chars_of("host");
        string_of(h.as_slice())
    } else {
        string_of(low.as_slice())
    }
}

/// The character of an ASCII code.
fn char_of_ascii(u: u32) -> (c: char)
    requires
        u < 128,
    ensures
        c as u32 == u,
        c == u as char,
{
    (u as u8) as char
}

/// `history_id(t, model)`: the time stamp, `-`, and the slug of the first
/// three words of the CPU model joined with `-`.
pub open spec fn spec_history_id(t: u64, cpu_model: Seq<char>) -> Seq<char> {
    let ws = spec_words(cpu_model);
    let first3 = if ws.len() <= 3 { ws } else { ws.take(3) };
    spec_dec(t as nat) + "-"@ + spec_slug(join_with(first3, "-"@))
}

/// The id (file stem) under which a run taken at `t` on `cpu_model` is kept.
pub fn history_id(t: u64, cpu_model: &str) -> (r: String)
    ensures
        r@ == spec_history_id(t, cpu_model@),
{
    let m = chars_of(cpu_model);
    let ws = words(m.as_slice());
    let n = if ws.len() <= 3 { ws.len() } else { 3 };
    let sep = chars_of("-");
    let joined = join_range(&ws, 0, n, sep.as_slice());
    proof {
        let all = seq_views(ws@);
        if ws.len() <= 3 {
            assert(all.subrange(0, n as int) =~= all);
        } else {
            assert(all.subrange(0, n as int) =~= all.take(3));
        }
    }
    let js = string_of(joined.as_slice());
    let sl = slug(js.as_str());
    let mut out = dec(t);
    push_str(&mut out, "-");
    push_str(&mut out, sl.as_str());
    string_of(out.as_slice())
}

/// `id_unix_time(id)`: the part of a run id before its first `-` (all of
/// it when there is none), parsed as a number.
pub open spec fn spec_id_unix_time(id: Seq<char>) -> Option<u64> {
    match find_char(id, '-') {
        Some(i) => spec_parse_u64(id.take(i)),
        None => spec_parse_u64(id),
    }
}

/// The time stamp that a run id starts with.
pub fn id_unix_time(id: &str) -> (r: Option<u64>)
    ensures
        r == spec_id_unix_time(id@),
{
    let v = chars_of(id);
    let mut i: usize = 0;
    while i < v.len() && v[i] != '-'
        invariant
            i <= v.len(),
            forall|j: int| 0 <= j < i ==> v@[j] != '-',
        decreases v.len() - i,
    {
        i += 1;
    }
    proof {
        lemma_find_char(v@, '-', i as int);
    }
    if i < v.len() {
        let p = slice_vec(v.as_slice(), 0, i);
        assert(p@ =~= v@.take(i as int));
        parse_u64(p.as_slice())
    } else {
        parse_u64(v.as_slice())
    }
}

/// A run's id gives back the time stamp it was recorded under.
pub proof fn lemma_id_round_trip(t: u64, cpu_model: Seq<char>)
    ensures
        spec_id_unix_time(spec_history_id(t, cpu_model)) == Some(t),
{
    let d = spec_dec(t as nat);
    let id = spec_history_id(t, cpu_model);
    lemma_dec_is_digits(t as nat);
    lemma_parse_dec(t);
    assert(forall|j: int| 0 <= j < d.len() ==> id[j] == d[j]);
    assert(forall|j: int| 0 <= j < d.len() ==> is_digit(#[trigger] d[j]));
    reveal_strlit("-");
    assert(id[d.len() as int] == '-');
    lemma_find_char(id, '-', d.len() as int);
    assert(id.take(d.len() as int) =~= d);
}

}

verus! {

// ---------- recording and loading ----------

/// The id a results JSON is recorded under at time `t`: its CPU model
/// (`sysinfo.cpu_model`, empty when absent) in `history_id`; the JSON
/// parse error when the text is not JSON.
pub open spec fn spec_record_id(json: Seq<char>, t: u64) -> Result<Seq<char>, Seq<char>> {
    match crate::json::json_parse_error(json) {
        Some(e) => Err(e),
        None => Ok(
            spec_history_id(
                t,
                match crate::json::json_str_path(json, "sysinfo"@, "cpu_model"@) {
                    Some(m) => m,
                    None => Seq::empty(),
                },
            ),
        ),
    }
}

/// The record id from what reading a results JSON gave: its parse error
/// (`None`: it parsed) and its `sysinfo.cpu_model` string.
pub fn record_id_from(parse_error: Option<&str>, cpu_model: Option<&str>, t: u64) -> (r: Result<
    String,
    String,
>)
    ensures
        crate::upload::result_view(r) == match parse_error {
            Some(e) => Err(e@),
            None => Ok(
                spec_history_id(
                    t,
                    match cpu_model {
                        Some(m) => m@,
                        None => Seq::empty(),
                    },
                ),
            ),
        },
{
    proof {
        reveal_strlit("");
    }
    match parse_error {
        Some(e) => Err(string_of(chars_of(e).as_slice())),
        None => match cpu_model {
            Some(m) => Ok(history_id(t, m)),
            None => Ok(history_id(t, "")),
        },
    }
}

/// The id under which the results JSON `json`, taken at `t`, is recorded.
pub fn record_id(json: &str, t: u64) -> (r: Result<String, String>)
    ensures
        crate::upload::result_view(r) == spec_record_id(json@, t),
{
    let err = crate::json::parse_error(json);
    let model = crate::json::str_path(json, "sysinfo", "cpu_model");
    let e = match &err {
        Some(x) => Some(x.as_str()),
        None => None,
    };
    let m = match &model {
        Some(x) => Some(x.as_str()),
        None => None,
    };
    record_id_from(e, m, t)
}

/// The file a run id is stored in: `<dir>/<id>.json`.
pub fn run_file(history_dir: &str, id: &str) -> (r: String)
    ensures
        r@ == path_join(history_dir@, id@ + ".json"@),
{
    let mut f: Vec<char> = Vec::new();
    push_str(&mut f, id);
    push_str(&mut f, ".json");
    let name = string_of(f.as_slice());
    join_path(history_dir, name.as_str())
}

/// The message when no run is stored under `id` (`err`: why reading
/// failed).
pub fn load_error(id: &str, err: &str) -> (r: String)
    ensures
        r@ == "no such run '"@ + id@ + "' ("@ + err@ + ")"@,
{
    let mut f: Vec<char> = Vec::new();
    push_str(&mut f, "no such run '");
    push_str(&mut f, id);
    push_str(&mut f, "' (");
    push_str(&mut f, err);
    push_str(&mut f, ")");
    string_of(f.as_slice())
}

} // verus!

verus! {

/// A character a slug may hold: a lower-case ASCII letter, a digit, `-`.
pub open spec fn is_slug_char(c: char) -> bool {
    ('0' <= c && c <= '9') || ('a' <= c && c <= 'z') || c == '-'
}

proof fn lemma_trim_start_ch_shape(s: Seq<char>, c: char)
    ensures
        exists|k: int| 0 <= k <= s.len() && crate::text::trim_start_ch(s, c) == s.skip(k),
        crate::text::trim_start_ch(s, c).len() > 0 ==> crate::text::trim_start_ch(s, c)[0] != c,
    decreases s.len(),
{
    if s.len() > 0 && s[0] == c {
        lemma_trim_start_ch_shape(s.drop_first(), c);
        let k = choose|k: int|
            0 <= k <= s.drop_first().len() && crate::text::trim_start_ch(s.drop_first(), c) == s.drop_first().skip(k);
        assert(s.drop_first().skip(k) =~= s.skip(k + 1));
    } else {
        assert(s.skip(0) =~= s);
    }
}

proof fn lemma_trim_end_ch_shape(s: Seq<char>, c: char)
    ensures
        exists|k: int| 0 <= k <= s.len() && crate::text::trim_end_ch(s, c) == s.take(k),
        crate::text::trim_end_ch(s, c).len() > 0 ==> crate::text::trim_end_ch(s, c).last() != c,
    decreases s.len(),
{
    if s.len() > 0 && s.last() == c {
        lemma_trim_end_ch_shape(s.drop_last(), c);
        let k = choose|k: int|
            0 <= k <= s.drop_last().len() && crate::text::trim_end_ch(s.drop_last(), c) == s.drop_last().take(k);
        assert(s.drop_last().take(k) =~= s.take(k));
    } else {
        assert(s.take(s.len() as int) =~= s);
    }
}

/// A slug is never empty, holds only lower-case ASCII letters, digits and
/// `-`, and neither starts nor ends with `-`: safe in a file name.
pub proof fn lemma_slug_safe(s: Seq<char>)
    ensures
        spec_slug(s).len() > 0,
        forall|i: int| 0 <= i < spec_slug(s).len() ==> is_slug_char(#[trigger] spec_slug(s)[i]),
        spec_slug(s)[0] != '-',
        spec_slug(s).last() != '-',
{
    let mapped = s.map_values(|c: char| if is_ascii_alnum(c) { c } else { '-' });
    let a = crate::text::trim_start_ch(mapped, '-');
    let t = crate::text::trim_end_ch(a, '-');
    assert(trim_ch(mapped, '-') == t);
    lemma_trim_start_ch_shape(mapped, '-');
    lemma_trim_end_ch_shape(a, '-');
    let k1 = choose|k: int| 0 <= k <= mapped.len() && a == mapped.skip(k);
    let k2 = choose|k: int| 0 <= k <= a.len() && t == a.take(k);
    assert forall|i: int| 0 <= i < t.len() implies is_ascii_alnum(#[trigger] t[i]) || t[i] == '-' by {
        assert(t[i] == a[i]);
        assert(a[i] == mapped[i + k1]);
    }
    let low = t.map_values(|c: char| ascii_lower(c));
    if t.len() == 0 {
        reveal_strlit("host");
        assert(spec_slug(s) == "host"@);
    } else {
        assert(spec_slug(s) == low);
        assert(t[0] == a[0]);
        assert forall|i: int| 0 <= i < low.len() implies is_slug_char(#[trigger] low[i]) by {
            let c = t[i];
            if 'A' <= c && c <= 'Z' {
                assert(65 <= c as u32 <= 90);
            }
        }
        assert(low[0] == ascii_lower(t[0]));
        assert(low.last() == ascii_lower(t.last()));
    }
}

} // verus!

verus! {

// ---------- listing ----------

/// Run `a` is listed before run `b`: it is newer, or as new and found
/// earlier.
pub open spec fn listed_before(times: Seq<u64>, a: usize, b: usize) -> bool {
    times[a as int] > times[b as int] || (times[a as int] == times[b as int] && a < b)
}

/// `order` lists each of the runs `0..times.len()` once, newest first,
/// runs as new as each other in the order they were found.
pub open spec fn newest_first_order(times: Seq<u64>, order: Seq<usize>) -> bool {
    &&& order.len() == times.len()
    &&& forall|i: int| 0 <= i < order.len() ==> order[i] < times.len()
    &&& forall|i: int, j: int| 0 <= i < j < order.len() ==> order[i] != order[j]
    &&& forall|i: int, j: int|
        0 <= i < j < order.len() ==> listed_before(times, #[trigger] order[i], #[trigger] order[j])
}

/// The order in which recorded runs are listed, from their time stamps in
/// the order they were found: newest first, ties kept in found order
/// (a stable sort by time, descending).
pub fn newest_first(times: &Vec<u64>) -> (order: Vec<usize>)
    ensures
        newest_first_order(times@, order@),
{
    let mut order: Vec<usize> = Vec::new();
    let mut k: usize = 0;
    while k < times.len()
        invariant
            k <= times.len(),
            order@.len() == k,
            forall|i: int| 0 <= i < order@.len() ==> order@[i] < k,
            forall|i: int, j: int| 0 <= i < j < order@.len() ==> order@[i] != order@[j],
            forall|i: int, j: int|
                0 <= i < j < order@.len() ==> listed_before(
                    times@,
                    #[trigger] order@[i],
                    #[trigger] order@[j],
                ),
        decreases times.len() - k,
    {
        let t = times[k];
        let mut p: usize = 0;
        while p < order.len() && times[order[p]] >= t
            invariant
                p <= order@.len(),
                order@.len() == k,
                k < times.len(),
                t == times@[k as int],
                forall|i: int| 0 <= i < order@.len() ==> order@[i] < k,
                forall|i: int| 0 <= i < p ==> times@[order@[i] as int] >= t,
            decreases order@.len() - p,
        {
            p += 1;
        }
        let ghost before = order@;
        proof {
            if p < before.len() {
                assert(times@[before[p as int] as int] < t);
                assert forall|q: int| p <= q < before.len() implies times@[before[q] as int] < t by {
                    if q > p {
                        assert(listed_before(times@, before[p as int], before[q]));
                    }
                }
            }
        }
        order.insert(p, k);
        assert forall|i: int, j: int|
            0 <= i < j < order@.len() implies listed_before(
            times@,
            #[trigger] order@[i],
            #[trigger] order@[j],
        ) by {
            if j < p {
                assert(order@[i] == before[i] && order@[j] == before[j]);
            } else if j == p {
                assert(order@[i] == before[i]);
            } else if i == p {
                assert(order@[j] == before[j - 1]);
            } else if i < p {
                assert(order@[i] == before[i] && order@[j] == before[j - 1]);
            } else {
                assert(order@[i] == before[i - 1] && order@[j] == before[j - 1]);
            }
        }
        assert forall|i: int, j: int| 0 <= i < j < order@.len() implies order@[i] != order@[j] by {
            if j < p {
                assert(order@[i] == before[i] && order@[j] == before[j]);
            } else if j == p {
                assert(order@[i] == before[i]);
            } else if i == p {
                assert(order@[j] == before[j - 1]);
            } else if i < p {
                assert(order@[i] == before[i] && order@[j] == before[j - 1]);
            } else {
                assert(order@[i] == before[i - 1] && order@[j] == before[j - 1]);
            }
        }
        assert forall|i: int| 0 <= i < order@.len() implies order@[i] < k + 1 by {
            if i < p {
                assert(order@[i] == before[i]);
            } else if i > p {
                assert(order@[i] == before[i - 1]);
            }
        }
        k += 1;
    }
    order
}

/// The time a listed run was taken: the time stamp its id starts with,
/// else the file's modification time, else 0.
pub fn entry_unix_time(id: &str, mtime: Option<u64>) -> (t: u64)
    ensures
        t == match spec_id_unix_time(id@) {
            Some(x) => x,
            None => match mtime {
                Some(m) => m,
                None => 0,
            },
        },
{
    match id_unix_time(id) {
        Some(x) => x,
        None => match mtime {
            Some(m) => m,
            None => 0,
        },
    }
}

} // verus!

verus! {

// ---------- path names ----------

/// The last component of a path as `std::path::Path::file_name` gives it
/// (`None` for a root, or a path ending in `..`).
pub uninterp spec fn path_file_name(p: Seq<char>) -> Option<Seq<char>>;

/// `std::path::Path::file_name`, as text: named `path_file_name`.
#[verifier::external_body]
pub(crate) fn file_name(p: &str) -> (r: Option<String>)
    ensures
        crate::report::collect::opt_view_string(r) == path_file_name(p@),
{
    match std::path::Path::new(p).file_name() {
        Some(f) => Some(f.to_string_lossy().into_owned()),
        None => None,
    }
}

} // verus!
