//! Formatting helpers for the report: ANSI styling, byte sizes, usage bars,
//! IPv6 compression and small readers of /proc text.
use vstd::prelude::*;

use crate::text::{
    chars_of, dec, first_line_of, first_rest_after, first_rest_after_exec, first_word,
    first_word_exec, lines, parse_u64, push_digits, push_str, push_zero_padded, spec_dec,
    spec_first_line, spec_hex, spec_lines, spec_parse_u64, starts_with, string_of, zero_pad,
};

verus! {

broadcast use vstd::string::group_string_axioms;

/// ANSI styling; `on` selects whether escape codes are emitted.
pub struct Style {
    pub on: bool,
}

/// `s` wrapped in the SGR escape `code` when styling is on.
pub open spec fn spec_paint(on: bool, code: Seq<char>, s: Seq<char>) -> Seq<char> {
    if on {
        "\x1b["@ + code + "m"@ + s + "\x1b[0m"@
    } else {
        s
    }
}

/// Whether colour is wanted: `NO_COLOR` unset and `TERM` not `dumb`.
pub open spec fn spec_color_wanted(no_color_set: bool, term: Option<&str>) -> bool {
    !no_color_set && match term {
        Some(t) => t@ != "dumb"@,
        None => true,
    }
}

impl Style {
    /// Styling as the environment asks for it: on unless `NO_COLOR` is set
    /// or `TERM` is `dumb` (an unset or unreadable `TERM` keeps it on).
    pub fn from_env(no_color_set: bool, term: Option<&str>) -> (st: Style)
        ensures
            st.on == spec_color_wanted(no_color_set, term),
    {
        let on = if no_color_set {
            false
        } else {
            match term {
                Some(t) => {
                    let tv = chars_of(t);
                    let dumb = chars_of("dumb");
                    let same = tv.len() == dumb.len() && starts_with(tv.as_slice(), dumb.as_slice());
                    proof {
                        if same {
                            assert(tv@ =~= dumb@);
                        }
                        if tv@ == dumb@ {
                            assert(dumb@.is_prefix_of(tv@));
                        }
                    }
                    !same
                },
                None => true,
            }
        };
        Style { on }
    }

    /// Styling with an explicit colour setting.
    pub fn with(on: bool) -> (st: Style)
        ensures
            st.on == on,
    {
        Style { on }
    }

    /// `s` wrapped in `ESC[<code>m ... ESC[0m` when styling is on, else `s`.
    pub fn paint(&self, code: &str, s: &str) -> (r: String)
        ensures
            r@ == spec_paint(self.on, code@, s@),
    {
        if self.on {
            let mut v: Vec<char> = Vec::new();
            push_str(&mut v, "\x1b[");
            push_str(&mut v, code);
            push_str(&mut v, "m");
            push_str(&mut v, s);
            push_str(&mut v, "\x1b[0m");
            string_of(v.as_slice())
        } else {
            let v = chars_of(s);
            string_of(v.as_slice())
        }
    }

    /// Bold cyan.
    pub fn title(&self, s: &str) -> (r: String)
        ensures
            r@ == spec_paint(self.on, "1;36"@, s@),
    {
        self.paint("1;36", s)
    }

    /// Bold green.
    pub fn key(&self, s: &str) -> (r: String)
        ensures
            r@ == spec_paint(self.on, "1;32"@, s@),
    {
        self.paint("1;32", s)
    }

    /// Bold magenta.
    pub fn accent(&self, s: &str) -> (r: String)
        ensures
            r@ == spec_paint(self.on, "1;35"@, s@),
    {
        self.paint("1;35", s)
    }
}

} // verus!

verus! {

// ---------- byte sizes ----------

/// Distance between neighbouring `f64` values near `b` (for `b < 2^64`):
/// 1 below 2^53, doubling with each further binary digit.
pub open spec fn f64_spacing(b: nat) -> nat {
    if b < 0x20_0000_0000_0000 { 1 }
    else if b < 0x40_0000_0000_0000 { 2 }
    else if b < 0x80_0000_0000_0000 { 4 }
    else if b < 0x100_0000_0000_0000 { 8 }
    else if b < 0x200_0000_0000_0000 { 16 }
    else if b < 0x400_0000_0000_0000 { 32 }
    else if b < 0x800_0000_0000_0000 { 64 }
    else if b < 0x1000_0000_0000_0000 { 128 }
    else if b < 0x2000_0000_0000_0000 { 256 }
    else if b < 0x4000_0000_0000_0000 { 512 }
    else if b < 0x8000_0000_0000_0000 { 1024 }
    else { 2048 }
}

/// `n / d` rounded to the nearest integer, ties to the even one.
pub open spec fn div_round_even(n: nat, d: nat) -> nat {
    let q = n / d;
    let r = n % d;
    if 2 * r > d || (2 * r == d && q % 2 == 1) {
        q + 1
    } else {
        q
    }
}

/// The value of `b as f64`: `b` rounded to the nearest multiple of the
/// spacing of `f64` values there, ties to even (round-to-nearest-even).
pub open spec fn f64_of_u64(b: nat) -> nat {
    div_round_even(b, f64_spacing(b)) * f64_spacing(b)
}

/// 1024^i for the unit indices used by `human_bytes`.
pub open spec fn kib_pow(i: nat) -> nat {
    if i == 0 { 1 }
    else if i == 1 { 1024 }
    else if i == 2 { 0x10_0000 }
    else if i == 3 { 0x4000_0000 }
    else if i == 4 { 0x100_0000_0000 }
    else { 0x4_0000_0000_0000 }
}

/// Number of times a value `f` can be divided by 1024 while it is at least
/// 1024, at most 5 (the last unit is PiB).
pub open spec fn unit_index(f: nat) -> nat {
    if f < kib_pow(1) { 0 }
    else if f < kib_pow(2) { 1 }
    else if f < kib_pow(3) { 2 }
    else if f < kib_pow(4) { 3 }
    else if f < kib_pow(5) { 4 }
    else { 5 }
}

/// The unit name for index `i`.
pub open spec fn unit_name(i: nat) -> Seq<char> {
    if i == 0 { "B"@ }
    else if i == 1 { "KiB"@ }
    else if i == 2 { "MiB"@ }
    else if i == 3 { "GiB"@ }
    else if i == 4 { "TiB"@ }
    else { "PiB"@ }
}

/// A non-negative number given in hundredths, written with two decimals.
pub open spec fn two_decimals(hundredths: nat) -> Seq<char> {
    spec_dec(hundredths / 100) + "."@ + zero_pad(spec_dec(hundredths % 100), 2)
}

/// `human_bytes(b)`: under 1024 the exact count and `B`; otherwise the value
/// of `b` (as an `f64` holds it) divided by 1024 as long as it stays at least
/// 1024 (at most five times), written with two decimals rounded half to even,
/// and the matching binary unit.
pub open spec fn spec_human_bytes(b: nat) -> Seq<char> {
    if b < 1024 {
        spec_dec(b) + " B"@
    } else {
        let f = f64_of_u64(b);
        let i = unit_index(f);
        two_decimals(div_round_even(f * 100, kib_pow(i))) + " "@ + unit_name(i)
    }
}

fn div_round_even_exec(n: u128, d: u128) -> (q: u128)
    requires
        d > 0,
        n < 0x1_0000_0000_0000_0000_0000_0000_0000,
    ensures
        q == div_round_even(n as nat, d as nat),
{
    let q = n / d;
    let r = n % d;
    assert(r < d);
    if r > d - r || (r == d - r && q % 2 == 1) {
        assert(q < n + 1) by (nonlinear_arith)
            requires
                q == n / d,
                d > 0,
        ;
        q + 1
    } else {
        q
    }
}

fn f64_spacing_exec(b: u64) -> (u: u128)
    ensures
        u == f64_spacing(b as nat),
        1 <= u <= 2048,
{
    if b < 0x20_0000_0000_0000 { 1 }
    else if b < 0x40_0000_0000_0000 { 2 }
    else if b < 0x80_0000_0000_0000 { 4 }
    else if b < 0x100_0000_0000_0000 { 8 }
    else if b < 0x200_0000_0000_0000 { 16 }
    else if b < 0x400_0000_0000_0000 { 32 }
    else if b < 0x800_0000_0000_0000 { 64 }
    else if b < 0x1000_0000_0000_0000 { 128 }
    else if b < 0x2000_0000_0000_0000 { 256 }
    else if b < 0x4000_0000_0000_0000 { 512 }
    else if b < 0x8000_0000_0000_0000 { 1024 }
    else { 2048 }
}

/// Human-readable byte count with binary units (`B` … `PiB`).
pub fn human_bytes(b: u64) -> (r: String)
    ensures
        r@ == spec_human_bytes(b as nat),
{
    let mut out: Vec<char> = Vec::new();
    if b < 1024 {
        push_digits(&mut out, b, 10);
        push_str(&mut out, " B");
        return string_of(out.as_slice());
    }
    let u = f64_spacing_exec(b);
    let q = div_round_even_exec(b as u128, u);
    assert(q <= b as u128 + 1) by (nonlinear_arith)
        requires
            q <= (b as nat) / (u as nat) + 1,
            u >= 1,
    ;
    assert(q * u <= 0x2_0000_0000_0000_0000) by (nonlinear_arith)
        requires
            q <= (b as nat) / (u as nat) + 1,
            1 <= u <= 2048,
            b < 0x1_0000_0000_0000_0000,
    ;
    let f: u128 = q * u;
    let (i, unit): (u64, &str) = if f < 1024 {
        (0, "B")
    } else if f < 0x10_0000 {
        (1, "KiB")
    } else if f < 0x4000_0000 {
        (2, "MiB")
    } else if f < 0x100_0000_0000 {
        (3, "GiB")
    } else if f < 0x4_0000_0000_0000 {
        (4, "TiB")
    } else {
        (5, "PiB")
    };
    let d: u128 = if i == 0 { 1 } else if i == 1 { 1024 } else if i == 2 { 0x10_0000 } else if i
        == 3 { 0x4000_0000 } else if i == 4 { 0x100_0000_0000 } else { 0x4_0000_0000_0000 };
    let h = div_round_even_exec(f * 100, d);
    assert(h <= f * 100 + 1) by (nonlinear_arith)
        requires
            h <= (f * 100) as nat / (d as nat) + 1,
            d >= 1,
    ;
    let whole = (h / 100) as u64;
    let frac = (h % 100) as u64;
    push_digits(&mut out, whole, 10);
    push_str(&mut out, ".");
    let fd = dec(frac);
    push_zero_padded(&mut out, fd.as_slice(), 2);
    push_str(&mut out, " ");
    push_str(&mut out, unit);
    proof {
        assert(f == f64_of_u64(b as nat));
        assert(i == unit_index(f as nat));
        assert(d == kib_pow(i as nat));
        assert(unit@ == unit_name(i as nat));
        assert(out@ =~= spec_human_bytes(b as nat));
    }
    string_of(out.as_slice())
}

} // verus!

verus! {

// ---------- usage bars ----------

/// The used amount counted by a bar: at most the total.
pub open spec fn bar_used(used: nat, total: nat) -> nat {
    if used <= total { used } else { total }
}

/// Cells filled: `used / total * width` rounded half away from zero.
pub open spec fn bar_filled(used: nat, total: nat, width: nat) -> nat {
    (2 * bar_used(used, total) * width + total) / (2 * total)
}

/// Colour of a bar: green below 75 %, yellow below 90 %, red otherwise.
pub open spec fn bar_colour(used: nat, total: nat) -> Seq<char> {
    let u = bar_used(used, total);
    if 100 * u >= 90 * total {
        "1;31"@
    } else if 100 * u >= 75 * total {
        "1;33"@
    } else {
        "1;32"@
    }
}

/// `bar(used, total, width)`: empty when `total` is 0; otherwise
/// `[` + the filled cells (`━`, painted in the usage colour) + the empty
/// cells (`─`) + `] ` + the percentage rounded half to even + `%`.
pub open spec fn spec_bar(used: nat, total: nat, width: nat, on: bool) -> Seq<char> {
    if total == 0 {
        Seq::empty()
    } else {
        let filled = bar_filled(used, total, width);
        "["@ + spec_paint(on, bar_colour(used, total), Seq::new(filled, |i: int| '━'))
            + Seq::new((width - filled) as nat, |i: int| '─') + "] "@
            + spec_dec(div_round_even(100 * bar_used(used, total), total)) + "%"@
    }
}

/// A coloured usage bar `width` cells wide with the percentage after it.
pub fn bar(used: u64, total: u64, width: usize, st: &Style) -> (r: String)
    requires
        width < 0x1000_0000_0000_0000,
    ensures
        r@ == spec_bar(used as nat, total as nat, width as nat, st.on),
{
    if total == 0 {
        return String::new();
    }
    let u: u64 = if used <= total { used } else { total };
    let t = total as u128;
    assert(2 * (u as u128) * (width as u128) <= 0x2000_0000_0000_0000_0000_0000_0000_0000)
        by (nonlinear_arith)
        requires
            u < 0x1_0000_0000_0000_0000,
            width < 0x1000_0000_0000_0000,
    ;
    let filled128 = (2 * (u as u128) * (width as u128) + t) / (2 * t);
    assert(filled128 <= width) by (nonlinear_arith)
        requires
            filled128 == (2 * (u as u128) * (width as u128) + t) / (2 * t),
            u <= t,
            t > 0,
    ;
    let filled = filled128 as usize;
    let colour: &str = if 100 * (u as u128) >= 90 * t {
        "1;31"
    } else if 100 * (u as u128) >= 75 * t {
        "1;33"
    } else {
        "1;32"
    };
    let mut cells: Vec<char> = Vec::new();
    crate::text::push_repeat(&mut cells, '━', filled);
    let cells_s = string_of(cells.as_slice());
    let painted = st.paint(colour, cells_s.as_str());
    let mut out: Vec<char> = Vec::new();
    push_str(&mut out, "[");
    push_str(&mut out, painted.as_str());
    crate::text::push_repeat(&mut out, '─', width - filled);
    push_str(&mut out, "] ");
    let pct = div_round_even_exec(100 * (u as u128), t);
    assert(pct <= 101) by (nonlinear_arith)
        requires
            pct <= (100 * (u as u128)) as nat / (t as nat) + 1,
            u <= t,
            t > 0,
    ;
    push_digits(&mut out, pct as u64, 10);
    push_str(&mut out, "%");
    proof {
        assert(cells@ =~= Seq::new(filled as nat, |i: int| '━'));
        assert(colour@ == bar_colour(used as nat, total as nat));
        assert(out@ =~= spec_bar(used as nat, total as nat, width as nat, st.on));
    }
    string_of(out.as_slice())
}

} // verus!

verus! {

// ---------- IPv6 ----------

/// The eight 16-bit groups of an IPv6 address, big-endian.
pub open spec fn ipv6_groups(b: Seq<u8>) -> Seq<nat> {
    Seq::new(8, |i: int| (b[2 * i] as nat) * 256 + (b[2 * i + 1] as nat))
}

/// Length of the run of zero groups that starts at `i`.
pub open spec fn zero_run(g: Seq<nat>, i: int) -> nat
    decreases g.len() - i,
{
    if 0 <= i < g.len() && g[i] == 0 {
        1 + zero_run(g, i + 1)
    } else {
        0
    }
}

/// The longest zero run starting before position `i`.
pub open spec fn longest_run_before(g: Seq<nat>, i: int) -> nat
    decreases i,
{
    if i <= 0 {
        0
    } else {
        let m = longest_run_before(g, i - 1);
        if zero_run(g, i - 1) > m {
            zero_run(g, i - 1)
        } else {
            m
        }
    }
}

/// Start of the first longest zero run starting before position `i`.
pub open spec fn longest_run_start(g: Seq<nat>, i: int) -> int
    decreases i,
{
    if i <= 0 {
        0
    } else if zero_run(g, i - 1) > longest_run_before(g, i - 1) {
        i - 1
    } else {
        longest_run_start(g, i - 1)
    }
}

/// Groups in lower-case hex without leading zeros, separated by `:`.
pub open spec fn hex_join(g: Seq<nat>) -> Seq<char>
    decreases g.len(),
{
    if g.len() == 0 {
        Seq::empty()
    } else if g.len() == 1 {
        spec_hex(g[0])
    } else {
        hex_join(g.drop_last()) + ":"@ + spec_hex(g.last())
    }
}

/// `format_ipv6(b)`: the groups in hex joined by `:`, with the first of the
/// longest runs of zero groups replaced by `::` when it is at least 2 long.
pub open spec fn spec_format_ipv6(b: Seq<u8>) -> Seq<char> {
    let g = ipv6_groups(b);
    let m = longest_run_before(g, 8);
    let s = longest_run_start(g, 8);
    if m < 2 {
        hex_join(g)
    } else {
        hex_join(g.take(s)) + "::"@ + hex_join(g.skip(s + m))
    }
}

/// The zero run at `i` stays within the groups, is all zeros, and ends
/// at a non-zero group or at the end.
pub proof fn lemma_zero_run_bound(g: Seq<nat>, i: int)
    requires
        0 <= i <= g.len(),
    ensures
        zero_run(g, i) <= g.len() - i,
        forall|k: int| i <= k < i + zero_run(g, i) ==> g[k] == 0,
        i + zero_run(g, i) < g.len() ==> g[i + zero_run(g, i)] != 0,
    decreases g.len() - i,
{
    if i < g.len() && g[i] == 0 {
        lemma_zero_run_bound(g, i + 1);
    }
}

/// The run `format_ipv6` compresses is a longest one, and the first of them:
/// no zero run is longer, and every run starting earlier is shorter.
pub proof fn lemma_longest_run(g: Seq<nat>, i: int)
    requires
        0 <= i <= g.len(),
    ensures
        forall|j: int| 0 <= j < i ==> zero_run(g, j) <= longest_run_before(g, i),
        i > 0 ==> 0 <= longest_run_start(g, i) < i,
        i > 0 ==> zero_run(g, longest_run_start(g, i)) == longest_run_before(g, i),
        forall|j: int| 0 <= j < longest_run_start(g, i) ==> zero_run(g, j) < longest_run_before(g, i),
    decreases i,
{
    if i > 0 {
        lemma_longest_run(g, i - 1);
    }
}

fn push_hex_join(out: &mut Vec<char>, g: &Vec<u64>, lo: usize, hi: usize)
    requires
        lo <= hi <= g.len(),
    ensures
        final(out)@ == old(out)@ + hex_join(g@.map_values(|x: u64| x as nat).subrange(
            lo as int,
            hi as int,
        )),
    decreases hi - lo,
{
    let ghost gs = g@.map_values(|x: u64| x as nat);
    if lo == hi {
        assert(gs.subrange(lo as int, hi as int).len() == 0);
        assert(final(out)@ =~= old(out)@ + hex_join(gs.subrange(lo as int, hi as int)));
    } else if hi - lo == 1 {
        push_digits(out, g[lo], 16);
        assert(gs.subrange(lo as int, hi as int) =~= seq![gs[lo as int]]);
        assert(final(out)@ =~= old(out)@ + hex_join(gs.subrange(lo as int, hi as int)));
    } else {
        push_hex_join(out, g, lo, hi - 1);
        push_str(out, ":");
        push_digits(out, g[hi - 1], 16);
        let ghost sub = gs.subrange(lo as int, hi as int);
        assert(sub.drop_last() =~= gs.subrange(lo as int, hi - 1));
        assert(sub.last() == g@[hi - 1] as nat);
        assert(final(out)@ =~= old(out)@ + hex_join(sub));
    }
}

/// An IPv6 address in text form, the longest zero run replaced by `::`.
pub fn format_ipv6(b: &[u8; 16]) -> (r: String)
    ensures
        r@ == spec_format_ipv6(b@),
{
    let mut g: Vec<u64> = Vec::new();
    let mut k: usize = 0;
    while k < 8
        invariant
            k <= 8,
            g.len() == k,
            forall|j: int| 0 <= j < k ==> g@[j] as nat == ipv6_groups(b@)[j],
        decreases 8 - k,
    {
        g.push((b[2 * k] as u64) * 256 + b[2 * k + 1] as u64);
        k += 1;
    }
    let ghost gs = g@.map_values(|x: u64| x as nat);
    assert(gs =~= ipv6_groups(b@));
    let mut best_start: usize = 0;
    let mut best_len: usize = 0;
    let mut i: usize = 0;
    while i < 8
        invariant
            i <= 8,
            g.len() == 8,
            gs == g@.map_values(|x: u64| x as nat),
            best_len == longest_run_before(gs, i as int),
            best_start == longest_run_start(gs, i as int),
        decreases 8 - i,
    {
        let mut n: usize = 0;
        while i + n < 8 && g[i + n] == 0
            invariant
                i < 8,
                i + n <= 8,
                g.len() == 8,
                gs == g@.map_values(|x: u64| x as nat),
                zero_run(gs, i as int) == n + zero_run(gs, (i + n) as int),
            decreases 8 - i - n,
        {
            n += 1;
        }
        assert(zero_run(gs, (i + n) as int) == 0);
        if n > best_len {
            best_len = n;
            best_start = i;
        }
        i += 1;
    }
    proof {
        lemma_longest_run(gs, 8);
        lemma_zero_run_bound(gs, best_start as int);
    }
    let mut out: Vec<char> = Vec::new();
    if best_len < 2 {
        push_hex_join(&mut out, &g, 0, 8);
        assert(gs.subrange(0, 8) =~= gs);
    } else {
        push_hex_join(&mut out, &g, 0, best_start);
        push_str(&mut out, "::");
        push_hex_join(&mut out, &g, best_start + best_len, 8);
        assert(gs.subrange(0, best_start as int) =~= gs.take(best_start as int));
        assert(gs.subrange((best_start + best_len) as int, 8) =~= gs.skip(
            (best_start + best_len) as int,
        ));
    }
    assert(out@ =~= spec_format_ipv6(b@));
    string_of(out.as_slice())
}

} // verus!

verus! {

// ---------- small readers ----------

/// `first_line`: the first line of a file's text, trimmed; `None` when the
/// file could not be read.
pub fn first_line(content: Option<&str>) -> (r: Option<String>)
    ensures
        match content {
            None => r is None,
            Some(c) => r matches Some(l) && l@ == spec_first_line(c@),
        },
{
    match content {
        None => None,
        Some(c) => {
            let l = first_line_of(c);
            Some(string_of(l.as_slice()))
        },
    }
}

/// `meminfo_kib`: in the text of /proc/meminfo, the first line starting with
/// `key`; its first word after the key, parsed as a number (kB).
pub open spec fn spec_meminfo_kib(meminfo: Seq<char>, key: Seq<char>) -> Option<u64> {
    match first_rest_after(spec_lines(meminfo), key) {
        None => None,
        Some(rest) => match first_word(rest) {
            None => None,
            Some(w) => spec_parse_u64(w),
        },
    }
}

/// A value in kB from the text of /proc/meminfo (`None` when it could not be
/// read, the key is absent, or its value is not a number).
pub fn meminfo_kib(meminfo: Option<&str>, key: &str) -> (r: Option<u64>)
    ensures
        r == match meminfo {
            None => None,
            Some(m) => spec_meminfo_kib(m@, key@),
        },
{
    match meminfo {
        None => None,
        Some(m) => {
            let v = chars_of(m);
            let ls = lines(v.as_slice());
            let k = chars_of(key);
            match first_rest_after_exec(&ls, k.as_slice()) {
                None => None,
                Some(rest) => match first_word_exec(rest.as_slice()) {
                    None => None,
                    Some(w) => parse_u64(w.as_slice()),
                },
            }
        },
    }
}

} // verus!

verus! {

/// A usage bar has exactly `width` cells (the filled ones never exceed the
/// width) and its percentage is at most 100.
pub proof fn lemma_bar_cells(used: nat, total: nat, width: nat)
    requires
        total > 0,
    ensures
        bar_filled(used, total, width) <= width,
        div_round_even(100 * bar_used(used, total), total) <= 100,
{
    let u = bar_used(used, total);
    assert((2 * u * width + total) / (2 * total) <= width) by (nonlinear_arith)
        requires
            u <= total,
            total > 0,
    ;
    let n = 100 * u;
    assert(n / total <= 100 && (n / total == 100 ==> n % total == 0)) by (nonlinear_arith)
        requires
            u <= total,
            total > 0,
            n == 100 * u,
    ;
}

} // verus!
