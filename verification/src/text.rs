//! Character-level building blocks shared by the formatters and parsers.
use vstd::prelude::*;

verus! {

broadcast use vstd::string::group_string_axioms;

/// The characters of a string slice, in order.
pub fn chars_of(s: &str) -> (v: Vec<char>)
    ensures
        v@ == s@,
{
    let mut v: Vec<char> = Vec::new();
    for c in it: s.chars()
        invariant
            v@ == it.seq().take(it.index() as int),
            it.seq() == s@,
    {
        v.push(c);
    }
    v
}

/// Appends one character to a `String` (`String::push`).
#[verifier::external_body]
pub(crate) fn push_char(s: &mut String, c: char)
    ensures
        final(s)@ == old(s)@.push(c),
{
    s.push(c);
}

/// A `String` holding exactly the given characters.
pub fn string_of(v: &[char]) -> (s: String)
    ensures
        s@ == v@,
{
    let mut s = String::new();
    let mut i: usize = 0;
    while i < v.len()
        invariant
            i <= v.len(),
            s@ == v@.take(i as int),
        decreases v.len() - i,
    {
        push_char(&mut s, v[i]);
        assert(v@.take(i as int).push(v@[i as int]) =~= v@.take(i + 1));
        i += 1;
    }
    assert(v@.take(v.len() as int) =~= v@);
    s
}

}

verus! {

/// Position of the first occurrence of `c` in `s`.
pub open spec fn find_char(s: Seq<char>, c: char) -> Option<int>
    decreases s.len(),
{
    if s.len() == 0 {
        None
    } else if s[0] == c {
        Some(0)
    } else {
        match find_char(s.drop_first(), c) {
            Some(i) => Some(i + 1),
            None => None,
        }
    }
}

/// A line with the carriage return of a `\r\n` ending removed.
pub open spec fn strip_cr(l: Seq<char>) -> Seq<char> {
    if l.len() > 0 && l.last() == '\r' {
        l.drop_last()
    } else {
        l
    }
}

/// The lines of a text as `str::lines` yields them: split at `\n`, a `\r`
/// just before the `\n` dropped, and no empty line after a final `\n`.
pub open spec fn spec_lines(s: Seq<char>) -> Seq<Seq<char>>
    decreases s.len(),
{
    if s.len() == 0 {
        seq![]
    } else {
        match find_char(s, '\n') {
            None => seq![s],
            Some(i) => if 0 <= i < s.len() {
                seq![strip_cr(s.take(i))] + spec_lines(s.skip(i + 1))
            } else {
                seq![]
            },
        }
    }
}

/// The character sequences held by a vector of character vectors.
pub open spec fn seq_views(v: Seq<Vec<char>>) -> Seq<Seq<char>> {
    v.map_values(|l: Vec<char>| l@)
}

/// `find_char` finds the first occurrence: position `k` when nothing
/// before it matches and it does (or nothing when `k` is the end).
pub proof fn lemma_find_char(s: Seq<char>, c: char, k: int)
    requires
        0 <= k <= s.len(),
        forall|j: int| 0 <= j < k ==> s[j] != c,
        k < s.len() ==> s[k] == c,
    ensures
        k < s.len() ==> find_char(s, c) == Some(k),
        k == s.len() ==> find_char(s, c) is None,
    decreases k,
{
    if k > 0 {
        lemma_find_char(s.drop_first(), c, k - 1);
    }
}

/// Splits a text into lines (`str::lines`).
pub fn lines(s: &[char]) -> (out: Vec<Vec<char>>)
    ensures
        seq_views(out@) == spec_lines(s@),
{
    let mut out: Vec<Vec<char>> = Vec::new();
    let mut cur: Vec<char> = Vec::new();
    let mut start: usize = 0;
    let mut i: usize = 0;
    assert(s@.skip(0) =~= s@);
    assert(seq_views(out@) + spec_lines(s@.skip(0)) =~= spec_lines(s@));
    while i < s.len()
        invariant
            start <= i <= s.len(),
            cur@ == s@.subrange(start as int, i as int),
            forall|j: int| start <= j < i ==> s@[j] != '\n',
            seq_views(out@) + spec_lines(s@.skip(start as int)) == spec_lines(s@),
        decreases s.len() - i,
    {
        let c = s[i];
        if c == '\n' {
            let ghost t = s@.skip(start as int);
            proof {
                lemma_find_char(t, '\n', i - start);
                assert(t.take(i - start) =~= cur@);
                assert(t.skip(i - start + 1) =~= s@.skip(i + 1));
            }
            let mut line = cur;
            let n = line.len();
            if n > 0 && line[n - 1] == '\r' {
                line.pop();
            }
            assert(line@ == strip_cr(t.take(i - start)));
            let ghost before = seq_views(out@);
            out.push(line);
            assert(seq_views(out@) =~= before.push(strip_cr(t.take(i - start))));
            assert(spec_lines(t) == seq![strip_cr(t.take(i - start))] + spec_lines(s@.skip(i + 1)));
            assert(seq_views(out@) + spec_lines(s@.skip(i + 1)) =~= before + spec_lines(t));
            cur = Vec::new();
            start = i + 1;
        } else {
            cur.push(c);
        }
        i += 1;
    }
    let ghost t = s@.skip(start as int);
    if start < s.len() {
        proof {
            lemma_find_char(t, '\n', t.len() as int);
            assert(t =~= cur@);
        }
        let ghost before = seq_views(out@);
        out.push(cur);
        assert(seq_views(out@) =~= before.push(t));
        assert(spec_lines(t) == seq![t]);
        assert(seq_views(out@) =~= before + spec_lines(t));
    } else {
        assert(t.len() == 0);
        assert(seq_views(out@) =~= seq_views(out@) + spec_lines(t));
    }
    out
}

}

verus! {

/// `char::is_whitespace`: the Unicode `White_Space` characters.
pub open spec fn is_ws(c: char) -> bool {
    let u = c as u32;
    ||| 9 <= u <= 13
    ||| u == 32
    ||| u == 0x85
    ||| u == 0xA0
    ||| u == 0x1680
    ||| 0x2000 <= u <= 0x200A
    ||| u == 0x2028
    ||| u == 0x2029
    ||| u == 0x202F
    ||| u == 0x205F
    ||| u == 0x3000
}

/// `char::is_whitespace`.
pub fn is_whitespace(c: char) -> (r: bool)
    ensures
        r == is_ws(c),
{
    let u = c as u32;
    (9 <= u && u <= 13) || u == 32 || u == 0x85 || u == 0xA0 || u == 0x1680 || (0x2000 <= u && u
        <= 0x200A) || u == 0x2028 || u == 0x2029 || u == 0x202F || u == 0x205F || u == 0x3000
}

/// `s` without its leading whitespace.
pub open spec fn trim_start_ws(s: Seq<char>) -> Seq<char>
    decreases s.len(),
{
    if s.len() > 0 && is_ws(s[0]) {
        trim_start_ws(s.drop_first())
    } else {
        s
    }
}

/// `s` without its trailing whitespace.
pub open spec fn trim_end_ws(s: Seq<char>) -> Seq<char>
    decreases s.len(),
{
    if s.len() > 0 && is_ws(s.last()) {
        trim_end_ws(s.drop_last())
    } else {
        s
    }
}

/// `str::trim`.
pub open spec fn trim_ws(s: Seq<char>) -> Seq<char> {
    trim_end_ws(trim_start_ws(s))
}

/// `s` without the leading copies of `c`.
pub open spec fn trim_start_ch(s: Seq<char>, c: char) -> Seq<char>
    decreases s.len(),
{
    if s.len() > 0 && s[0] == c {
        trim_start_ch(s.drop_first(), c)
    } else {
        s
    }
}

/// `s` without the trailing copies of `c`.
pub open spec fn trim_end_ch(s: Seq<char>, c: char) -> Seq<char>
    decreases s.len(),
{
    if s.len() > 0 && s.last() == c {
        trim_end_ch(s.drop_last(), c)
    } else {
        s
    }
}

/// `str::trim_matches(c)`.
pub open spec fn trim_ch(s: Seq<char>, c: char) -> Seq<char> {
    trim_end_ch(trim_start_ch(s, c), c)
}

/// Dropping `k` leading whitespace characters up to a non-whitespace one
/// is `trim_start_ws`.
pub proof fn lemma_trim_start_ws(s: Seq<char>, k: int)
    requires
        0 <= k <= s.len(),
        forall|j: int| 0 <= j < k ==> is_ws(s[j]),
        k < s.len() ==> !is_ws(s[k]),
    ensures
        trim_start_ws(s) == s.skip(k),
    decreases k,
{
    if k > 0 {
        lemma_trim_start_ws(s.drop_first(), k - 1);
        assert(s.drop_first().skip(k - 1) =~= s.skip(k));
    } else {
        assert(s.skip(0) =~= s);
    }
}

/// Keeping the first `k` characters when all after them are whitespace
/// and the last kept one is not is `trim_end_ws`.
pub proof fn lemma_trim_end_ws(s: Seq<char>, k: int)
    requires
        0 <= k <= s.len(),
        forall|j: int| k <= j < s.len() ==> is_ws(s[j]),
        k > 0 ==> !is_ws(s[k - 1]),
    ensures
        trim_end_ws(s) == s.take(k),
    decreases s.len() - k,
{
    if k < s.len() {
        lemma_trim_end_ws(s.drop_last(), k);
        assert(s.drop_last().take(k) =~= s.take(k));
    } else {
        assert(s.take(k) =~= s);
    }
}

/// Dropping `k` leading copies of `c` up to another character is
/// `trim_start_ch`.
pub proof fn lemma_trim_start_ch(s: Seq<char>, c: char, k: int)
    requires
        0 <= k <= s.len(),
        forall|j: int| 0 <= j < k ==> s[j] == c,
        k < s.len() ==> s[k] != c,
    ensures
        trim_start_ch(s, c) == s.skip(k),
    decreases k,
{
    if k > 0 {
        lemma_trim_start_ch(s.drop_first(), c, k - 1);
        assert(s.drop_first().skip(k - 1) =~= s.skip(k));
    } else {
        assert(s.skip(0) =~= s);
    }
}

/// Keeping the first `k` characters when all after them are `c` and the
/// last kept one is not is `trim_end_ch`.
pub proof fn lemma_trim_end_ch(s: Seq<char>, c: char, k: int)
    requires
        0 <= k <= s.len(),
        forall|j: int| k <= j < s.len() ==> s[j] == c,
        k > 0 ==> s[k - 1] != c,
    ensures
        trim_end_ch(s, c) == s.take(k),
    decreases s.len() - k,
{
    if k < s.len() {
        lemma_trim_end_ch(s.drop_last(), c, k);
        assert(s.drop_last().take(k) =~= s.take(k));
    } else {
        assert(s.take(k) =~= s);
    }
}

/// The characters `s[lo..hi]` as a vector.
pub fn slice_vec(s: &[char], lo: usize, hi: usize) -> (v: Vec<char>)
    requires
        lo <= hi <= s.len(),
    ensures
        v@ == s@.subrange(lo as int, hi as int),
{
    let mut v: Vec<char> = Vec::new();
    let mut i = lo;
    while i < hi
        invariant
            lo <= i <= hi <= s.len(),
            v@ == s@.subrange(lo as int, i as int),
        decreases hi - i,
    {
        v.push(s[i]);
        assert(v@ =~= s@.subrange(lo as int, i + 1));
        i += 1;
    }
    v
}

/// `str::trim`: whitespace removed at both ends.
pub fn trim(s: &[char]) -> (r: Vec<char>)
    ensures
        r@ == trim_ws(s@),
{
    let mut a: usize = 0;
    while a < s.len() && is_whitespace(s[a])
        invariant
            a <= s.len(),
            forall|j: int| 0 <= j < a ==> is_ws(s@[j]),
        decreases s.len() - a,
    {
        a += 1;
    }
    proof {
        lemma_trim_start_ws(s@, a as int);
    }
    let mut b: usize = s.len();
    while b > a && is_whitespace(s[b - 1])
        invariant
            a <= b <= s.len(),
            forall|j: int| b <= j < s.len() ==> is_ws(s@[j]),
        decreases b,
    {
        b -= 1;
    }
    let ghost t = s@.skip(a as int);
    proof {
        if b == a && a < s.len() {
            assert(!is_ws(s@[a as int]));
        }
        lemma_trim_end_ws(t, b - a);
        assert(t.take(b - a) =~= s@.subrange(a as int, b as int));
    }
    slice_vec(s, a, b)
}

/// `str::trim_matches(c)`: copies of `c` removed at both ends.
pub fn trim_matches(s: &[char], c: char) -> (r: Vec<char>)
    ensures
        r@ == trim_ch(s@, c),
{
    let mut a: usize = 0;
    while a < s.len() && s[a] == c
        invariant
            a <= s.len(),
            forall|j: int| 0 <= j < a ==> s@[j] == c,
        decreases s.len() - a,
    {
        a += 1;
    }
    proof {
        lemma_trim_start_ch(s@, c, a as int);
    }
    let mut b: usize = s.len();
    while b > a && s[b - 1] == c
        invariant
            a <= b <= s.len(),
            forall|j: int| b <= j < s.len() ==> s@[j] == c,
        decreases b,
    {
        b -= 1;
    }
    let ghost t = s@.skip(a as int);
    proof {
        lemma_trim_end_ch(t, c, b - a);
        assert(t.take(b - a) =~= s@.subrange(a as int, b as int));
    }
    slice_vec(s, a, b)
}

/// `s` with the trailing copies of `c` removed (`str::trim_end_matches`).
pub fn trim_end_matches(s: &[char], c: char) -> (r: Vec<char>)
    ensures
        r@ == trim_end_ch(s@, c),
{
    let mut b: usize = s.len();
    while b > 0 && s[b - 1] == c
        invariant
            b <= s.len(),
            forall|j: int| b <= j < s.len() ==> s@[j] == c,
        decreases b,
    {
        b -= 1;
    }
    proof {
        lemma_trim_end_ch(s@, c, b as int);
    }
    slice_vec(s, 0, b)
}

}

verus! {

/// Length of the run of non-whitespace characters that starts `s`.
pub open spec fn token_len(s: Seq<char>) -> nat
    decreases s.len(),
{
    if s.len() == 0 || is_ws(s[0]) {
        0
    } else {
        1 + token_len(s.drop_first())
    }
}

/// `str::split_whitespace`: the maximal runs of non-whitespace characters.
pub open spec fn spec_words(s: Seq<char>) -> Seq<Seq<char>>
    decreases s.len(),
{
    let t = trim_start_ws(s);
    if t.len() == 0 {
        seq![]
    } else {
        let n = token_len(t);
        if 0 < n <= t.len() && t.len() <= s.len() {
            seq![t.take(n as int)] + spec_words(t.skip(n as int))
        } else {
            seq![]
        }
    }
}

/// `k` non-whitespace characters followed by whitespace (or the end) make
/// a token of length `k`.
pub proof fn lemma_token_len(s: Seq<char>, k: int)
    requires
        0 <= k <= s.len(),
        forall|j: int| 0 <= j < k ==> !is_ws(s[j]),
        k < s.len() ==> is_ws(s[k]),
    ensures
        token_len(s) == k,
    decreases k,
{
    if k > 0 {
        lemma_token_len(s.drop_first(), k - 1);
    }
}

/// Splits a text at whitespace (`str::split_whitespace`).
pub fn words(s: &[char]) -> (out: Vec<Vec<char>>)
    ensures
        seq_views(out@) == spec_words(s@),
{
    let mut out: Vec<Vec<char>> = Vec::new();
    let mut pos: usize = 0;
    assert(s@.skip(0) =~= s@);
    assert(seq_views(out@) + spec_words(s@.skip(0)) =~= spec_words(s@));
    while pos < s.len()
        invariant
            pos <= s.len(),
            seq_views(out@) + spec_words(s@.skip(pos as int)) == spec_words(s@),
        decreases s.len() - pos,
    {
        let ghost u = s@.skip(pos as int);
        let mut a = pos;
        while a < s.len() && is_whitespace(s[a])
            invariant
                pos <= a <= s.len(),
                forall|j: int| pos <= j < a ==> is_ws(s@[j]),
            decreases s.len() - a,
        {
            a += 1;
        }
        proof {
            lemma_trim_start_ws(u, a - pos);
            assert(u.skip(a - pos) =~= s@.skip(a as int));
        }
        if a == s.len() {
            assert(spec_words(u) =~= Seq::<Seq<char>>::empty());
            assert(s@.skip(a as int).len() == 0);
            assert(seq_views(out@) + spec_words(s@.skip(a as int)) =~= seq_views(out@)
                + spec_words(u));
            pos = a;
        } else {
            let mut b = a;
            while b < s.len() && !is_whitespace(s[b])
                invariant
                    a <= b <= s.len(),
                    forall|j: int| a <= j < b ==> !is_ws(s@[j]),
                decreases s.len() - b,
            {
                b += 1;
            }
            let ghost t = s@.skip(a as int);
            proof {
                lemma_token_len(t, b - a);
                assert(t.take(b - a) =~= s@.subrange(a as int, b as int));
                assert(t.skip(b - a) =~= s@.skip(b as int));
            }
            let w = slice_vec(s, a, b);
            let ghost before = seq_views(out@);
            out.push(w);
            assert(seq_views(out@) =~= before.push(s@.subrange(a as int, b as int)));
            assert(spec_words(u) == seq![t.take(b - a)] + spec_words(t.skip(b - a)));
            assert(seq_views(out@) + spec_words(s@.skip(b as int)) =~= before + spec_words(u));
            pos = b;
        }
    }
    assert(s@.skip(pos as int).len() == 0);
    assert(seq_views(out@) =~= seq_views(out@) + spec_words(s@.skip(pos as int)));
    out
}

// ---------- decimal and hexadecimal digits ----------

/// The ASCII character of a digit value in base 16 (lower case).
pub open spec fn digit_char(d: int) -> char {
    if d == 0 { '0' }
    else if d == 1 { '1' }
    else if d == 2 { '2' }
    else if d == 3 { '3' }
    else if d == 4 { '4' }
    else if d == 5 { '5' }
    else if d == 6 { '6' }
    else if d == 7 { '7' }
    else if d == 8 { '8' }
    else if d == 9 { '9' }
    else if d == 10 { 'a' }
    else if d == 11 { 'b' }
    else if d == 12 { 'c' }
    else if d == 13 { 'd' }
    else if d == 14 { 'e' }
    else { 'f' }
}

/// The digit character of a value below 16.
pub fn digit(d: u64) -> (c: char)
    requires
        d < 16,
    ensures
        c == digit_char(d as int),
{
    if d == 0 { '0' }
    else if d == 1 { '1' }
    else if d == 2 { '2' }
    else if d == 3 { '3' }
    else if d == 4 { '4' }
    else if d == 5 { '5' }
    else if d == 6 { '6' }
    else if d == 7 { '7' }
    else if d == 8 { '8' }
    else if d == 9 { '9' }
    else if d == 10 { 'a' }
    else if d == 11 { 'b' }
    else if d == 12 { 'c' }
    else if d == 13 { 'd' }
    else if d == 14 { 'e' }
    else { 'f' }
}

/// The digits of `n` in base `b` (2 <= b <= 16), most significant first,
/// with no leading zeros (`0` is written `"0"`): Rust's `{}` and `{:x}`.
pub open spec fn spec_digits(n: nat, b: nat) -> Seq<char>
    decreases n,
{
    if b < 2 || n < b {
        seq![digit_char(n as int)]
    } else {
        proof {
            assert(n / b < n) by (nonlinear_arith)
                requires
                    b >= 2,
                    n >= b,
            ;
        }
        spec_digits(n / b, b).push(digit_char((n % b) as int))
    }
}

/// Decimal rendering of `n` (`{}`).
pub open spec fn spec_dec(n: nat) -> Seq<char> {
    spec_digits(n, 10)
}

/// Lower-case hexadecimal rendering of `n` (`{:x}`).
pub open spec fn spec_hex(n: nat) -> Seq<char> {
    spec_digits(n, 16)
}

/// `s` left-padded with `'0'` to at least `w` characters (`{:0w}`).
pub open spec fn zero_pad(s: Seq<char>, w: nat) -> Seq<char> {
    if s.len() < w {
        Seq::new((w - s.len()) as nat, |i: int| '0') + s
    } else {
        s
    }
}

/// `s` right-padded with spaces to at least `w` characters (`{:<w}`).
pub open spec fn pad_right(s: Seq<char>, w: nat) -> Seq<char> {
    if s.len() < w {
        s + Seq::new((w - s.len()) as nat, |i: int| ' ')
    } else {
        s
    }
}

/// `s` left-padded with spaces to at least `w` characters (`{:>w}`).
pub open spec fn pad_left(s: Seq<char>, w: nat) -> Seq<char> {
    if s.len() < w {
        Seq::new((w - s.len()) as nat, |i: int| ' ') + s
    } else {
        s
    }
}

/// Appends the base-`b` digits of `n` to `out`.
pub fn push_digits(out: &mut Vec<char>, n: u64, b: u64)
    requires
        2 <= b <= 16,
    ensures
        final(out)@ == old(out)@ + spec_digits(n as nat, b as nat),
    decreases n,
{
    if n < b {
        out.push(digit(n));
        assert(spec_digits(n as nat, b as nat) == seq![digit_char(n as int)]);
        assert(final(out)@ =~= old(out)@ + seq![digit_char(n as int)]);
    } else {
        assert(n / b < n) by (nonlinear_arith)
            requires
                b >= 2,
                n >= b,
        ;
        push_digits(out, n / b, b);
        let ghost mid = out@;
        out.push(digit(n % b));
        assert(final(out)@ =~= old(out)@ + spec_digits((n / b) as nat, b as nat).push(
            digit_char((n % b) as int),
        ));
    }
}

/// Appends `s` to `out`.
pub fn push_all(out: &mut Vec<char>, s: &[char])
    ensures
        final(out)@ == old(out)@ + s@,
{
    let mut i: usize = 0;
    while i < s.len()
        invariant
            i <= s.len(),
            out@ == old(out)@ + s@.take(i as int),
        decreases s.len() - i,
    {
        out.push(s[i]);
        assert(out@ =~= old(out)@ + s@.take(i + 1));
        i += 1;
    }
    assert(s@.take(s.len() as int) =~= s@);
}

/// Appends the characters of `s` to `out`.
pub fn push_str(out: &mut Vec<char>, s: &str)
    ensures
        final(out)@ == old(out)@ + s@,
{
    let v = chars_of(s);
    push_all(out, v.as_slice());
}

/// Appends `n` copies of `c` to `out`.
pub fn push_repeat(out: &mut Vec<char>, c: char, n: usize)
    ensures
        final(out)@ == old(out)@ + Seq::new(n as nat, |i: int| c),
{
    let mut i: usize = 0;
    while i < n
        invariant
            i <= n,
            out@ == old(out)@ + Seq::new(i as nat, |j: int| c),
        decreases n - i,
    {
        out.push(c);
        assert(out@ =~= old(out)@ + Seq::new((i + 1) as nat, |j: int| c));
        i += 1;
    }
}

/// Decimal rendering of `n`, as characters.
pub fn dec(n: u64) -> (v: Vec<char>)
    ensures
        v@ == spec_dec(n as nat),
{
    let mut v = Vec::new();
    push_digits(&mut v, n, 10);
    assert(v@ =~= spec_dec(n as nat));
    v
}

/// Lower-case hexadecimal rendering of `n`, as characters.
pub fn hex(n: u64) -> (v: Vec<char>)
    ensures
        v@ == spec_hex(n as nat),
{
    let mut v = Vec::new();
    push_digits(&mut v, n, 16);
    assert(v@ =~= spec_hex(n as nat));
    v
}

/// Appends `s` left-padded with zeros to width `w`.
pub fn push_zero_padded(out: &mut Vec<char>, s: &[char], w: usize)
    ensures
        final(out)@ == old(out)@ + zero_pad(s@, w as nat),
{
    if s.len() < w {
        push_repeat(out, '0', w - s.len());
    }
    push_all(out, s);
    assert(final(out)@ =~= old(out)@ + zero_pad(s@, w as nat));
}

/// Appends `s` right-padded with spaces to width `w`.
pub fn push_padded_right(out: &mut Vec<char>, s: &[char], w: usize)
    ensures
        final(out)@ == old(out)@ + pad_right(s@, w as nat),
{
    push_all(out, s);
    if s.len() < w {
        push_repeat(out, ' ', w - s.len());
    }
    assert(final(out)@ =~= old(out)@ + pad_right(s@, w as nat));
}

/// Appends `s` left-padded with spaces to width `w`.
pub fn push_padded_left(out: &mut Vec<char>, s: &[char], w: usize)
    ensures
        final(out)@ == old(out)@ + pad_left(s@, w as nat),
{
    if s.len() < w {
        push_repeat(out, ' ', w - s.len());
    }
    push_all(out, s);
    assert(final(out)@ =~= old(out)@ + pad_left(s@, w as nat));
}

}

verus! {

// ---------- substrings ----------

/// `p` occurs in `s` starting at position `i`.
pub open spec fn occurs_at(s: Seq<char>, p: Seq<char>, i: int) -> bool {
    0 <= i && i + p.len() <= s.len() && s.subrange(i, i + p.len()) == p
}

/// The first position at or after `i` where `p` occurs in `s`.
pub open spec fn find_from(s: Seq<char>, p: Seq<char>, i: int) -> Option<int>
    decreases s.len() + 1 - i,
{
    if i < 0 || i + p.len() > s.len() {
        None
    } else if occurs_at(s, p, i) {
        Some(i)
    } else {
        find_from(s, p, i + 1)
    }
}

/// `str::find`: the first position of `p` in `s`.
pub open spec fn spec_find(s: Seq<char>, p: Seq<char>) -> Option<int> {
    find_from(s, p, 0)
}

/// The last position at or before `i` where `p` occurs in `s`.
pub open spec fn rfind_from(s: Seq<char>, p: Seq<char>, i: int) -> Option<int>
    decreases i + 1,
{
    if i < 0 {
        None
    } else if occurs_at(s, p, i) {
        Some(i)
    } else {
        rfind_from(s, p, i - 1)
    }
}

/// `str::rfind`: the last position of `p` in `s`.
pub open spec fn spec_rfind(s: Seq<char>, p: Seq<char>) -> Option<int> {
    rfind_from(s, p, s.len() - p.len())
}

/// Number of non-overlapping occurrences of a non-empty `p` in `s` from
/// position `i` on, scanning left to right (`str::matches(p).count()`).
pub open spec fn count_from(s: Seq<char>, p: Seq<char>, i: int) -> nat
    decreases s.len() + 1 - i,
{
    if p.len() == 0 || i < 0 {
        0
    } else {
        match find_from(s, p, i) {
            None => 0,
            Some(j) => if i <= j && j + p.len() <= s.len() {
                1 + count_from(s, p, j + p.len())
            } else {
                0
            },
        }
    }
}

/// `find_from` reports the first occurrence at or after `i`, and none
/// when there is none.
pub proof fn lemma_find_from_bounds(s: Seq<char>, p: Seq<char>, i: int)
    requires
        0 <= i,
    ensures
        find_from(s, p, i) matches Some(j) ==> i <= j && occurs_at(s, p, j)
            && forall|k: int| i <= k < j ==> !occurs_at(s, p, k),
        find_from(s, p, i) is None ==> forall|k: int| i <= k ==> !occurs_at(s, p, k),
    decreases s.len() + 1 - i,
{
    if i < 0 || i + p.len() > s.len() {
    } else if occurs_at(s, p, i) {
    } else {
        lemma_find_from_bounds(s, p, i + 1);
    }
}

/// Whether `p` occurs in `s` at position `i`.
pub fn matches_at(s: &[char], p: &[char], i: usize) -> (r: bool)
    ensures
        r == occurs_at(s@, p@, i as int),
{
    if i > s.len() || p.len() > s.len() - i {
        return false;
    }
    let mut k: usize = 0;
    while k < p.len()
        invariant
            i + p.len() <= s.len(),
            k <= p.len(),
            forall|j: int| 0 <= j < k ==> s@[i + j] == p@[j],
        decreases p.len() - k,
    {
        if s[i + k] != p[k] {
            assert(s@.subrange(i as int, i + p.len())[k as int] != p@[k as int]);
            return false;
        }
        k += 1;
    }
    assert(s@.subrange(i as int, i + p.len()) =~= p@);
    true
}

/// The first position at or after `i` where `p` occurs in `s`.
pub fn find_from_exec(s: &[char], p: &[char], i: usize) -> (r: Option<usize>)
    ensures
        r matches Some(j) ==> find_from(s@, p@, i as int) == Some(j as int),
        r is None ==> find_from(s@, p@, i as int) is None,
{
    let mut k = i;
    while k <= s.len() && p.len() <= s.len() - k
        invariant
            i <= k,
            find_from(s@, p@, k as int) == find_from(s@, p@, i as int),
        decreases s.len() + 1 - k,
    {
        if matches_at(s, p, k) {
            return Some(k);
        }
        if k == s.len() {
            assert(find_from(s@, p@, k + 1) is None);
            return None;
        }
        k += 1;
    }
    None
}

/// The last position where `p` occurs in `s` (`str::rfind`).
pub fn rfind(s: &[char], p: &[char]) -> (r: Option<usize>)
    ensures
        r matches Some(j) ==> spec_rfind(s@, p@) == Some(j as int),
        r is None ==> spec_rfind(s@, p@) is None,
{
    if p.len() > s.len() {
        return None;
    }
    let mut k: usize = s.len() - p.len();
    loop
        invariant
            k + p.len() <= s.len(),
            rfind_from(s@, p@, k as int) == spec_rfind(s@, p@),
        decreases k,
    {
        if matches_at(s, p, k) {
            return Some(k);
        }
        if k == 0 {
            assert(rfind_from(s@, p@, -1) is None);
            return None;
        }
        k -= 1;
    }
}

/// Whether `p` is a prefix of `s`.
pub fn starts_with(s: &[char], p: &[char]) -> (r: bool)
    ensures
        r == p@.is_prefix_of(s@),
{
    let r = matches_at(s, p, 0);
    assert(r == occurs_at(s@, p@, 0));
    proof {
        if r {
            assert(s@.subrange(0, p@.len() as int) == p@);
        }
        if p@.is_prefix_of(s@) {
            assert(s@.subrange(0, p@.len() as int) =~= p@);
        }
    }
    r
}

/// Whether `p` occurs anywhere in `s` (`str::contains`).
pub fn contains(s: &[char], p: &[char]) -> (r: bool)
    ensures
        r == (spec_find(s@, p@) is Some),
{
    find_from_exec(s, p, 0).is_some()
}

/// Number of non-overlapping occurrences of `p` in `s` (`str::matches(p).count()`).
pub fn count_matches(s: &[char], p: &[char]) -> (n: usize)
    requires
        p.len() > 0,
    ensures
        n == count_from(s@, p@, 0),
{
    let mut n: usize = 0;
    let mut i: usize = 0;
    loop
        invariant
            p.len() > 0,
            i <= s.len() + p.len(),
            n <= i,
            n + count_from(s@, p@, i as int) == count_from(s@, p@, 0),
        decreases s.len() + p.len() - i,
    {
        if i > s.len() {
            proof { lemma_find_from_bounds(s@, p@, i as int); }
            assert(find_from(s@, p@, i as int) is None);
            return n;
        }
        match find_from_exec(s, p, i) {
            None => {
                return n;
            },
            Some(j) => {
                proof { lemma_find_from_bounds(s@, p@, i as int); }
                n += 1;
                i = j + p.len();
            },
        }
    }
}

// ---------- numbers ----------

/// An ASCII decimal digit.
pub open spec fn is_digit(c: char) -> bool {
    '0' <= c <= '9'
}

/// The value of a sequence of decimal digits.
pub open spec fn digits_value(s: Seq<char>) -> nat
    decreases s.len(),
{
    if s.len() == 0 {
        0
    } else {
        digits_value(s.drop_last()) * 10 + ((s.last() as u32) - 48) as nat
    }
}

/// The digits of a number text: without the optional leading `+`.
pub open spec fn sign_stripped(s: Seq<char>) -> Seq<char> {
    if s.len() > 0 && s[0] == '+' {
        s.drop_first()
    } else {
        s
    }
}

/// Every character is an ASCII decimal digit.
pub open spec fn all_digits(d: Seq<char>) -> bool {
    forall|i: int| 0 <= i < d.len() ==> is_digit(#[trigger] d[i])
}

/// `str::parse::<u64>`: an optional `+` then one or more decimal digits
/// whose value fits in a `u64`.
pub open spec fn spec_parse_u64(s: Seq<char>) -> Option<u64> {
    let d = sign_stripped(s);
    if d.len() > 0 && all_digits(d) && digits_value(d) <= u64::MAX {
        Some(digits_value(d) as u64)
    } else {
        None
    }
}

/// A prefix of a digit string has no larger value.
pub proof fn lemma_digits_value_mono(d: Seq<char>, k: int)
    requires
        0 <= k <= d.len(),
        forall|i: int| 0 <= i < d.len() ==> is_digit(#[trigger] d[i]),
    ensures
        digits_value(d.take(k)) <= digits_value(d),
    decreases d.len() - k,
{
    if k < d.len() {
        lemma_digits_value_mono(d.drop_last(), k);
        assert(d.drop_last().take(k) =~= d.take(k));
    } else {
        assert(d.take(k) =~= d);
    }
}

/// Parses a decimal `u64` as `str::parse::<u64>` does.
pub fn parse_u64(s: &[char]) -> (r: Option<u64>)
    ensures
        r == spec_parse_u64(s@),
{
    let start: usize = if s.len() > 0 && s[0] == '+' { 1 } else { 0 };
    let ghost d = sign_stripped(s@);
    assert(d =~= s@.skip(start as int));
    if start == s.len() {
        return None;
    }
    let mut v: u64 = 0;
    let mut i = start;
    while i < s.len()
        invariant
            start <= i <= s.len(),
            d == s@.skip(start as int),
            d == sign_stripped(s@),
            forall|j: int| 0 <= j < i - start ==> is_digit(#[trigger] d[j]),
            v as nat == digits_value(d.take(i - start)),
        decreases s.len() - i,
    {
        let c = s[i];
        assert(d[i - start] == c);
        if !('0' <= c && c <= '9') {
            assert(!is_digit(d[i - start]));
            assert(!all_digits(d));
            return None;
        }
        let dv = (c as u32 - 48) as u64;
        assert(d.take(i - start + 1).drop_last() =~= d.take(i - start));
        if v > 1844674407370955161 || (v == 1844674407370955161 && dv > 5) {
            proof {
                let e = d.take(i - start + 1);
                assert(e.last() == c);
                assert(e.drop_last() =~= d.take(i - start));
                assert(digits_value(e) == v * 10 + dv);
                assert(digits_value(e) > u64::MAX);
                if all_digits(d) {
                    lemma_digits_value_mono(d, i - start + 1);
                    assert(digits_value(d) > u64::MAX);
                }
            }
            return None;
        }
        v = v * 10 + dv;
        i += 1;
    }
    assert(d.take(i - start) =~= d);
    Some(v)
}

}

verus! {

/// What follows `p` on the first of `ls` that starts with `p`
/// (`lines().find_map(|l| l.strip_prefix(p))`).
pub open spec fn first_rest_after(ls: Seq<Seq<char>>, p: Seq<char>) -> Option<Seq<char>>
    decreases ls.len(),
{
    if ls.len() == 0 {
        None
    } else if p.is_prefix_of(ls[0]) {
        Some(ls[0].skip(p.len() as int))
    } else {
        first_rest_after(ls.drop_first(), p)
    }
}

/// The first line of `ls` that starts with `p`, with `p` removed.
pub fn first_rest_after_exec(ls: &Vec<Vec<char>>, p: &[char]) -> (r: Option<Vec<char>>)
    ensures
        r matches Some(v) ==> first_rest_after(seq_views(ls@), p@) == Some(v@),
        r is None ==> first_rest_after(seq_views(ls@), p@) is None,
{
    let ghost all = seq_views(ls@);
    let mut i: usize = 0;
    assert(all.skip(0) =~= all);
    while i < ls.len()
        invariant
            i <= ls.len(),
            all == seq_views(ls@),
            first_rest_after(all.skip(i as int), p@) == first_rest_after(all, p@),
        decreases ls.len() - i,
    {
        let l = &ls[i];
        assert(all.skip(i as int)[0] == l@);
        if starts_with(l.as_slice(), p) {
            let rest = slice_vec(l.as_slice(), p.len(), l.len());
            assert(rest@ =~= l@.skip(p@.len() as int));
            return Some(rest);
        }
        assert(all.skip(i as int).drop_first() =~= all.skip(i + 1));
        i += 1;
    }
    assert(all.skip(i as int).len() == 0);
    None
}

/// The first word of `s`, if any.
pub open spec fn first_word(s: Seq<char>) -> Option<Seq<char>> {
    if spec_words(s).len() > 0 {
        Some(spec_words(s)[0])
    } else {
        None
    }
}

/// The first line of a text, trimmed (`""` for an empty text).
pub open spec fn spec_first_line(s: Seq<char>) -> Seq<char> {
    if spec_lines(s).len() > 0 {
        trim_ws(spec_lines(s)[0])
    } else {
        trim_ws(Seq::empty())
    }
}

/// The first line of a text, trimmed.
pub fn first_line_of(s: &str) -> (r: Vec<char>)
    ensures
        r@ == spec_first_line(s@),
{
    let v = chars_of(s);
    let ls = lines(v.as_slice());
    assert(seq_views(ls@).len() == ls@.len());
    if ls.len() > 0 {
        assert(seq_views(ls@)[0] == ls@[0]@);
        trim(ls[0].as_slice())
    } else {
        let e: Vec<char> = Vec::new();
        trim(e.as_slice())
    }
}

/// The first whitespace-separated word of `s`.
pub fn first_word_exec(s: &[char]) -> (r: Option<Vec<char>>)
    ensures
        r matches Some(w) ==> first_word(s@) == Some(w@),
        r is None ==> first_word(s@) is None,
{
    let mut ws = words(s);
    assert(seq_views(ws@).len() == ws@.len());
    if ws.len() > 0 {
        assert(seq_views(ws@)[0] == ws@[0]@);
        Some(ws.swap_remove(0))
    } else {
        None
    }
}

}

verus! {

/// The parts of `ws` joined with `sep` between them (`[T]::join`).
pub open spec fn join_with(ws: Seq<Seq<char>>, sep: Seq<char>) -> Seq<char>
    decreases ws.len(),
{
    if ws.len() == 0 {
        Seq::empty()
    } else if ws.len() == 1 {
        ws[0]
    } else {
        join_with(ws.drop_last(), sep) + sep + ws.last()
    }
}

/// Joins `ws[lo..hi]` with `sep` between them.
pub fn join_range(ws: &Vec<Vec<char>>, lo: usize, hi: usize, sep: &[char]) -> (r: Vec<char>)
    requires
        lo <= hi <= ws.len(),
    ensures
        r@ == join_with(seq_views(ws@).subrange(lo as int, hi as int), sep@),
{
    let ghost all = seq_views(ws@);
    let mut out: Vec<char> = Vec::new();
    let mut i = lo;
    assert(all.subrange(lo as int, lo as int).len() == 0);
    while i < hi
        invariant
            lo <= i <= hi <= ws.len(),
            all == seq_views(ws@),
            out@ == join_with(all.subrange(lo as int, i as int), sep@),
        decreases hi - i,
    {
        let ghost before = all.subrange(lo as int, i as int);
        if i > lo {
            push_all(&mut out, sep);
        }
        push_all(&mut out, ws[i].as_slice());
        let ghost after = all.subrange(lo as int, i + 1);
        assert(after.drop_last() =~= before);
        assert(after.last() == ws@[i as int]@);
        if i == lo {
            assert(after =~= seq![ws@[i as int]@]);
        }
        assert(out@ =~= join_with(after, sep@));
        i += 1;
    }
    out
}

/// An ASCII letter or digit (`char::is_ascii_alphanumeric`).
pub open spec fn is_ascii_alnum(c: char) -> bool {
    ('0' <= c <= '9') || ('a' <= c <= 'z') || ('A' <= c <= 'Z')
}

/// `char::to_ascii_lowercase`.
pub open spec fn ascii_lower(c: char) -> char {
    if 'A' <= c <= 'Z' {
        ((c as u32) + 32) as char
    } else {
        c
    }
}

/// Decimal text is a non-empty digit string whose value is the number.
pub proof fn lemma_dec_is_digits(n: nat)
    ensures
        all_digits(spec_dec(n)),
        spec_dec(n).len() > 0,
        digits_value(spec_dec(n)) == n,
        spec_dec(n)[0] != '+',
    decreases n,
{
    lemma_digit_char_value((n % 10) as int);
    let s = spec_dec(n);
    if n >= 10 {
        lemma_dec_is_digits(n / 10);
        assert(s.drop_last() =~= spec_dec(n / 10));
        assert(s[0] == spec_dec(n / 10)[0]);
        assert(s.last() == digit_char((n % 10) as int));
        assert(digits_value(s) == digits_value(s.drop_last()) * 10 + (n % 10));
    } else {
        assert(s.drop_last() =~= Seq::<char>::empty());
        assert(s.last() == digit_char((n % 10) as int));
        assert(digits_value(s) == digits_value(s.drop_last()) * 10 + (n % 10));
    }
}

/// The character of a decimal digit is that digit.
pub proof fn lemma_digit_char_value(d: int)
    requires
        0 <= d < 10,
    ensures
        digit_char(d) as u32 == 48 + d,
        is_digit(digit_char(d)),
{
}

/// Decimal text parses back to the number it was written from.
pub proof fn lemma_parse_dec(n: u64)
    ensures
        spec_parse_u64(spec_dec(n as nat)) == Some(n),
{
    lemma_dec_is_digits(n as nat);
}

}

verus! {

// ---------- ordering ----------

/// Lexicographic order on texts by code point, the order of `str`'s `<`
/// (UTF-8 byte order and code point order agree).
pub open spec fn lex_lt(a: Seq<char>, b: Seq<char>) -> bool
    decreases a.len(),
{
    if a.len() == 0 {
        b.len() > 0
    } else if b.len() == 0 {
        false
    } else if (a[0] as u32) < (b[0] as u32) {
        true
    } else if a[0] == b[0] {
        lex_lt(a.drop_first(), b.drop_first())
    } else {
        false
    }
}

/// `lex_lt` is irreflexive and asymmetric.
pub proof fn lemma_lex_asym(a: Seq<char>, b: Seq<char>)
    ensures
        !lex_lt(a, a),
        lex_lt(a, b) ==> !lex_lt(b, a),
    decreases a.len(),
{
    if a.len() > 0 {
        lemma_lex_asym(a.drop_first(), a.drop_first());
        if b.len() > 0 {
            lemma_lex_asym(a.drop_first(), b.drop_first());
        }
    }
}

/// `lex_lt` is transitive.
pub proof fn lemma_lex_trans(a: Seq<char>, b: Seq<char>, c: Seq<char>)
    requires
        lex_lt(a, b),
        lex_lt(b, c),
    ensures
        lex_lt(a, c),
    decreases a.len(),
{
    if a.len() > 0 && b.len() > 0 && c.len() > 0 && a[0] == b[0] && b[0] == c[0] {
        lemma_lex_trans(a.drop_first(), b.drop_first(), c.drop_first());
    }
}

/// Two different texts are ordered one way or the other.
pub proof fn lemma_lex_total(a: Seq<char>, b: Seq<char>)
    requires
        a != b,
    ensures
        lex_lt(a, b) || lex_lt(b, a),
    decreases a.len(),
{
    if a.len() > 0 && b.len() > 0 && a[0] == b[0] {
        if a.drop_first() == b.drop_first() {
            assert(a =~= seq![a[0]] + a.drop_first());
            assert(b =~= seq![b[0]] + b.drop_first());
        }
        lemma_lex_total(a.drop_first(), b.drop_first());
    } else if a.len() > 0 && b.len() > 0 {
        vstd::utf8::char_u32_cast(a[0], a[0] as u32);
        vstd::utf8::char_u32_cast(b[0], b[0] as u32);
    } else if a.len() == 0 && b.len() == 0 {
        assert(a =~= b);
    }
}

/// Whether `a` comes strictly before `b` (`a < b` on strings).
pub fn lex_less(a: &[char], b: &[char]) -> (r: bool)
    ensures
        r == lex_lt(a@, b@),
{
    let mut i: usize = 0;
    assert(a@.skip(0) =~= a@);
    assert(b@.skip(0) =~= b@);
    while i < a.len() && i < b.len()
        invariant
            i <= a.len(),
            i <= b.len(),
            lex_lt(a@, b@) == lex_lt(a@.skip(i as int), b@.skip(i as int)),
        decreases a.len() - i,
    {
        let x = a[i] as u32;
        let y = b[i] as u32;
        if x < y {
            return true;
        }
        if x != y {
            return false;
        }
        proof {
            vstd::utf8::char_u32_cast(a@[i as int], x);
            vstd::utf8::char_u32_cast(b@[i as int], y);
        }
        assert(a@.skip(i as int).drop_first() =~= a@.skip(i + 1));
        assert(b@.skip(i as int).drop_first() =~= b@.skip(i + 1));
        i += 1;
    }
    i < b.len()
}

} // verus!

verus! {

/// Whether two texts are equal, character for character.
pub fn same_chars(a: &[char], b: &[char]) -> (r: bool)
    ensures
        r == (a@ == b@),
{
    if a.len() != b.len() {
        return false;
    }
    let mut i: usize = 0;
    while i < a.len()
        invariant
            i <= a.len(),
            a.len() == b.len(),
            forall|j: int| 0 <= j < i ==> a@[j] == b@[j],
        decreases a.len() - i,
    {
        if a[i] != b[i] {
            return false;
        }
        i += 1;
    }
    assert(a@ =~= b@);
    true
}

/// Whether two strings are equal (`==` on `str`).
pub fn str_eq(a: &str, b: &str) -> (r: bool)
    ensures
        r == (a@ == b@),
{
    let x = chars_of(a);
    let y = chars_of(b);
    same_chars(x.as_slice(), y.as_slice())
}

} // verus!
