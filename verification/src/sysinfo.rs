//! The compact system description embedded in every benchmark result, and
//! the anonymised machine identifier.
use vstd::prelude::*;
use vstd::utf8::encode_utf8;

use crate::report::format::{meminfo_kib, spec_meminfo_kib};
use crate::text::{
    chars_of, find_char, first_word, first_word_exec, lines, push_all, push_digits, push_str,
    seq_views, slice_vec, spec_dec, spec_hex, spec_lines, string_of, trim, trim_ch, trim_matches,
    trim_ws, zero_pad, hex, push_zero_padded, starts_with,
};

verus! {

broadcast use vstd::string::group_string_axioms;

/// What a benchmark result records about the machine.
#[derive(Clone, Debug)]
pub struct SysInfo {
    pub cpu_model: String,
    pub logical_cores: usize,
    pub ram_mib: u64,
    pub kernel: String,
    pub os: String,
    /// Stable, anonymised per-machine identifier (12 hex digits).
    pub machine_id: String,
}

// ---------- /proc/cpuinfo ----------

/// For the first line starting with `key` whose remainder holds a `:`,
/// the trimmed text after that `:`.
pub open spec fn value_after_colon(ls: Seq<Seq<char>>, key: Seq<char>) -> Option<Seq<char>>
    decreases ls.len(),
{
    if ls.len() == 0 {
        None
    } else if key.is_prefix_of(ls[0]) && find_char(ls[0].skip(key.len() as int), ':') is Some {
        let rest = ls[0].skip(key.len() as int);
        let i = find_char(rest, ':').unwrap();
        Some(trim_ws(rest.skip(i + 1)))
    } else {
        value_after_colon(ls.drop_first(), key)
    }
}

/// A position `find_char` reports holds the character.
pub proof fn lemma_find_char_in_bounds(s: Seq<char>, c: char)
    ensures
        find_char(s, c) matches Some(i) ==> 0 <= i < s.len() && s[i] == c,
    decreases s.len(),
{
    if s.len() > 0 && s[0] != c {
        lemma_find_char_in_bounds(s.drop_first(), c);
    }
}

pub(crate) fn find_char_exec(s: &[char], c: char) -> (r: Option<usize>)
    ensures
        r matches Some(i) ==> find_char(s@, c) == Some(i as int),
        r is None ==> find_char(s@, c) is None,
{
    let mut i: usize = 0;
    while i < s.len()
        invariant
            i <= s.len(),
            forall|j: int| 0 <= j < i ==> s@[j] != c,
        decreases s.len() - i,
    {
        if s[i] == c {
            proof {
                crate::text::lemma_find_char(s@, c, i as int);
            }
            return Some(i);
        }
        i += 1;
    }
    proof {
        crate::text::lemma_find_char(s@, c, i as int);
    }
    None
}

fn value_after_colon_exec(ls: &Vec<Vec<char>>, key: &[char]) -> (r: Option<Vec<char>>)
    ensures
        r matches Some(v) ==> value_after_colon(seq_views(ls@), key@) == Some(v@),
        r is None ==> value_after_colon(seq_views(ls@), key@) is None,
{
    let ghost all = seq_views(ls@);
    let mut i: usize = 0;
    assert(all.skip(0) =~= all);
    while i < ls.len()
        invariant
            i <= ls.len(),
            all == seq_views(ls@),
            value_after_colon(all.skip(i as int), key@) == value_after_colon(all, key@),
        decreases ls.len() - i,
    {
        let l = &ls[i];
        assert(all.skip(i as int)[0] == l@);
        if starts_with(l.as_slice(), key) {
            let rest = slice_vec(l.as_slice(), key.len(), l.len());
            assert(rest@ =~= l@.skip(key@.len() as int));
            match find_char_exec(rest.as_slice(), ':') {
                Some(idx) => {
                    proof {
                        lemma_find_char_in_bounds(rest@, ':');
                    }
                    let after = slice_vec(rest.as_slice(), idx + 1, rest.len());
                    assert(after@ =~= rest@.skip(idx + 1));
                    return Some(trim(after.as_slice()));
                },
                None => {},
            }
        }
        assert(all.skip(i as int).drop_first() =~= all.skip(i + 1));
        i += 1;
    }
    assert(all.skip(i as int).len() == 0);
    None
}

/// `read_cpu_model`: the `model name` of /proc/cpuinfo, else its `Hardware`
/// (ARM), else `unknown`.
pub open spec fn spec_cpu_model(cpuinfo: Option<Seq<char>>) -> Seq<char> {
    match cpuinfo {
        None => "unknown"@,
        Some(t) => match value_after_colon(spec_lines(t), "model name"@) {
            Some(m) => m,
            None => match value_after_colon(spec_lines(t), "Hardware"@) {
                Some(m) => m,
                None => "unknown"@,
            },
        },
    }
}

/// The CPU model from the text of /proc/cpuinfo (`None`: not readable).
pub fn read_cpu_model(cpuinfo: Option<&str>) -> (r: String)
    ensures
        r@ == spec_cpu_model(match cpuinfo { Some(t) => Some(t@), None => None }),
{
    if let Some(t) = cpuinfo {
        let v = chars_of(t);
        let ls = lines(v.as_slice());
        let k = chars_of("model name");
        if let Some(m) = value_after_colon_exec(&ls, k.as_slice()) {
            return string_of(m.as_slice());
        }
        let k = chars_of("Hardware");
        if let Some(m) = value_after_colon_exec(&ls, k.as_slice()) {
            return string_of(m.as_slice());
        }
    }
    let u = chars_of("unknown");
    string_of(u.as_slice())
}

// ---------- /proc/meminfo, /proc/version, /etc/os-release ----------

/// `read_mem_total_mib`: `MemTotal` of /proc/meminfo in MiB (rounded
/// down), 0 when it cannot be read.
pub open spec fn spec_mem_total_mib(meminfo: Option<Seq<char>>) -> u64 {
    match meminfo {
        None => 0,
        Some(m) => match spec_meminfo_kib(m, "MemTotal:"@) {
            Some(k) => k / 1024,
            None => 0,
        },
    }
}

/// Total memory in MiB from the text of /proc/meminfo.
pub fn read_mem_total_mib(meminfo: Option<&str>) -> (r: u64)
    ensures
        r == spec_mem_total_mib(match meminfo { Some(t) => Some(t@), None => None }),
{
    match meminfo_kib(meminfo, "MemTotal:") {
        Some(k) => k / 1024,
        None => 0,
    }
}

/// `read_kernel`: for `Linux version X ...` the release `X`; otherwise the
/// whole trimmed text; `unknown` when unreadable (or nothing follows).
pub open spec fn spec_kernel(version: Option<Seq<char>>) -> Seq<char> {
    match version {
        None => "unknown"@,
        Some(v) => {
            let t = trim_ws(v);
            if "Linux version "@.is_prefix_of(t) {
                match first_word(t.skip("Linux version "@.len() as int)) {
                    Some(w) => w,
                    None => "unknown"@,
                }
            } else {
                t
            }
        },
    }
}

/// The kernel release from the text of /proc/version.
pub fn read_kernel(version: Option<&str>) -> (r: String)
    ensures
        r@ == spec_kernel(match version { Some(t) => Some(t@), None => None }),
{
    if let Some(v) = version {
        let cs = chars_of(v);
        let t = trim(cs.as_slice());
        let p = chars_of("Linux version ");
        if starts_with(t.as_slice(), p.as_slice()) {
            let rest = slice_vec(t.as_slice(), p.len(), t.len());
            assert(rest@ =~= t@.skip(p@.len() as int));
            if let Some(w) = first_word_exec(rest.as_slice()) {
                return string_of(w.as_slice());
            }
        } else {
            return string_of(t.as_slice());
        }
    }
    let u = chars_of("unknown");
    string_of(u.as_slice())
}

/// `read_os` / `os_pretty`: `PRETTY_NAME` of /etc/os-release without its
/// quotes, else `unknown`.
pub open spec fn spec_os_pretty(os_release: Option<Seq<char>>) -> Seq<char> {
    match os_release {
        None => "unknown"@,
        Some(t) => match crate::text::first_rest_after(spec_lines(t), "PRETTY_NAME="@) {
            Some(r) => trim_ch(r, '"'),
            None => "unknown"@,
        },
    }
}

/// The distribution name from the text of /etc/os-release.
pub fn read_os(os_release: Option<&str>) -> (r: String)
    ensures
        r@ == spec_os_pretty(match os_release { Some(t) => Some(t@), None => None }),
{
    if let Some(t) = os_release {
        let v = chars_of(t);
        let ls = lines(v.as_slice());
        let k = chars_of("PRETTY_NAME=");
        if let Some(r) = crate::text::first_rest_after_exec(&ls, k.as_slice()) {
            let q = trim_matches(r.as_slice(), '"');
            return string_of(q.as_slice());
        }
    }
    let u = chars_of("unknown");
    string_of(u.as_slice())
}

} // verus!

verus! {

// ---------- machine identifier ----------

/// One FNV-1a step: xor in the byte, multiply by the 64-bit FNV prime.
pub open spec fn fnv_step(h: u64, b: u8) -> u64 {
    (((h ^ (b as u64)) as nat * 0x0000_0100_0000_01b3nat) % 0x1_0000_0000_0000_0000nat) as u64
}

/// 64-bit FNV-1a of a byte sequence.
pub open spec fn fnv1a(bytes: Seq<u8>) -> u64
    decreases bytes.len(),
{
    if bytes.len() == 0 {
        0xcbf2_9ce4_8422_2325
    } else {
        fnv_step(fnv1a(bytes.drop_last()), bytes.last())
    }
}

/// `fnv1a_hex(s)`: the first 12 of the 16 lower-case hex digits of the
/// FNV-1a hash of the UTF-8 bytes of `s`.
pub open spec fn spec_fnv1a_hex(s: Seq<char>) -> Seq<char> {
    zero_pad(spec_hex(fnv1a(encode_utf8(s)) as nat), 16).take(12)
}

/// 12-hex-digit FNV-1a digest of a text.
pub fn fnv1a_hex(s: &str) -> (r: String)
    ensures
        r@ == spec_fnv1a_hex(s@),
{
    let bytes = s.as_bytes();
    let mut hash: u64 = 0xcbf2_9ce4_8422_2325;
    let mut i: usize = 0;
    while i < bytes.len()
        invariant
            i <= bytes.len(),
            bytes@ == encode_utf8(s@),
            hash == fnv1a(bytes@.take(i as int)),
        decreases bytes.len() - i,
    {
        assert(bytes@.take(i + 1).drop_last() =~= bytes@.take(i as int));
        hash ^= bytes[i] as u64;
        hash = hash.wrapping_mul(0x0000_0100_0000_01b3);
        i += 1;
    }
    assert(bytes@.take(i as int) =~= bytes@);
    let h = hex(hash);
    let mut full: Vec<char> = Vec::new();
    push_zero_padded(&mut full, h.as_slice(), 16);
    assert(full@.len() >= 16);
    let out = slice_vec(full.as_slice(), 0, 12);
    assert(out@ =~= full@.take(12));
    string_of(out.as_slice())
}

/// `read_first_nonempty`: the first readable file whose trimmed content is
/// not empty, trimmed.
pub open spec fn first_nonempty(contents: Seq<Option<Seq<char>>>) -> Option<Seq<char>>
    decreases contents.len(),
{
    if contents.len() == 0 {
        None
    } else {
        match contents[0] {
            Some(c) if trim_ws(c).len() > 0 => Some(trim_ws(c)),
            _ => first_nonempty(contents.drop_first()),
        }
    }
}

/// The views of a list of optional texts.
pub open spec fn opt_views(v: Seq<Option<String>>) -> Seq<Option<Seq<char>>> {
    v.map_values(|o: Option<String>| match o { Some(s) => Some(s@), None => None })
}

/// The first non-empty (after trimming) of the given file contents.
pub fn read_first_nonempty(contents: &Vec<Option<String>>) -> (r: Option<String>)
    ensures
        match r {
            Some(s) => first_nonempty(opt_views(contents@)) == Some(s@),
            None => first_nonempty(opt_views(contents@)) is None,
        },
{
    let ghost all = opt_views(contents@);
    let mut i: usize = 0;
    assert(all.skip(0) =~= all);
    while i < contents.len()
        invariant
            i <= contents.len(),
            all == opt_views(contents@),
            first_nonempty(all.skip(i as int)) == first_nonempty(all),
        decreases contents.len() - i,
    {
        assert(all.skip(i as int)[0] == all[i as int]);
        if let Some(c) = &contents[i] {
            let cs = chars_of(c.as_str());
            let t = trim(cs.as_slice());
            if t.len() > 0 {
                return Some(string_of(t.as_slice()));
            }
        }
        assert(all.skip(i as int).drop_first() =~= all.skip(i + 1));
        i += 1;
    }
    assert(all.skip(i as int).len() == 0);
    None
}

/// `read_machine_id`: FNV-1a (12 hex digits) of `crux:` followed by the
/// first non-empty machine-id file, or else by `model|MiB|os`.
pub open spec fn spec_machine_id(
    machine_id_files: Seq<Option<Seq<char>>>,
    cpu_model: Seq<char>,
    ram_mib: u64,
    os: Seq<char>,
) -> Seq<char> {
    let seed = match first_nonempty(machine_id_files) {
        Some(s) => s,
        None => cpu_model + "|"@ + spec_dec(ram_mib as nat) + "|"@ + os,
    };
    spec_fnv1a_hex("crux:"@ + seed)
}

/// The anonymised machine identifier, from the contents of
/// /etc/machine-id and /var/lib/dbus/machine-id (in that order) and the
/// hardware facts used when neither holds an id.
pub fn read_machine_id(
    machine_id_files: &Vec<Option<String>>,
    cpu_model: &str,
    ram_mib: u64,
    os: &str,
) -> (r: String)
    ensures
        r@ == spec_machine_id(opt_views(machine_id_files@), cpu_model@, ram_mib, os@),
{
    let mut seed: Vec<char> = Vec::new();
    push_str(&mut seed, "crux:");
    match read_first_nonempty(machine_id_files) {
        Some(s) => push_str(&mut seed, s.as_str()),
        None => {
            push_str(&mut seed, cpu_model);
            push_str(&mut seed, "|");
            push_digits(&mut seed, ram_mib, 10);
            push_str(&mut seed, "|");
            push_str(&mut seed, os);
        },
    }
    let text = string_of(seed.as_slice());
    proof {
        let ghost sd = match first_nonempty(opt_views(machine_id_files@)) {
            Some(s) => s,
            None => cpu_model@ + "|"@ + spec_dec(ram_mib as nat) + "|"@ + os@,
        };
        assert(seed@ =~= "crux:"@ + sd);
    }
    fnv1a_hex(text.as_str())
}

impl SysInfo {
    /// Assembles the description from the texts of /proc/cpuinfo,
    /// /proc/meminfo, /proc/version, /etc/os-release and the machine-id
    /// files (each `None` when unreadable) and the logical core count.
    pub fn from_sources(
        cpuinfo: Option<&str>,
        meminfo: Option<&str>,
        version: Option<&str>,
        os_release: Option<&str>,
        machine_id_files: &Vec<Option<String>>,
        logical_cores: usize,
    ) -> (r: SysInfo)
        ensures
            r.cpu_model@ == spec_cpu_model(match cpuinfo { Some(t) => Some(t@), None => None }),
            r.logical_cores == logical_cores,
            r.ram_mib == spec_mem_total_mib(match meminfo { Some(t) => Some(t@), None => None }),
            r.kernel@ == spec_kernel(match version { Some(t) => Some(t@), None => None }),
            r.os@ == spec_os_pretty(match os_release { Some(t) => Some(t@), None => None }),
            r.machine_id@ == spec_machine_id(
                opt_views(machine_id_files@),
                r.cpu_model@,
                r.ram_mib,
                r.os@,
            ),
    {
        let cpu_model = read_cpu_model(cpuinfo);
        let ram_mib = read_mem_total_mib(meminfo);
        let kernel = read_kernel(version);
        let os = read_os(os_release);
        let machine_id = read_machine_id(machine_id_files, cpu_model.as_str(), ram_mib, os.as_str());
        SysInfo { cpu_model, logical_cores, ram_mib, kernel, os, machine_id }
    }
}

} // verus!

verus! {

/// A lower-case hexadecimal digit.
pub open spec fn is_hex_digit(c: char) -> bool {
    ('0' <= c && c <= '9') || ('a' <= c && c <= 'f')
}

proof fn lemma_hex_digits(n: nat)
    ensures
        forall|i: int| 0 <= i < spec_hex(n).len() ==> is_hex_digit(#[trigger] spec_hex(n)[i]),
    decreases n,
{
    let s = spec_hex(n);
    if n >= 16 {
        lemma_hex_digits(n / 16);
        assert forall|i: int| 0 <= i < s.len() implies is_hex_digit(#[trigger] s[i]) by {
            if i < s.len() - 1 {
                assert(s[i] == spec_hex(n / 16)[i]);
            }
        }
    }
}

/// The machine identifier is always 12 lower-case hexadecimal digits,
/// whatever the machine gives.
pub proof fn lemma_machine_id_shape(
    machine_id_files: Seq<Option<Seq<char>>>,
    cpu_model: Seq<char>,
    ram_mib: u64,
    os: Seq<char>,
)
    ensures
        spec_machine_id(machine_id_files, cpu_model, ram_mib, os).len() == 12,
        forall|i: int|
            0 <= i < 12 ==> is_hex_digit(
                #[trigger] spec_machine_id(machine_id_files, cpu_model, ram_mib, os)[i],
            ),
{
    let seed = match first_nonempty(machine_id_files) {
        Some(s) => s,
        None => cpu_model + "|"@ + spec_dec(ram_mib as nat) + "|"@ + os,
    };
    let h = spec_hex(fnv1a(encode_utf8("crux:"@ + seed)) as nat);
    lemma_hex_digits(fnv1a(encode_utf8("crux:"@ + seed)) as nat);
    let z = zero_pad(h, 16);
    assert(z.len() >= 16);
    assert forall|i: int| 0 <= i < z.len() implies is_hex_digit(#[trigger] z[i]) by {
        if h.len() < 16 {
            if i >= 16 - h.len() {
                assert(z[i] == h[i - (16 - h.len())]);
            }
        }
    }
}

} // verus!

verus! {

/// The rule framing the benchmark banner.
pub open spec fn banner_rule() -> Seq<char> {
    "==================================================="@
}

impl SysInfo {
    /// The banner printed before a human-readable run: the title between
    /// rules, then CPU, cores, RAM, kernel and OS, a rule and a blank line.
    pub fn banner(&self) -> (r: String)
        ensures
            r@ == banner_rule() + "\n"@ + "  CRUCIBLE — crux benchmark  (trial by fire)\n"@
                + banner_rule() + "\n"@ + "CPU    : "@ + self.cpu_model@ + "\n"@ + "Cores  : "@
                + spec_dec(self.logical_cores as nat) + "\n"@ + "RAM    : "@ + spec_dec(
                self.ram_mib as nat,
            ) + " MiB\n"@ + "Kernel : "@ + self.kernel@ + "\n"@ + "OS     : "@ + self.os@ + "\n"@
                + banner_rule() + "\n"@ + "\n"@,
    {
        let mut v: Vec<char> = Vec::new();
        push_str(&mut v, "===================================================");
        push_str(&mut v, "\n");
        push_str(&mut v, "  CRUCIBLE — crux benchmark  (trial by fire)\n");
        push_str(&mut v, "===================================================");
        push_str(&mut v, "\n");
        push_str(&mut v, "CPU    : ");
        push_str(&mut v, self.cpu_model.as_str());
        push_str(&mut v, "\n");
        push_str(&mut v, "Cores  : ");
        push_digits(&mut v, self.logical_cores as u64, 10);
        push_str(&mut v, "\n");
        push_str(&mut v, "RAM    : ");
        push_digits(&mut v, self.ram_mib, 10);
        push_str(&mut v, " MiB\n");
        push_str(&mut v, "Kernel : ");
        push_str(&mut v, self.kernel.as_str());
        push_str(&mut v, "\n");
        push_str(&mut v, "OS     : ");
        push_str(&mut v, self.os.as_str());
        push_str(&mut v, "\n");
        push_str(&mut v, "===================================================");
        push_str(&mut v, "\n");
        push_str(&mut v, "\n");
        assert(v@ =~= banner_rule() + "\n"@ + "  CRUCIBLE — crux benchmark  (trial by fire)\n"@
            + banner_rule() + "\n"@ + "CPU    : "@ + self.cpu_model@ + "\n"@ + "Cores  : "@
            + spec_dec(self.logical_cores as nat) + "\n"@ + "RAM    : "@ + spec_dec(
            self.ram_mib as nat,
        ) + " MiB\n"@ + "Kernel : "@ + self.kernel@ + "\n"@ + "OS     : "@ + self.os@ + "\n"@
            + banner_rule() + "\n"@ + "\n"@);
        string_of(v.as_slice())
    }

    /// The comment line that precedes the JSON output of a run.
    pub fn json_header(&self) -> (r: String)
        ensures
            r@ == "# CRUCIBLE crux — "@ + self.cpu_model@ + " | "@ + spec_dec(
                self.logical_cores as nat,
            ) + " cores | "@ + spec_dec(self.ram_mib as nat) + " MiB RAM | "@ + self.kernel@
                + " | "@ + self.os@,
    {
        let mut v: Vec<char> = Vec::new();
        push_str(&mut v, "# CRUCIBLE crux — ");
        push_str(&mut v, self.cpu_model.as_str());
        push_str(&mut v, " | ");
        push_digits(&mut v, self.logical_cores as u64, 10);
        push_str(&mut v, " cores | ");
        push_digits(&mut v, self.ram_mib, 10);
        push_str(&mut v, " MiB RAM | ");
        push_str(&mut v, self.kernel.as_str());
        push_str(&mut v, " | ");
        push_str(&mut v, self.os.as_str());
        assert(v@ =~= "# CRUCIBLE crux — "@ + self.cpu_model@ + " | "@ + spec_dec(
            self.logical_cores as nat,
        ) + " cores | "@ + spec_dec(self.ram_mib as nat) + " MiB RAM | "@ + self.kernel@ + " | "@
            + self.os@);
        string_of(v.as_slice())
    }
}

} // verus!
