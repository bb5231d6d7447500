//! The `crux info` system report: collectors' parsing logic, formatting,
//! and the assembly of the report's rows into the printed table.
pub mod collect;
pub mod format;

use vstd::prelude::*;

use crate::report::collect::{iface_row_views, opt_view_string, string_views};
use crate::report::format::{bar, human_bytes, spec_bar, spec_human_bytes, spec_paint, Style};
use crate::text::{chars_of, join_range, join_with, push_all, push_digits, push_repeat, push_str, seq_views, spec_dec, string_of};

verus! {

broadcast use vstd::string::group_string_axioms;

/// Everything the report shows, as collected from the system.
pub struct ReportFacts {
    pub user: String,
    pub host: String,
    pub os: String,
    pub kernel: String,
    pub arch: String,
    pub uptime: String,
    pub packages: String,
    pub shell: String,
    pub cpu_model: String,
    pub cpu_physical: usize,
    pub cpu_logical: usize,
    /// The clock-speed suffix of the CPU row (` @ cur/max MHz`, or empty).
    pub cpu_freq: String,
    pub cache: String,
    pub load: String,
    pub gpus: Vec<String>,
    /// `MemTotal:`, `MemAvailable:`, `SwapTotal:`, `SwapFree:` in KiB.
    pub mem_total_kib: Option<u64>,
    pub mem_avail_kib: Option<u64>,
    pub swap_total_kib: Option<u64>,
    pub swap_free_kib: Option<u64>,
    /// (mount, type, total bytes, used bytes).
    pub disks: Vec<(String, String, u64, u64)>,
    /// (zone name, temperature text).
    pub temps: Vec<(String, String)>,
    pub battery: Option<String>,
    /// (interface, addresses, MAC).
    pub network: Vec<(String, Vec<String>, Option<String>)>,
}

/// Bytes of a `/proc/meminfo` KiB value, 0 when absent.
pub open spec fn kib_bytes(k: Option<u64>) -> nat {
    match k {
        Some(v) => (v * 1024) as nat,
        None => 0,
    }
}

/// `a - b`, floored at zero.
pub open spec fn sat_sub(a: nat, b: nat) -> nat {
    if b <= a {
        (a - b) as nat
    } else {
        0
    }
}

/// The KiB values fit in bytes.
pub open spec fn kib_fits(k: Option<u64>) -> bool {
    match k {
        Some(v) => v * 1024 <= u64::MAX,
        None => true,
    }
}

/// Length in bytes of the UTF-8 encoding of `s`, as `str::len` reports it
/// (a `usize`).
pub open spec fn utf8_len(s: Seq<char>) -> nat {
    (vstd::utf8::encode_utf8(s).len() as usize) as nat
}

/// `used / total` sizes and a bar, as the Memory, Swap and Disk rows show.
pub open spec fn usage_text(used: nat, total: nat, on: bool) -> Seq<char> {
    spec_human_bytes(used) + " / "@ + spec_human_bytes(total) + "  "@ + spec_bar(used, total, 20, on)
}

/// The report's first rows: system, host and CPU.
pub open spec fn head_rows(f: ReportFacts) -> Seq<(Seq<char>, Seq<char>)> {
    seq![
        ("OS"@, f.os@),
        ("Host"@, f.host@),
        ("Kernel"@, f.kernel@ + " ("@ + f.arch@ + ")"@),
        ("Uptime"@, f.uptime@),
        ("Packages"@, f.packages@),
        ("Shell"@, f.shell@),
        ("CPU"@, f.cpu_model@ + " ("@ + spec_dec(f.cpu_physical as nat) + "C/"@ + spec_dec(
            f.cpu_logical as nat,
        ) + "T)"@ + f.cpu_freq@),
        ("Cache"@, f.cache@),
        ("Load"@, f.load@),
    ]
}

/// One `GPU` row per adapter.
pub open spec fn gpu_rows(g: Seq<Seq<char>>) -> Seq<(Seq<char>, Seq<char>)> {
    Seq::new(g.len(), |i: int| ("GPU"@, g[i]))
}

/// The Memory row, and the Swap row when there is swap.
pub open spec fn memory_rows(f: ReportFacts, on: bool) -> Seq<(Seq<char>, Seq<char>)> {
    let mt = kib_bytes(f.mem_total_kib);
    let mu = sat_sub(mt, kib_bytes(f.mem_avail_kib));
    let st = kib_bytes(f.swap_total_kib);
    let su = sat_sub(st, kib_bytes(f.swap_free_kib));
    seq![("Memory"@, usage_text(mu, mt, on))] + if st > 0 {
        seq![("Swap"@, usage_text(su, st, on))]
    } else {
        Seq::empty()
    }
}

/// The row of a disk (mount, type, total, used).
pub open spec fn disk_row(d: (Seq<char>, Seq<char>, u64, u64), on: bool) -> (Seq<char>, Seq<char>) {
    (
        "Disk ("@ + d.0 + ")"@,
        spec_human_bytes(d.3 as nat) + " / "@ + spec_human_bytes(d.2 as nat) + " ["@ + d.1 + "]  "@
            + spec_bar(d.3 as nat, d.2 as nat, 20, on),
    )
}

/// One row per disk.
pub open spec fn disk_rows(d: Seq<(Seq<char>, Seq<char>, u64, u64)>, on: bool) -> Seq<
    (Seq<char>, Seq<char>),
> {
    Seq::new(d.len(), |i: int| disk_row(d[i], on))
}

/// One row per thermal zone.
pub open spec fn temp_rows(t: Seq<(Seq<char>, Seq<char>)>) -> Seq<(Seq<char>, Seq<char>)> {
    Seq::new(t.len(), |i: int| ("Temp ("@ + t[i].0 + ")"@, t[i].1))
}

/// The row of an interface: its MAC and its addresses, when it has either.
pub open spec fn net_row(n: (Seq<char>, Seq<Seq<char>>, Option<Seq<char>>)) -> Option<
    (Seq<char>, Seq<char>),
> {
    let detail = match n.2 {
        Some(m) => seq!["MAC "@ + m],
        None => Seq::<Seq<char>>::empty(),
    } + if n.1.len() > 0 {
        seq![join_with(n.1, ", "@)]
    } else {
        Seq::<Seq<char>>::empty()
    };
    if detail.len() > 0 {
        Some(("Net ("@ + n.0 + ")"@, join_with(detail, "  "@)))
    } else {
        None
    }
}

/// The rows of the interfaces that have a MAC or an address.
pub open spec fn net_rows(ns: Seq<(Seq<char>, Seq<Seq<char>>, Option<Seq<char>>)>) -> Seq<
    (Seq<char>, Seq<char>),
>
    decreases ns.len(),
{
    if ns.len() == 0 {
        Seq::empty()
    } else {
        net_rows(ns.drop_last()) + match net_row(ns.last()) {
            Some(r) => seq![r],
            None => Seq::empty(),
        }
    }
}

/// The views of (text, text) rows.
pub open spec fn row_views(v: Seq<(String, String)>) -> Seq<(Seq<char>, Seq<char>)> {
    v.map_values(|r: (String, String)| (r.0@, r.1@))
}

/// The views of disk rows.
pub open spec fn quad_views(v: Seq<(String, String, u64, u64)>) -> Seq<
    (Seq<char>, Seq<char>, u64, u64),
> {
    v.map_values(|d: (String, String, u64, u64)| (d.0@, d.1@, d.2, d.3))
}

/// All rows of the report, in order.
pub open spec fn report_rows(f: ReportFacts, on: bool) -> Seq<(Seq<char>, Seq<char>)> {
    head_rows(f) + gpu_rows(string_views(f.gpus@)) + memory_rows(f, on) + disk_rows(
        quad_views(f.disks@),
        on,
    ) + temp_rows(row_views(f.temps@)) + match f.battery {
        Some(b) => seq![("Battery"@, b@)],
        None => Seq::empty(),
    } + net_rows(iface_row_views(f.network@))
}

/// Width of the key column: the longest key, in bytes.
pub open spec fn key_width(rows: Seq<(Seq<char>, Seq<char>)>) -> nat
    decreases rows.len(),
{
    if rows.len() == 0 {
        0
    } else {
        let w = key_width(rows.drop_last());
        let k = utf8_len(rows.last().0);
        if k > w {
            k
        } else {
            w
        }
    }
}

/// The table: one line per row, the painted key padded to `w` characters.
pub open spec fn table_text(rows: Seq<(Seq<char>, Seq<char>)>, w: nat, on: bool) -> Seq<char>
    decreases rows.len(),
{
    if rows.len() == 0 {
        Seq::empty()
    } else {
        table_text(rows.drop_last(), w, on) + "  "@ + crate::text::pad_right(
            spec_paint(on, "1;32"@, rows.last().0),
            w,
        ) + "  "@ + rows.last().1 + "\n"@
    }
}

/// The printed report: a blank line, `user@host` and a rule as long as it
/// in bytes, the title line, a blank line, the table, a blank line.
pub open spec fn report_text(f: ReportFacts, on: bool) -> Seq<char> {
    let rows = report_rows(f, on);
    "\n"@ + "  "@ + spec_paint(on, "1;35"@, f.user@) + "@"@ + spec_paint(on, "1;35"@, f.host@)
        + "\n"@ + "  "@ + Seq::new(utf8_len(f.user@) + utf8_len(f.host@) + 1, |i: int| '─')
        + "\n"@ + "  "@ + spec_paint(on, "1;36"@, "CRUCIBLE"@) + " "@ + spec_paint(
        on,
        "2"@,
        "— crux info · deep system report"@,
    ) + "\n"@ + "\n"@ + table_text(rows, key_width(rows), on) + "\n"@
}

/// The facts fit the report's arithmetic.
pub open spec fn facts_fit(f: ReportFacts) -> bool {
    &&& kib_fits(f.mem_total_kib)
    &&& kib_fits(f.mem_avail_kib)
    &&& kib_fits(f.swap_total_kib)
    &&& kib_fits(f.swap_free_kib)
}

fn kib_to_bytes(k: Option<u64>) -> (r: u64)
    requires
        kib_fits(k),
    ensures
        r == kib_bytes(k),
{
    match k {
        Some(v) => v * 1024,
        None => 0,
    }
}

fn push_row(rows: &mut Vec<(String, String)>, k: &[char], v: &[char])
    ensures
        row_views(final(rows)@) == row_views(old(rows)@).push((k@, v@)),
{
    rows.push((string_of(k), string_of(v)));
    assert(row_views(final(rows)@) =~= row_views(old(rows)@).push((k@, v@)));
}

fn usage_exec(used: u64, total: u64, st: &Style) -> (r: Vec<char>)
    ensures
        r@ == usage_text(used as nat, total as nat, st.on),
{
    let mut v: Vec<char> = Vec::new();
    push_str(&mut v, human_bytes(used).as_str());
    push_str(&mut v, " / ");
    push_str(&mut v, human_bytes(total).as_str());
    push_str(&mut v, "  ");
    push_str(&mut v, bar(used, total, 20, st).as_str());
    assert(v@ =~= usage_text(used as nat, total as nat, st.on));
    v
}

fn head_rows_exec(f: &ReportFacts, rows: &mut Vec<(String, String)>)
    requires
        old(rows)@.len() == 0,
    ensures
        row_views(final(rows)@) == head_rows(*f),
{
    assert(row_views(rows@) =~= Seq::<(Seq<char>, Seq<char>)>::empty());
    push_row(rows, chars_of("OS").as_slice(), chars_of(f.os.as_str()).as_slice());
    push_row(rows, chars_of("Host").as_slice(), chars_of(f.host.as_str()).as_slice());
    let mut k: Vec<char> = Vec::new();
    push_str(&mut k, f.kernel.as_str());
    push_str(&mut k, " (");
    push_str(&mut k, f.arch.as_str());
    push_str(&mut k, ")");
    push_row(rows, chars_of("Kernel").as_slice(), k.as_slice());
    push_row(rows, chars_of("Uptime").as_slice(), chars_of(f.uptime.as_str()).as_slice());
    push_row(rows, chars_of("Packages").as_slice(), chars_of(f.packages.as_str()).as_slice());
    push_row(rows, chars_of("Shell").as_slice(), chars_of(f.shell.as_str()).as_slice());
    let mut c: Vec<char> = Vec::new();
    push_str(&mut c, f.cpu_model.as_str());
    push_str(&mut c, " (");
    push_digits(&mut c, f.cpu_physical as u64, 10);
    push_str(&mut c, "C/");
    push_digits(&mut c, f.cpu_logical as u64, 10);
    push_str(&mut c, "T)");
    push_str(&mut c, f.cpu_freq.as_str());
    push_row(rows, chars_of("CPU").as_slice(), c.as_slice());
    push_row(rows, chars_of("Cache").as_slice(), chars_of(f.cache.as_str()).as_slice());
    push_row(rows, chars_of("Load").as_slice(), chars_of(f.load.as_str()).as_slice());
    assert(k@ =~= f.kernel@ + " ("@ + f.arch@ + ")"@);
    assert(c@ =~= f.cpu_model@ + " ("@ + spec_dec(f.cpu_physical as nat) + "C/"@ + spec_dec(
        f.cpu_logical as nat,
    ) + "T)"@ + f.cpu_freq@);
    assert(row_views(rows@) =~= head_rows(*f));
}

fn net_row_exec(n: &(String, Vec<String>, Option<String>)) -> (r: Option<(Vec<char>, Vec<char>)>)
    ensures
        match net_row((n.0@, string_views(n.1@), opt_view_string(n.2))) {
            Some(x) => r matches Some(y) && y.0@ == x.0 && y.1@ == x.1,
            None => r is None,
        },
{
    let mut detail: Vec<Vec<char>> = Vec::new();
    match &n.2 {
        Some(m) => {
            let mut d: Vec<char> = Vec::new();
            push_str(&mut d, "MAC ");
            push_str(&mut d, m.as_str());
            detail.push(d);
        },
        None => {},
    }
    let ghost d0 = seq_views(detail@);
    if n.1.len() > 0 {
        let mut ips: Vec<Vec<char>> = Vec::new();
        let mut i: usize = 0;
        while i < n.1.len()
            invariant
                i <= n.1.len(),
                seq_views(ips@) == string_views(n.1@).take(i as int),
            decreases n.1.len() - i,
        {
            let c = chars_of(n.1[i].as_str());
            let ghost b = seq_views(ips@);
            ips.push(c);
            assert(seq_views(ips@) =~= b.push(c@));
            assert(string_views(n.1@).take(i + 1) =~= string_views(n.1@).take(i as int).push(
                n.1@[i as int]@,
            ));
            i += 1;
        }
        assert(string_views(n.1@).take(n.1.len() as int) =~= string_views(n.1@));
        let j = join_range(&ips, 0, ips.len(), chars_of(", ").as_slice());
        assert(seq_views(ips@).subrange(0, ips.len() as int) =~= seq_views(ips@));
        detail.push(j);
        assert(seq_views(detail@) =~= d0 + seq![join_with(string_views(n.1@), ", "@)]);
    } else {
        assert(seq_views(detail@) =~= d0 + Seq::<Seq<char>>::empty());
    }
    let ghost want = net_row((n.0@, string_views(n.1@), opt_view_string(n.2)));
    assert(d0 =~= match opt_view_string(n.2) {
        Some(m) => seq!["MAC "@ + m],
        None => Seq::<Seq<char>>::empty(),
    });
    if detail.len() > 0 {
        let mut k: Vec<char> = Vec::new();
        push_str(&mut k, "Net (");
        push_str(&mut k, n.0.as_str());
        push_str(&mut k, ")");
        let v = join_range(&detail, 0, detail.len(), chars_of("  ").as_slice());
        assert(seq_views(detail@).subrange(0, detail.len() as int) =~= seq_views(detail@));
        assert(k@ =~= "Net ("@ + n.0@ + ")"@);
        Some((k, v))
    } else {
        None
    }
}

/// The report's rows from the collected facts: system and CPU, GPUs,
/// memory and swap, disks, thermal zones, battery and interfaces.
pub fn report_rows_exec(f: &ReportFacts, st: &Style) -> (rows: Vec<(String, String)>)
    requires
        facts_fit(*f),
    ensures
        row_views(rows@) == report_rows(*f, st.on),
{
    let mut rows: Vec<(String, String)> = Vec::new();
    head_rows_exec(f, &mut rows);
    let ghost base = row_views(rows@);
    let ghost gv = string_views(f.gpus@);
    let mut i: usize = 0;
    while i < f.gpus.len()
        invariant
            i <= f.gpus.len(),
            gv == string_views(f.gpus@),
            row_views(rows@) == base + gpu_rows(gv).take(i as int),
        decreases f.gpus.len() - i,
    {
        push_row(&mut rows, chars_of("GPU").as_slice(), chars_of(f.gpus[i].as_str()).as_slice());
        assert(gpu_rows(gv).take(i + 1) =~= gpu_rows(gv).take(i as int).push(("GPU"@, gv[i as int])));
        i += 1;
    }
    assert(gpu_rows(gv).take(f.gpus.len() as int) =~= gpu_rows(gv));
    let ghost base = row_views(rows@);
    let mt = kib_to_bytes(f.mem_total_kib);
    let ma = kib_to_bytes(f.mem_avail_kib);
    let mu = mt.saturating_sub(ma);
    let swt = kib_to_bytes(f.swap_total_kib);
    let swf = kib_to_bytes(f.swap_free_kib);
    let swu = swt.saturating_sub(swf);
    push_row(&mut rows, chars_of("Memory").as_slice(), usage_exec(mu, mt, st).as_slice());
    if swt > 0 {
        push_row(&mut rows, chars_of("Swap").as_slice(), usage_exec(swu, swt, st).as_slice());
    }
    assert(row_views(rows@) =~= base + memory_rows(*f, st.on));
    let ghost base = row_views(rows@);
    let ghost dv = quad_views(f.disks@);
    let mut i: usize = 0;
    while i < f.disks.len()
        invariant
            i <= f.disks.len(),
            dv == quad_views(f.disks@),
            row_views(rows@) == base + disk_rows(dv, st.on).take(i as int),
        decreases f.disks.len() - i,
    {
        let d = &f.disks[i];
        let mut k: Vec<char> = Vec::new();
        push_str(&mut k, "Disk (");
        push_str(&mut k, d.0.as_str());
        push_str(&mut k, ")");
        let mut v: Vec<char> = Vec::new();
        push_str(&mut v, human_bytes(d.3).as_str());
        push_str(&mut v, " / ");
        push_str(&mut v, human_bytes(d.2).as_str());
        push_str(&mut v, " [");
        push_str(&mut v, d.1.as_str());
        push_str(&mut v, "]  ");
        push_str(&mut v, bar(d.3, d.2, 20, st).as_str());
        assert((k@, v@) == disk_row(dv[i as int], st.on));
        push_row(&mut rows, k.as_slice(), v.as_slice());
        assert(disk_rows(dv, st.on).take(i + 1) =~= disk_rows(dv, st.on).take(i as int).push(
            disk_row(dv[i as int], st.on),
        ));
        i += 1;
    }
    assert(disk_rows(dv, st.on).take(f.disks.len() as int) =~= disk_rows(dv, st.on));
    let ghost base = row_views(rows@);
    let ghost tv = row_views(f.temps@);
    let mut i: usize = 0;
    while i < f.temps.len()
        invariant
            i <= f.temps.len(),
            tv == row_views(f.temps@),
            row_views(rows@) == base + temp_rows(tv).take(i as int),
        decreases f.temps.len() - i,
    {
        let mut k: Vec<char> = Vec::new();
        push_str(&mut k, "Temp (");
        push_str(&mut k, f.temps[i].0.as_str());
        push_str(&mut k, ")");
        push_row(&mut rows, k.as_slice(), chars_of(f.temps[i].1.as_str()).as_slice());
        assert(temp_rows(tv).take(i + 1) =~= temp_rows(tv).take(i as int).push(
            ("Temp ("@ + tv[i as int].0 + ")"@, tv[i as int].1),
        ));
        i += 1;
    }
    assert(temp_rows(tv).take(f.temps.len() as int) =~= temp_rows(tv));
    let ghost base = row_views(rows@);
    match &f.battery {
        Some(b) => {
            push_row(&mut rows, chars_of("Battery").as_slice(), chars_of(b.as_str()).as_slice());
        },
        None => {},
    }
    assert(row_views(rows@) =~= base + match f.battery {
        Some(b) => seq![("Battery"@, b@)],
        None => Seq::<(Seq<char>, Seq<char>)>::empty(),
    });
    let ghost base = row_views(rows@);
    let ghost nv = iface_row_views(f.network@);
    let mut i: usize = 0;
    assert(net_rows(nv.take(0)) =~= Seq::<(Seq<char>, Seq<char>)>::empty());
    while i < f.network.len()
        invariant
            i <= f.network.len(),
            nv == iface_row_views(f.network@),
            row_views(rows@) == base + net_rows(nv.take(i as int)),
        decreases f.network.len() - i,
    {
        assert(nv.take(i + 1).drop_last() =~= nv.take(i as int));
        assert(nv.take(i + 1).last() == nv[i as int]);
        let ghost before = row_views(rows@);
        match net_row_exec(&f.network[i]) {
            Some((k, v)) => {
                push_row(&mut rows, k.as_slice(), v.as_slice());
                assert(row_views(rows@) =~= base + net_rows(nv.take(i + 1)));
            },
            None => {
                assert(row_views(rows@) =~= base + net_rows(nv.take(i + 1)));
            },
        }
        i += 1;
    }
    assert(nv.take(f.network.len() as int) =~= nv);
    assert(row_views(rows@) =~= report_rows(*f, st.on));
    rows
}

/// The `crux info` report as printed: the `user@host` header and its rule,
/// the title, and the table of rows with the keys aligned.
pub fn render(f: &ReportFacts, st: &Style) -> (r: String)
    requires
        facts_fit(*f),
        utf8_len(f.user@) + utf8_len(f.host@) + 1 <= usize::MAX,
    ensures
        r@ == report_text(*f, st.on),
{
    let rows = report_rows_exec(f, st);
    let ghost rv = row_views(rows@);
    let mut w: usize = 0;
    let mut i: usize = 0;
    while i < rows.len()
        invariant
            i <= rows.len(),
            rv == row_views(rows@),
            w == key_width(rv.take(i as int)),
        decreases rows.len() - i,
    {
        assert(rv.take(i + 1).drop_last() =~= rv.take(i as int));
        assert(rv.take(i + 1).last() == rv[i as int]);
        let ks = rows[i].0.as_str();
        let k = ks.len();
        assert(rv[i as int].0 == ks@);
        assert(k == utf8_len(ks@));
        if k > w {
            w = k;
        }
        i += 1;
    }
    assert(rv.take(rows.len() as int) =~= rv);
    let mut out: Vec<char> = Vec::new();
    push_str(&mut out, "\n");
    push_str(&mut out, "  ");
    push_str(&mut out, st.accent(f.user.as_str()).as_str());
    push_str(&mut out, "@");
    push_str(&mut out, st.accent(f.host.as_str()).as_str());
    push_str(&mut out, "\n");
    push_str(&mut out, "  ");
    let ul = f.user.as_str().len();
    let hl = f.host.as_str().len();
    push_repeat(&mut out, '─', ul + hl + 1);
    push_str(&mut out, "\n");
    push_str(&mut out, "  ");
    push_str(&mut out, st.title("CRUCIBLE").as_str());
    push_str(&mut out, " ");
    push_str(&mut out, st.paint("2", "— crux info · deep system report").as_str());
    push_str(&mut out, "\n");
    push_str(&mut out, "\n");
    let ghost head = out@;
    let mut i: usize = 0;
    assert(table_text(rv.take(0), w as nat, st.on) =~= Seq::<char>::empty());
    while i < rows.len()
        invariant
            i <= rows.len(),
            rv == row_views(rows@),
            out@ == head + table_text(rv.take(i as int), w as nat, st.on),
        decreases rows.len() - i,
    {
        assert(rv.take(i + 1).drop_last() =~= rv.take(i as int));
        assert(rv.take(i + 1).last() == rv[i as int]);
        push_str(&mut out, "  ");
        let key = st.key(rows[i].0.as_str());
        let kc = chars_of(key.as_str());
        crate::text::push_padded_right(&mut out, kc.as_slice(), w);
        push_str(&mut out, "  ");
        push_str(&mut out, rows[i].1.as_str());
        push_str(&mut out, "\n");
        assert(out@ =~= head + table_text(rv.take(i + 1), w as nat, st.on));
        i += 1;
    }
    push_str(&mut out, "\n");
    assert(rv.take(rows.len() as int) =~= rv);
    assert(out@ =~= report_text(*f, st.on));
    string_of(out.as_slice())
}

} // verus!

verus! {

/// An interface gets a `Net (<name>)` row exactly when it has an address or
/// a MAC; the row shows `MAC <mac>` first when there is one, then the
/// addresses joined by `, `, the two parts two spaces apart.
pub proof fn lemma_net_row(
    name: Seq<char>,
    ips: Seq<Seq<char>>,
    mac: Option<Seq<char>>,
)
    ensures
        net_row((name, ips, mac)) is Some <==> (ips.len() > 0 || mac is Some),
        mac is None && ips.len() > 0 ==> net_row((name, ips, mac)) == Some(
            ("Net ("@ + name + ")"@, join_with(ips, ", "@)),
        ),
        mac is Some && ips.len() == 0 ==> net_row((name, ips, mac)) == Some(
            ("Net ("@ + name + ")"@, "MAC "@ + mac.unwrap()),
        ),
        mac is Some && ips.len() > 0 ==> net_row((name, ips, mac)) == Some(
            ("Net ("@ + name + ")"@, "MAC "@ + mac.unwrap() + "  "@ + join_with(ips, ", "@)),
        ),
{
    let n = (name, ips, mac);
    let detail = match n.2 {
        Some(m) => seq!["MAC "@ + m],
        None => Seq::<Seq<char>>::empty(),
    } + if n.1.len() > 0 {
        seq![join_with(n.1, ", "@)]
    } else {
        Seq::<Seq<char>>::empty()
    };
    if mac is Some && ips.len() > 0 {
        assert(detail.len() == 2);
        assert(detail.drop_last() =~= seq![detail[0]]);
        assert(join_with(detail.drop_last(), "  "@) == detail[0]);
    } else if mac is Some || ips.len() > 0 {
        assert(detail.len() == 1);
    } else {
        assert(detail.len() == 0);
    }
}

/// Every interface with an address or a MAC has its `Net (<name>)` row
/// among the network rows of the report.
pub proof fn lemma_net_rows_cover(ns: Seq<(Seq<char>, Seq<Seq<char>>, Option<Seq<char>>)>, i: int)
    requires
        0 <= i < ns.len(),
        ns[i].1.len() > 0 || ns[i].2 is Some,
    ensures
        exists|j: int| 0 <= j < net_rows(ns).len() && (#[trigger] net_rows(ns)[j]).0 == "Net ("@ + ns[i].0 + ")"@,
    decreases ns.len(),
{
    lemma_net_row(ns[i].0, ns[i].1, ns[i].2);
    let prev = net_rows(ns.drop_last());
    if i == ns.len() - 1 {
        let r = net_row(ns.last()).unwrap();
        assert(net_rows(ns) == prev + seq![r]);
        assert(net_rows(ns)[prev.len() as int] == r);
    } else {
        assert(ns.drop_last()[i] == ns[i]);
        lemma_net_rows_cover(ns.drop_last(), i);
        let j = choose|j: int| 0 <= j < prev.len() && (#[trigger] prev[j]).0 == "Net ("@ + ns[i].0 + ")"@;
        assert(net_rows(ns)[j] == prev[j]);
    }
}

} // verus!
