//! Engine of the CRUCIBLE benchmark and system-report tool: the parsing,
//! formatting and decision logic behind `crux`, with its contracts.
pub mod affinity;
pub mod bench;
pub mod gui;
pub mod history;
pub mod json;
pub mod report;
pub mod sysinfo;
pub mod text;
pub mod uninstall;
pub mod upload;

use vstd::prelude::*;

use crate::bench::{Config, Suite};
use crate::text::str_eq;

verus! {

/// Tunables for a run started from the library (the GUI). Mirrors the
/// CLI's global flags.
#[derive(Clone, Copy)]
pub struct RunOpts {
    pub duration_secs: u64,
    pub runs: usize,
    pub streams: usize,
}

impl Default for RunOpts {
    /// 10 s per CPU run, 5 runs, 4 download streams.
    fn default() -> (r: Self)
        ensures
            r == (RunOpts { duration_secs: 10, runs: 5, streams: 4 }),
    {
        RunOpts { duration_secs: 10, runs: 5, streams: 4 }
    }
}

/// The suite a kind names: `cpu`, `mem`, `net`, `disk`; anything else
/// (`all` included) runs them all.
pub open spec fn suite_of(kind: Seq<char>) -> Suite {
    if kind == "cpu"@ {
        Suite::Cpu
    } else if kind == "mem"@ {
        Suite::Mem
    } else if kind == "net"@ {
        Suite::Net
    } else if kind == "disk"@ {
        Suite::Disk
    } else {
        Suite::All
    }
}

/// `v`, at least 1.
pub open spec fn at_least_one(v: nat) -> nat {
    if v >= 1 {
        v
    } else {
        1
    }
}

/// The run configuration of the options: each tunable at least 1, the
/// default scratch directory.
pub open spec fn config_of(o: RunOpts) -> Config {
    Config {
        duration_secs: at_least_one(o.duration_secs as nat) as u64,
        runs: at_least_one(o.runs as nat) as usize,
        streams: at_least_one(o.streams as nat) as usize,
        dir: None,
    }
}

/// The suite named by `kind`.
pub fn suite_for(kind: &str) -> (s: Suite)
    ensures
        s == suite_of(kind@),
{
    if str_eq(kind, "cpu") {
        Suite::Cpu
    } else if str_eq(kind, "mem") {
        Suite::Mem
    } else if str_eq(kind, "net") {
        Suite::Net
    } else if str_eq(kind, "disk") {
        Suite::Disk
    } else {
        Suite::All
    }
}

/// The run configuration of `opts`.
pub fn config_for(opts: &RunOpts) -> (c: Config)
    ensures
        c == config_of(*opts),
{
    Config {
        duration_secs: if opts.duration_secs >= 1 { opts.duration_secs } else { 1 },
        runs: if opts.runs >= 1 { opts.runs } else { 1 },
        streams: if opts.streams >= 1 { opts.streams } else { 1 },
        dir: None,
    }
}

/// Runs one suite by name and returns the human-readable report. `kind`
/// is `cpu`, `mem`, `net`, `disk`, `all` or `info`: `info` is the system
/// report (`info_report`); any other kind runs the suite it names (all of
/// them for an unknown name) through `bench_report`, with the options each
/// raised to at least 1 and the default scratch directory.
pub fn run_suite_text<FI, FB>(kind: &str, opts: &RunOpts, info_report: FI, bench_report: FB) -> (r: String) where
    FI: FnOnce() -> String,
    FB: FnOnce(Suite, Config) -> String,

    requires
        info_report.requires(()),
        bench_report.requires((suite_of(kind@), config_of(*opts))),
    ensures
        kind@ == "info"@ ==> info_report.ensures((), r),
        kind@ != "info"@ ==> bench_report.ensures((suite_of(kind@), config_of(*opts)), r),
{
    if str_eq(kind, "info") {
        return info_report();
    }
    let suite = suite_for(kind);
    let cfg = config_for(opts);
    bench_report(suite, cfg)
}

/// [`run_suite_text`] with the default options.
pub fn run_named<FI, FB>(kind: &str, info_report: FI, bench_report: FB) -> (r: String) where
    FI: FnOnce() -> String,
    FB: FnOnce(Suite, Config) -> String,

    requires
        info_report.requires(()),
        bench_report.requires(
            (suite_of(kind@), config_of(RunOpts { duration_secs: 10, runs: 5, streams: 4 })),
        ),
    ensures
        kind@ == "info"@ ==> info_report.ensures((), r),
        kind@ != "info"@ ==> bench_report.ensures(
            (suite_of(kind@), config_of(RunOpts { duration_secs: 10, runs: 5, streams: 4 })),
            r,
        ),
{
    let opts = RunOpts::default();
    run_suite_text(kind, &opts, info_report, bench_report)
}

} // verus!
