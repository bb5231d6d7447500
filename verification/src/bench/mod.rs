//! Benchmark orchestration: which suites a run executes and how their
//! results are gathered, with the suites' computable parts in the
//! submodules. The suites' measuring (timing, threads, I/O, floating
//! point) is handed in by the caller as the runner of each suite.
pub mod cpu;
pub mod disk;

use vstd::prelude::*;

use crate::sysinfo::SysInfo;

verus! {

/// Which suite(s) to run.
#[derive(Clone, Copy, PartialEq, Eq, Structural, Debug)]
pub enum Suite {
    All,
    Cpu,
    Mem,
    Net,
    Disk,
}

/// Tunables shared across suites.
#[derive(Clone, Debug)]
pub struct Config {
    /// Seconds per CPU test run.
    pub duration_secs: u64,
    /// Measured runs per CPU test.
    pub runs: usize,
    /// Parallel download streams.
    pub streams: usize,
    /// Scratch directory of the storage test (`None`: the default).
    pub dir: Option<String>,
}

/// The results of a run: the system facts and each suite's results, `None`
/// for a suite that was not run.
pub struct FullResults<C, M, N, D> {
    pub sysinfo: SysInfo,
    pub cpu: Option<C>,
    pub mem: Option<M>,
    pub net: Option<N>,
    pub disk: Option<DiskOutcome<D>>,
}

/// The storage suite's outcome: its results, or why it could not run.
pub enum DiskOutcome<D> {
    Done(D),
    Failed { error: String },
}

/// The suite selection runs the CPU suite.
pub open spec fn runs_cpu(s: Suite) -> bool {
    s is All || s is Cpu
}

/// The suite selection runs the memory suite.
pub open spec fn runs_mem(s: Suite) -> bool {
    s is All || s is Mem
}

/// The suite selection runs the network suite.
pub open spec fn runs_net(s: Suite) -> bool {
    s is All || s is Net
}

/// The suite selection runs the storage suite.
pub open spec fn runs_disk(s: Suite) -> bool {
    s is All || s is Disk
}

/// The outcome recorded for what the storage runner returned.
pub open spec fn disk_outcome<D>(r: Result<D, String>) -> DiskOutcome<D> {
    match r {
        Ok(d) => DiskOutcome::Done(d),
        Err(e) => DiskOutcome::Failed { error: e },
    }
}

fn clone_dir(o: &Option<String>) -> (r: Option<String>)
    ensures
        r == *o,
{
    match o {
        Some(d) => Some(d.clone()),
        None => None,
    }
}

fn run_disk<D, FD: FnOnce(u64, Option<String>) -> Result<D, String>>(
    cfg: &Config,
    ram_mib: u64,
    disk: FD,
) -> (r: DiskOutcome<D>)
    requires
        disk.requires((ram_mib, cfg.dir)),
    ensures
        exists|res: Result<D, String>| disk.ensures((ram_mib, cfg.dir), res) && r == disk_outcome(res),
{
    let dir = clone_dir(&cfg.dir);
    let res = disk(ram_mib, dir);
    let ghost g = res;
    assert(disk.ensures((ram_mib, cfg.dir), g));
    let r = match res {
        Ok(d) => DiskOutcome::Done(d),
        Err(e) => DiskOutcome::Failed { error: e },
    };
    assert(r == disk_outcome(g));
    r
}

/// Runs the selected suite(s) and gathers their results with `info`. The
/// CPU runner gets the seconds per run and the number of runs, the network
/// runner the stream count, the storage runner the RAM size in MiB and the
/// scratch directory; each runner is called once if its suite is selected
/// and not at all otherwise.
pub fn run<C, M, N, D, FC, FM, FN, FD>(
    suite: Suite,
    cfg: &Config,
    info: SysInfo,
    cpu: FC,
    mem: FM,
    net: FN,
    disk: FD,
) -> (r: FullResults<C, M, N, D>) where
    FC: FnOnce(u64, usize) -> C,
    FM: FnOnce() -> M,
    FN: FnOnce(usize) -> N,
    FD: FnOnce(u64, Option<String>) -> Result<D, String>,

    requires
        cpu.requires((cfg.duration_secs, cfg.runs)),
        mem.requires(()),
        net.requires((cfg.streams,)),
        disk.requires((info.ram_mib, cfg.dir)),
    ensures
        r.sysinfo == info,
        runs_cpu(suite) ==> (r.cpu matches Some(c) && cpu.ensures((cfg.duration_secs, cfg.runs), c)),
        !runs_cpu(suite) ==> r.cpu is None,
        runs_mem(suite) ==> (r.mem matches Some(m) && mem.ensures((), m)),
        !runs_mem(suite) ==> r.mem is None,
        runs_net(suite) ==> (r.net matches Some(n) && net.ensures((cfg.streams,), n)),
        !runs_net(suite) ==> r.net is None,
        runs_disk(suite) ==> (r.disk matches Some(o) && exists|res: Result<D, String>|
            disk.ensures((info.ram_mib, cfg.dir), res) && o == disk_outcome(res)),
        !runs_disk(suite) ==> r.disk is None,
        r.cpu is Some <==> (suite is All || suite is Cpu),
        r.mem is Some <==> (suite is All || suite is Mem),
        r.net is Some <==> (suite is All || suite is Net),
        r.disk is Some <==> (suite is All || suite is Disk),
{
    let ram_mib = info.ram_mib;
    let mut r = FullResults { sysinfo: info, cpu: None, mem: None, net: None, disk: None };
    match suite {
        Suite::All => {
            r.cpu = Some(cpu(cfg.duration_secs, cfg.runs));
            r.mem = Some(mem());
            r.net = Some(net(cfg.streams));
            r.disk = Some(run_disk(cfg, ram_mib, disk));
        },
        Suite::Cpu => r.cpu = Some(cpu(cfg.duration_secs, cfg.runs)),
        Suite::Mem => r.mem = Some(mem()),
        Suite::Net => r.net = Some(net(cfg.streams)),
        Suite::Disk => r.disk = Some(run_disk(cfg, ram_mib, disk)),
    }
    r
}

/// Every selected suite runs: `All` runs the four suites, and a suite
/// selected alone runs and no other does.
pub proof fn lemma_suite_selection(s: Suite)
    ensures
        s is All ==> runs_cpu(s) && runs_mem(s) && runs_net(s) && runs_disk(s),
        s is Cpu ==> runs_cpu(s) && !runs_mem(s) && !runs_net(s) && !runs_disk(s),
        s is Mem ==> !runs_cpu(s) && runs_mem(s) && !runs_net(s) && !runs_disk(s),
        s is Net ==> !runs_cpu(s) && !runs_mem(s) && runs_net(s) && !runs_disk(s),
        s is Disk ==> !runs_cpu(s) && !runs_mem(s) && !runs_net(s) && runs_disk(s),
{
}

} // verus!
