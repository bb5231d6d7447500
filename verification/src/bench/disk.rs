//! The sizing and addressing decisions of the storage suite: how large the
//! scratch file is, whether the free space allows the test, where the
//! random 4 KiB operations land, and whether the scratch directory is on
//! a RAM-backed filesystem. The file I/O itself stays with the caller.
use vstd::prelude::*;

use crate::text::{dec, push_all, push_str, string_of};

verus! {

/// Write/read chunk of the sequential tests (4 MiB).
pub const CHUNK: u64 = 4 * 1024 * 1024;

/// Random operations per random-I/O test.
pub const RAND_OPS: usize = 1000;

/// Block size of the random-I/O tests.
pub const RAND_BLOCK: u64 = 4096;

/// Smallest scratch file worth testing (256 MiB).
pub const MIN_FILE: u64 = 256 * 1024 * 1024;

/// One MiB.
pub const MIB: u64 = 1024 * 1024;

/// Largest scratch file (4 GiB).
pub const MAX_FILE: u64 = 4 * 1024 * 1024 * 1024;

/// The scratch file size wanted for `ram_mib` MiB of RAM: twice the RAM,
/// at most 4 GiB.
pub open spec fn spec_file_size(ram_mib: nat) -> nat {
    let want = 2 * ram_mib * 1048576;
    if want < MAX_FILE {
        want
    } else {
        MAX_FILE as nat
    }
}

/// The scratch file size for `ram_mib` MiB of RAM: `min(2 × RAM, 4 GiB)`.
pub fn choose_file_size(ram_mib: u64) -> (r: u64)
    ensures
        r == spec_file_size(ram_mib as nat),
{
    let want: u128 = 2 * (ram_mib as u128) * 1048576;
    if want < MAX_FILE as u128 {
        want as u64
    } else {
        MAX_FILE
    }
}

/// The size after the free-space clamp: at most half the free space and
/// at most the free space less a tenth, then rounded down to whole chunks.
pub open spec fn fitted_size(avail: Option<u64>, target: nat) -> nat {
    let size = match avail {
        Some(a) => {
            let half = a as nat / 2;
            let headroom = (a - a / 10) as nat;
            let usable = if half < headroom { half } else { headroom };
            if target < usable { target } else { usable }
        },
        None => target,
    };
    size / (CHUNK as nat) * (CHUNK as nat)
}

/// The message when the filesystem cannot host a meaningful test.
pub open spec fn no_space_text(dir: Seq<char>, avail: Option<u64>) -> Seq<char> {
    let avail_mib = match avail {
        Some(a) => a / MIB,
        None => 0,
    };
    "not enough free space in "@ + dir + " ("@ + crate::text::spec_dec(avail_mib as nat)
        + " MiB available, need ~512 MiB) — skipping disk test"@
}

/// Clamps `target` to the free space `avail` of the filesystem holding
/// `dir` (`None`: unknown, no clamp): fails when less than 256 MiB remain.
pub fn fit_to_space(avail: Option<u64>, target: u64, dir: &str) -> (r: Result<u64, String>)
    ensures
        fitted_size(avail, target as nat) >= MIN_FILE ==> r == Ok::<u64, String>(
            fitted_size(avail, target as nat) as u64,
        ),
        fitted_size(avail, target as nat) < MIN_FILE ==> (r matches Err(e) && e@ == no_space_text(
            dir@,
            avail,
        )),
{
    let mut size = target;
    match avail {
        Some(a) => {
            let half = a / 2;
            let headroom = a - a / 10;
            let usable = if half < headroom {
                half
            } else {
                headroom
            };
            if usable < size {
                size = usable;
            }
        },
        None => {},
    }
    assert((size / CHUNK) * CHUNK <= size) by (nonlinear_arith)
        requires
            CHUNK > 0,
    ;
    size = (size / CHUNK) * CHUNK;
    if size < MIN_FILE {
        let avail_mib = match avail {
            Some(a) => a / MIB,
            None => 0,
        };
        let mut e: Vec<char> = Vec::new();
        push_str(&mut e, "not enough free space in ");
        push_str(&mut e, dir);
        push_str(&mut e, " (");
        push_all(&mut e, dec(avail_mib).as_slice());
        push_str(&mut e, " MiB available, need ~512 MiB) — skipping disk test");
        assert(e@ =~= no_space_text(dir@, avail));
        return Err(string_of(e.as_slice()));
    }
    Ok(size)
}

/// The scratch directory: the one asked for, else the working directory,
/// else the temporary directory.
pub fn choose_scratch_dir(requested: Option<String>, cwd: Option<String>, temp: String) -> (r: String)
    ensures
        r == match requested {
            Some(d) => d,
            None => match cwd {
                Some(c) => c,
                None => temp,
            },
        },
{
    match requested {
        Some(d) => d,
        None => match cwd {
            Some(c) => c,
            None => temp,
        },
    }
}

/// `statfs` magic of tmpfs.
pub const TMPFS_MAGIC: i64 = 0x0102_1994;

/// `statfs` magic of ramfs.
pub const RAMFS_MAGIC: i64 = 0x8584_58f6;

/// Whether a `statfs` filesystem type is RAM-backed (tmpfs or ramfs).
pub fn is_ram_fs(f_type: i64) -> (r: bool)
    ensures
        r == (f_type == TMPFS_MAGIC || f_type == RAMFS_MAGIC),
{
    f_type == TMPFS_MAGIC || f_type == RAMFS_MAGIC
}

// ---------- random offsets ----------

/// One step of the offset generator: a zero state is first replaced by a
/// fixed non-zero seed, then xorshift64 (13, 7, 17).
pub open spec fn disk_xorshift_next(x: u64) -> u64 {
    crate::bench::cpu::xorshift_next(
        if x == 0 {
            0xDEADBEEFCAFEBABEu64
        } else {
            x
        },
    )
}

/// Advances the offset generator and returns the new state.
pub fn xorshift64(s: &mut u64) -> (r: u64)
    ensures
        r == disk_xorshift_next(*old(s)),
        *final(s) == r,
{
    let mut x = *s;
    if x == 0 {
        x = 0xDEADBEEFCAFEBABE;
    }
    x ^= x << 13u64;
    x ^= x >> 7u64;
    x ^= x << 17u64;
    *s = x;
    x
}

/// Whole 4 KiB blocks of a file of `file_size` bytes, at least one.
pub open spec fn max_blocks(file_size: nat) -> nat {
    let b = file_size / (RAND_BLOCK as nat);
    if b > 1 {
        b
    } else {
        1
    }
}

/// The next random offset into a file of `file_size` bytes: a block index
/// drawn from the generator, times the block size.
pub fn rand_offset(seed: &mut u64, file_size: u64) -> (off: u64)
    ensures
        *final(seed) == disk_xorshift_next(*old(seed)),
        off == (disk_xorshift_next(*old(seed)) as nat % max_blocks(file_size as nat)) * (
        RAND_BLOCK as nat),
        off + RAND_BLOCK <= if file_size >= RAND_BLOCK { file_size as nat } else { RAND_BLOCK as nat },
{
    let b = file_size / RAND_BLOCK;
    let mb = if b > 1 {
        b
    } else {
        1
    };
    let x = xorshift64(seed);
    let k = x % mb;
    assert(k * RAND_BLOCK + RAND_BLOCK <= mb * RAND_BLOCK) by (nonlinear_arith)
        requires
            k < mb,
    ;
    assert(mb * RAND_BLOCK <= if file_size >= RAND_BLOCK { file_size as nat } else {
        RAND_BLOCK as nat
    }) by (nonlinear_arith)
        requires
            b == file_size / 4096,
            mb == if b > 1 { b } else { 1 },
    ;
    k * RAND_BLOCK
}

} // verus!

verus! {

/// The scratch file size after the free-space clamp is a whole number of
/// 4 MiB chunks, never more than asked for, at most half of the free space
/// and never eating into the last tenth of it.
pub proof fn lemma_fit_bounds(avail: Option<u64>, target: nat)
    ensures
        fitted_size(avail, target) % (CHUNK as nat) == 0,
        fitted_size(avail, target) <= target,
        avail matches Some(a) ==> fitted_size(avail, target) <= a / 2 && fitted_size(avail, target)
            <= a - a / 10,
{
    let size: nat = match avail {
        Some(a) => {
            let half = a as nat / 2;
            let headroom = (a - a / 10) as nat;
            let usable = if half < headroom { half } else { headroom };
            if target < usable { target } else { usable }
        },
        None => target,
    };
    let c = CHUNK as nat;
    assert(size / c * c <= size && (size / c * c) % c == 0) by (nonlinear_arith)
        requires
            c > 0,
    {
        vstd::arithmetic::div_mod::lemma_mod_multiples_basic((size / c) as int, c as int);
        vstd::arithmetic::div_mod::lemma_fundamental_div_mod(size as int, c as int);
    }
}

/// A file size that `fit_to_space` accepts is at least 256 MiB, a whole
/// number of chunks, and within the free-space limits.
pub proof fn lemma_fit_accepts(avail: Option<u64>, target: u64, size: u64)
    requires
        fitted_size(avail, target as nat) == size,
        size >= MIN_FILE,
    ensures
        size % CHUNK == 0,
        size <= target,
        avail matches Some(a) ==> size <= a / 2 && size <= a - a / 10,
{
    lemma_fit_bounds(avail, target as nat);
}

} // verus!
