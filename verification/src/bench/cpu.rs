//! The integer parts of the CPU suite: the modular power of BBP-π, the
//! SHA-256 and LZ4 work items, the sort workload's generator and the
//! compressible buffer. Timing and the floating-point kernels stay with
//! the caller.
use sha2::{Digest, Sha256};
use vstd::arithmetic::power::pow;
use vstd::prelude::*;

verus! {

/// Bytes hashed per SHA-256 work item.
pub const SHA_BLOCK: usize = 1024 * 1024;

/// Bytes compressed per LZ4 work item.
pub const LZ4_BLOCK: usize = 1024 * 1024;

/// Elements sorted per sort work item.
pub const SORT_N: usize = 1000000;

/// Side of the square matrices of the MatMul kernel.
pub const MATMUL_N: usize = 256;

// ---------- modular power (BBP-π) ----------

proof fn lemma_modpow_step(r: int, b: int, e: nat, m: int)
    requires
        m > 0,
        0 <= r < m,
        0 <= b,
        e > 0,
    ensures
        ({
            let e2 = (e / 2) as nat;
            let r2 = if e % 2 == 1 { (r * b) % m } else { r };
            (r2 * pow((b * b) % m, e2)) % m == (r * pow(b, e)) % m
        }),
{
    let e2 = (e / 2) as nat;
    let odd = (e % 2) as nat;
    let bb = b * b;
    vstd::arithmetic::power::lemma_pow_adds(b, 2 * e2, odd);
    assert(e == 2 * e2 + odd);
    vstd::arithmetic::power::lemma_pow_multiplies(b, 2, e2);
    vstd::arithmetic::power::lemma_square_is_pow2(b);
    vstd::arithmetic::power::lemma_pow_mod_noop(bb, e2, m);
    let p = pow(bb, e2);
    let q = pow(b, odd);
    assert(pow(b, e) == p * q);
    if odd == 1 {
        vstd::arithmetic::power::lemma_pow1(b);
    } else {
        vstd::arithmetic::power::lemma_pow0(b);
    }
    let rq = r * q;
    assert(r * (p * q) == rq * p) by (nonlinear_arith)
        requires
            rq == r * q,
    ;
    vstd::arithmetic::div_mod::lemma_mul_mod_noop(rq, p, m);
    vstd::arithmetic::div_mod::lemma_mul_mod_noop(rq % m, pow(bb % m, e2), m);
    vstd::arithmetic::div_mod::lemma_mod_twice(rq, m);
    vstd::arithmetic::div_mod::lemma_mod_twice(pow(bb % m, e2), m);
    vstd::arithmetic::div_mod::lemma_small_mod(r as nat, m as nat);
}

/// `base^exp mod modulus` by square-and-multiply; 0 for a modulus of 0 or 1.
pub fn modpow(base: u64, exp: u64, modulus: u64) -> (r: u64)
    ensures
        modulus <= 1 ==> r == 0,
        modulus > 1 ==> r == pow(base as int, exp as nat) % (modulus as int),
{
    if modulus <= 1 {
        return 0;
    }
    let m = modulus as u128;
    let mut result: u128 = 1;
    let mut b: u128 = (base as u128) % m;
    let mut e = exp;
    proof {
        vstd::arithmetic::power::lemma_pow0(b as int);
        vstd::arithmetic::power::lemma_pow_mod_noop(base as int, exp as nat, m as int);
        vstd::arithmetic::div_mod::lemma_mod_twice(pow(b as int, exp as nat), m as int);
    }
    while e > 0
        invariant
            m == modulus as u128,
            m > 1,
            m < 0x1_0000_0000_0000_0000,
            result < m,
            b < m,
            (result * pow(b as int, e as nat)) % (m as int) == pow(base as int, exp as nat) % (
            m as int),
        decreases e,
    {
        proof {
            lemma_modpow_step(result as int, b as int, e as nat, m as int);
        }
        assert(result * b < 0x1_0000_0000_0000_0000_0000_0000_0000_0000) by (nonlinear_arith)
            requires
                result < 0x1_0000_0000_0000_0000,
                b < 0x1_0000_0000_0000_0000,
        ;
        assert(b * b < 0x1_0000_0000_0000_0000_0000_0000_0000_0000) by (nonlinear_arith)
            requires
                b < 0x1_0000_0000_0000_0000,
        ;
        assert(e & 1 == e % 2) by (bit_vector);
        if e & 1 == 1 {
            result = (result * b) % m;
        }
        assert(e >> 1 == e / 2) by (bit_vector);
        e = e >> 1;
        b = (b * b) % m;
    }
    proof {
        vstd::arithmetic::power::lemma_pow0(b as int);
        vstd::arithmetic::div_mod::lemma_small_mod(result as nat, m as nat);
    }
    result as u64
}

// ---------- SHA-256 ----------

/// The SHA-256 digest of a byte string.
pub uninterp spec fn sha256(data: Seq<u8>) -> Seq<u8>;

/// Hashes `data` with `sha2::Sha256` (`new`, `update`, `finalize`).
/// Claimed: the 32-byte digest, named `sha256`.
#[verifier::external_body]
fn sha256_digest(data: &[u8]) -> (r: Vec<u8>)
    ensures
        r@ == sha256(data@),
        r@.len() == 32,
{
    let mut h = Sha256::new();
    h.update(data);
    h.finalize().to_vec()
}

/// One SHA-256 work item: hash the block and keep the first digest byte
/// (the value the benchmark reads back so the work is not optimised away).
pub fn sha_round(block: &[u8]) -> (r: u8)
    ensures
        r == sha256(block@)[0],
{
    let d = sha256_digest(block);
    d[0]
}

// ---------- LZ4 ----------

#[verifier::external_type_specification]
#[verifier::external_body]
pub struct ExCompressError(lz4_flex::block::CompressError);

/// The LZ4 block encoding `lz4_flex` produces for `input`.
pub uninterp spec fn lz4_block(input: Seq<u8>) -> Seq<u8>;

/// The worst-case block size for `n` input bytes.
pub open spec fn lz4_bound(n: nat) -> nat {
    20 + n * 110 / 100
}

/// `lz4_flex::block::get_maximum_output_size`: `16 + 4 + n * 110 / 100`.
#[verifier::external_body]
fn lz4_max_output(n: usize) -> (r: usize)
    requires
        20 + n * 110 <= usize::MAX,
    ensures
        r == lz4_bound(n as nat),
{
    lz4_flex::block::get_maximum_output_size(n)
}

/// `lz4_flex::block::compress_into`: fails (output too small) exactly when
/// `output` is shorter than the worst-case size; otherwise writes the block
/// encoding of `input` at the start of `output` and returns its length.
/// Bytes of `output` after the block may be overwritten; nothing is said
/// of them.
#[verifier::external_body]
fn lz4_compress_into(input: &[u8], output: &mut Vec<u8>) -> (r: Result<usize, lz4_flex::block::CompressError>)
    requires
        20 + input@.len() * 110 <= usize::MAX,
    ensures
        final(output)@.len() == old(output)@.len(),
        r is Err <==> old(output)@.len() < lz4_bound(input@.len()),
        r is Err ==> final(output)@ == old(output)@,
        r matches Ok(n) ==> n == lz4_block(input@).len() && n <= old(output)@.len()
            && final(output)@.take(n as int) == lz4_block(input@),
{
    lz4_flex::block::compress_into(input, output.as_mut_slice())
}

/// A zero-filled output buffer that any LZ4 work item fits in.
pub fn lz4_out_buf() -> (r: Vec<u8>)
    ensures
        r@.len() == lz4_bound(LZ4_BLOCK as nat),
        forall|i: int| 0 <= i < r@.len() ==> r@[i] == 0,
{
    let n = lz4_max_output(LZ4_BLOCK);
    let mut v: Vec<u8> = Vec::new();
    let mut i: usize = 0;
    while i < n
        invariant
            i <= n,
            v@.len() == i,
            forall|j: int| 0 <= j < v@.len() ==> v@[j] == 0,
        decreases n - i,
    {
        v.push(0);
        i += 1;
    }
    v
}

/// One LZ4 work item: compress `data` into the reused `out` and return the
/// compressed length (0 when `out` is too small, as a failed compression
/// counts as nothing written).
pub fn lz4_compress_once(data: &[u8], out: &mut Vec<u8>) -> (n: usize)
    requires
        old(out)@.len() > 0,
        20 + data@.len() * 110 <= usize::MAX,
    ensures
        final(out)@.len() == old(out)@.len(),
        old(out)@.len() < lz4_bound(data@.len()) ==> n == 0 && final(out)@ == old(out)@,
        old(out)@.len() >= lz4_bound(data@.len()) ==> n == lz4_block(data@).len()
            && final(out)@.take(n as int) == lz4_block(data@),
{
    match lz4_compress_into(data, out) {
        Ok(n) => n,
        Err(_) => 0,
    }
}

// ---------- the compressible buffer ----------

/// One step of the buffer's linear congruential generator (mod 2^64).
pub open spec fn lcg_next(s: nat) -> nat {
    (s * 6364136223846793005 + 1442695040888963407) % 0x1_0000_0000_0000_0000
}

/// The generator's state after `k` steps from its seed.
pub open spec fn lcg_state(k: nat) -> nat
    decreases k,
{
    if k == 0 {
        0x9E3779B97F4A7C15
    } else {
        lcg_next(lcg_state((k - 1) as nat))
    }
}

/// The byte drawn from a generator state: bits 33..36, one of 16 values.
pub open spec fn lz4_byte(s: nat) -> u8 {
    ((s / 0x2_0000_0000) % 16) as u8
}

/// The LZ4 input: `LZ4_BLOCK` bytes, byte `i` drawn from the generator's
/// state after `i + 1` steps.
pub fn make_lz4_buf() -> (r: Vec<u8>)
    ensures
        r@.len() == LZ4_BLOCK,
        forall|i: int| 0 <= i < LZ4_BLOCK ==> r@[i] == lz4_byte(lcg_state((i + 1) as nat)),
{
    let mut buf: Vec<u8> = Vec::new();
    let mut lcg: u64 = 0x9E3779B97F4A7C15;
    let mut i: usize = 0;
    while i < LZ4_BLOCK
        invariant
            i <= LZ4_BLOCK,
            buf@.len() == i,
            lcg as nat == lcg_state(i as nat),
            forall|j: int| 0 <= j < i ==> buf@[j] == lz4_byte(lcg_state((j + 1) as nat)),
        decreases LZ4_BLOCK - i,
    {
        let ghost old_lcg = lcg;
        let m = lcg.wrapping_mul(6364136223846793005);
        lcg = m.wrapping_add(1442695040888963407);
        proof {
            let p = old_lcg as nat * 6364136223846793005;
            assert(m as nat == p % 0x1_0000_0000_0000_0000);
            vstd::arithmetic::div_mod::lemma_add_mod_noop(
                p as int,
                1442695040888963407,
                0x1_0000_0000_0000_0000,
            );
            vstd::arithmetic::div_mod::lemma_small_mod(
                1442695040888963407,
                0x1_0000_0000_0000_0000,
            );
            assert(lcg as nat == lcg_state((i + 1) as nat));
        }
        let x = lcg;
        let b = ((x >> 33u64) as u8) & 0x0Fu8;
        assert(b == ((x / 0x2_0000_0000) % 16) as u8) by (bit_vector)
            requires
                b == ((x >> 33u64) as u8) & 0x0Fu8,
        ;
        buf.push(b);
        i += 1;
    }
    buf
}

// ---------- the sort workload ----------

/// One xorshift64 step (shifts 13, 7, 17).
pub open spec fn xorshift_next(x: u64) -> u64 {
    let a = x ^ (x << 13u64);
    let b = a ^ (a >> 7u64);
    b ^ (b << 17u64)
}

/// The xorshift64 state after `k` steps from `s`.
pub open spec fn xorshift_iter(s: u64, k: nat) -> u64
    decreases k,
{
    if k == 0 {
        s
    } else {
        xorshift_next(xorshift_iter(s, (k - 1) as nat))
    }
}

/// Advances the generator and returns the new state.
pub fn xorshift64(s: &mut u64) -> (r: u64)
    ensures
        r == xorshift_next(*old(s)),
        *final(s) == r,
{
    let mut x = *s;
    x ^= x << 13u64;
    x ^= x >> 7u64;
    x ^= x << 17u64;
    *s = x;
    x
}

/// Refills `buf` with successive generator outputs.
pub fn shuffle(buf: &mut Vec<u64>, seed: &mut u64)
    ensures
        final(buf)@.len() == old(buf)@.len(),
        forall|i: int|
            0 <= i < old(buf)@.len() ==> final(buf)@[i] == xorshift_iter(*old(seed), (i + 1) as nat),
        *final(seed) == xorshift_iter(*old(seed), old(buf)@.len()),
{
    let ghost s0 = *seed;
    let mut i: usize = 0;
    while i < buf.len()
        invariant
            i <= buf.len(),
            buf@.len() == old(buf)@.len(),
            *seed == xorshift_iter(s0, i as nat),
            forall|j: int| 0 <= j < i ==> buf@[j] == xorshift_iter(s0, (j + 1) as nat),
        decreases buf.len() - i,
    {
        let x = xorshift64(seed);
        buf.set(i, x);
        i += 1;
    }
}

/// `<[u64]>::sort_unstable`: the same values in ascending order.
#[verifier::external_body]
fn sort_u64(v: &mut Vec<u64>)
    ensures
        final(v)@.len() == old(v)@.len(),
        final(v)@.to_multiset() == old(v)@.to_multiset(),
        forall|i: int, j: int| 0 <= i <= j < final(v)@.len() ==> final(v)@[i] <= final(v)@[j],
{
    v.sort_unstable();
}

/// One sort work item: refill `buf` from the generator, then sort it.
pub fn sort_round(buf: &mut Vec<u64>, seed: &mut u64)
    ensures
        final(buf)@.len() == old(buf)@.len(),
        final(buf)@.to_multiset() == Seq::new(
            old(buf)@.len(),
            |i: int| xorshift_iter(*old(seed), (i + 1) as nat),
        ).to_multiset(),
        forall|i: int, j: int| 0 <= i <= j < final(buf)@.len() ==> final(buf)@[i] <= final(buf)@[j],
        *final(seed) == xorshift_iter(*old(seed), old(buf)@.len()),
{
    shuffle(buf, seed);
    let ghost filled = buf@;
    assert(filled =~= Seq::new(old(buf)@.len(), |i: int| xorshift_iter(*old(seed), (i + 1) as nat)));
    sort_u64(buf);
}

/// The seed of multi-threaded sort worker `i`: the single-threaded seed
/// mixed with `i` times the golden-ratio constant (mod 2^64), never 0.
pub open spec fn worker_seed_of(i: nat) -> u64 {
    let s = 0xDEADBEEFCAFEBABEu64 ^ ((i * 0x9E3779B97F4A7C15) % 0x1_0000_0000_0000_0000) as u64;
    if s == 0 {
        1
    } else {
        s
    }
}

/// The seed of multi-threaded sort worker `i`.
pub fn worker_seed(i: usize) -> (r: u64)
    ensures
        r == worker_seed_of(i as nat),
{
    let s = 0xDEADBEEFCAFEBABEu64 ^ (i as u64).wrapping_mul(0x9E3779B97F4A7C15);
    if s == 0 {
        1
    } else {
        s
    }
}

} // verus!
