//! The random numbers that drive a worker.
use vstd::prelude::*;

verus! {

/// A random number generator based off of xorshift64.
pub struct Rng {
    pub seed: u64,
}

/// The seed that follows `seed`.
pub open spec fn xorshift(seed: u64) -> u64 {
    let a = seed ^ (seed << 13);
    let b = a ^ (a >> 17);
    b ^ (b << 43)
}

/// The seed that `n` steps lead to from `seed`.
pub open spec fn xorshift_n(seed: u64, n: nat) -> u64
    decreases n,
{
    if n == 0 {
        seed
    } else {
        xorshift(xorshift_n(seed, (n - 1) as nat))
    }
}

/// The seed that a core starts from at a given time.
pub open spec fn initial_seed(core_id: u32, tsc: u64) -> u64 {
    ((core_id as u64) << 48) | tsc
}

/// How many numbers a new generator leaves out.
pub const WARMUP: u32 = 1000;

impl Rng {
    /// A generator that is seeded from the core it runs on and the time.
    pub fn new(core_id: u32, tsc: u64) -> (r: Self)
        ensures
            r.seed == xorshift_n(initial_seed(core_id, tsc), WARMUP as nat),
    {
        let start: u64 = ((core_id as u64) << 48) | tsc;
        let mut rng = Rng { seed: start };
        let mut i: u32 = 0;
        while i < WARMUP
            invariant
                i <= WARMUP,
                rng.seed == xorshift_n(start, i as nat),
            decreases WARMUP - i,
        {
            let _skipped: usize = rng.rand();
            i = i + 1;
        }
        rng
    }

    /// Get the next random number from the random number generator.
    pub fn rand(&mut self) -> (r: usize)
        ensures
            r == old(self).seed as usize,
            final(self).seed == xorshift(old(self).seed),
    {
        let orig_seed: u64 = self.seed;
        let mut seed: u64 = orig_seed;
        seed = seed ^ (seed << 13);
        seed = seed ^ (seed >> 17);
        seed = seed ^ (seed << 43);
        self.seed = seed;
        #[verifier::truncate]
        (orig_seed as usize)
    }
}

/// Different seeds are followed by different seeds: no two sequences of random
/// numbers ever run together.
pub proof fn law_xorshift_injective(a: u64, b: u64)
    requires
        xorshift(a) == xorshift(b),
    ensures
        a == b,
{
    assert(a == b) by (bit_vector)
        requires
            ({
                let a1 = a ^ (a << 13);
                let a2 = a1 ^ (a1 >> 17);
                let b1 = b ^ (b << 13);
                let b2 = b1 ^ (b1 >> 17);
                (a2 ^ (a2 << 43)) == (b2 ^ (b2 << 43))
            }),
    ;
}

/// A generator runs dry if and only if it was seeded with zero.
pub proof fn law_xorshift_zero(seed: u64, n: nat)
    ensures
        xorshift_n(seed, n) == 0 <==> seed == 0,
    decreases n,
{
    if n > 0 {
        law_xorshift_zero(seed, (n - 1) as nat);
        let prev = xorshift_n(seed, (n - 1) as nat);
        assert(xorshift(0) == 0) by {
            assert(({
                let a = 0u64 ^ (0u64 << 13);
                let b = a ^ (a >> 17);
                b ^ (b << 43)
            }) == 0) by (bit_vector);
        }
        if xorshift(prev) == 0 {
            law_xorshift_injective(prev, 0);
        }
    }
}

/// The generator is linear: the seed that follows a sum of two seeds, bit by bit and
/// without carries, is the sum of those that follow them.
pub proof fn law_xorshift_linear(a: u64, b: u64)
    ensures
        xorshift(a ^ b) == xorshift(a) ^ xorshift(b),
{
    assert(({
        let x = (a ^ b) ^ ((a ^ b) << 13);
        let y = x ^ (x >> 17);
        y ^ (y << 43)
    }) == ({
        let x = a ^ (a << 13);
        let y = x ^ (x >> 17);
        y ^ (y << 43)
    }) ^ ({
        let x = b ^ (b << 13);
        let y = x ^ (x >> 17);
        y ^ (y << 43)
    })) by (bit_vector);
}

/// A bit of a seed goes, in the seed that follows, to its own place and 13 places up,
/// then each of the two also 17 places down, and then each of those also 43 places
/// up.
pub proof fn law_xorshift_bit(n: u64)
    requires
        n < 64,
    ensures
        ({
            let up = 1u64 << n ^ (if n < 51 {
                1u64 << ((n + 13) as u64)
            } else {
                0u64
            });
            let down = up / 0x2_0000;
            let both = up ^ down;
            let low = both % 0x20_0000;
            xorshift(1u64 << n) == both ^ ((low * 0x800_0000_0000) as u64)
        }),
{
    let m = (n + 13) as u64;
    assert(({
        let up = 1u64 << n ^ (if n < 51 {
            1u64 << m
        } else {
            0u64
        });
        let both = up ^ (up / 0x2_0000);
        let low = both % 0x20_0000;
        ({
            let a = (1u64 << n) ^ ((1u64 << n) << 13);
            let b = a ^ (a >> 17);
            b ^ (b << 43)
        }) == both ^ ((low * 0x800_0000_0000) as u64)
    })) by (bit_vector)
        requires
            n < 64,
            m == n + 13,
    ;
}

/// The seed that a core starts from has the lower 48 bits of the time, and above them
/// the bits of the time or of the core.
pub proof fn law_initial_seed(core_id: u32, tsc: u64)
    ensures
        initial_seed(core_id, tsc) % 0x1_0000_0000_0000 == tsc % 0x1_0000_0000_0000,
        initial_seed(core_id, tsc) / 0x1_0000_0000_0000 == (tsc / 0x1_0000_0000_0000) | (core_id
            % 0x1_0000) as u64,
{
    assert(((((core_id as u64) << 48) | tsc) % 0x1_0000_0000_0000 == tsc % 0x1_0000_0000_0000)
        && ((((core_id as u64) << 48) | tsc) / 0x1_0000_0000_0000 == (tsc / 0x1_0000_0000_0000) | (
    core_id % 0x1_0000) as u64)) by (bit_vector);
}

/// A generator that has made some numbers goes on as one that is made anew from the
/// seed that it has come to.
pub proof fn law_xorshift_in_parts(seed: u64, n: nat, m: nat)
    ensures
        xorshift_n(xorshift_n(seed, n), m) == xorshift_n(seed, n + m),
        xorshift_n(seed, 1) == xorshift(seed),
    decreases m,
{
    reveal_with_fuel(xorshift_n, 2);
    if m > 0 {
        law_xorshift_in_parts(seed, n, (m - 1) as nat);
    }
}

} // verus!
