//! Little-endian byte strings and the numbers they stand for.
use vstd::prelude::*;

verus! {

/// `256` to the power `n`: how many values `n` bytes can hold.
pub open spec fn pow256(n: nat) -> nat
    decreases n,
{
    if n == 0 {
        1
    } else {
        256 * pow256((n - 1) as nat)
    }
}

/// The number that `s` stands for, its first byte being the least significant.
pub open spec fn le_value(s: Seq<u8>) -> nat
    decreases s.len(),
{
    if s.len() == 0 {
        0
    } else {
        s[0] as nat + 256 * le_value(s.drop_first())
    }
}

/// The `n` low bytes of `x`, least significant first.
pub open spec fn le_bytes(x: nat, n: nat) -> Seq<u8>
    decreases n,
{
    if n == 0 {
        Seq::empty()
    } else {
        seq![(x % 256) as u8] + le_bytes(x / 256, (n - 1) as nat)
    }
}

/// Encoding gives `n` bytes.
pub proof fn lemma_le_bytes_len(x: nat, n: nat)
    ensures
        le_bytes(x, n).len() == n,
    decreases n,
{
    if n > 0 {
        lemma_le_bytes_len(x / 256, (n - 1) as nat);
    }
}

/// Decoding what was encoded gives the number back, when it fits.
pub proof fn lemma_decode_encode(x: nat, n: nat)
    requires
        x < pow256(n),
    ensures
        le_value(le_bytes(x, n)) == x,
    decreases n,
{
    lemma_le_bytes_len(x, n);
    if n > 0 {
        lemma_decode_encode(x / 256, (n - 1) as nat);
        assert(le_bytes(x, n).drop_first() =~= le_bytes(x / 256, (n - 1) as nat));
    }
}

/// Encoding what was decoded gives the bytes back.
pub proof fn lemma_encode_decode(s: Seq<u8>)
    ensures
        le_bytes(le_value(s), s.len()) == s,
    decreases s.len(),
{
    if s.len() > 0 {
        lemma_encode_decode(s.drop_first());
        let v = le_value(s.drop_first());
        assert((s[0] as nat + 256 * v) % 256 == s[0]);
        assert((s[0] as nat + 256 * v) / 256 == v);
        assert(seq![s[0]] + s.drop_first() =~= s);
    } else {
        assert(le_bytes(le_value(s), 0) =~= s);
    }
}

/// `n` bytes stand for a number below `256^n`.
pub proof fn lemma_le_value_bound(s: Seq<u8>)
    ensures
        le_value(s) < pow256(s.len()),
    decreases s.len(),
{
    if s.len() > 0 {
        lemma_le_value_bound(s.drop_first());
    }
}

/// More bytes hold more values.
pub proof fn lemma_pow256_monotone(a: nat, b: nat)
    requires
        a <= b,
    ensures
        0 < pow256(a) <= pow256(b),
    decreases b,
{
    if a < b {
        lemma_pow256_monotone(a, (b - 1) as nat);
    } else if b > 0 {
        lemma_pow256_monotone((a - 1) as nat, (b - 1) as nat);
    }
}

/// The bounds of the widths that primitives have.
pub proof fn lemma_pow256_values()
    ensures
        pow256(1) == 0x100,
        pow256(2) == 0x1_0000,
        pow256(4) == 0x1_0000_0000,
        pow256(8) == 0x1_0000_0000_0000_0000,
        pow256(16) == 0x1_0000_0000_0000_0000_0000_0000_0000_0000,
{
    reveal_with_fuel(pow256, 17);
}

/// Writes the `n` low bytes of `x`, least significant first.
pub fn encode(x: u128, n: usize) -> (r: Vec<u8>)
    ensures
        r@ == le_bytes(x as nat, n as nat),
{
    let mut out: Vec<u8> = Vec::new();
    let mut rest: u128 = x;
    let mut i: usize = 0;
    proof {
        assert(out@ + le_bytes(rest as nat, n as nat) =~= le_bytes(x as nat, n as nat));
    }
    while i < n
        invariant
            i <= n,
            out@ + le_bytes(rest as nat, (n - i) as nat) == le_bytes(x as nat, n as nat),
        decreases n - i,
    {
        let ghost before = out@;
        let low: u8 = (rest % 256) as u8;
        out.push(low);
        proof {
            let tail = le_bytes((rest / 256) as nat, (n - i - 1) as nat);
            assert(before + (seq![low] + tail) =~= out@ + tail);
        }
        rest = rest / 256;
        i = i + 1;
    }
    proof {
        assert(out@ + le_bytes(rest as nat, 0) =~= out@);
    }
    out
}

/// The number that the `n` bytes of `s` from `at` on stand for.
pub fn decode(s: &[u8], at: usize, n: usize) -> (r: u128)
    requires
        n <= 16,
        at + n <= s@.len(),
    ensures
        r == le_value(s@.subrange(at as int, at + n)),
        r < pow256(n as nat),
{
    let end: usize = s.len();
    let mut value: u128 = 0;
    let mut i: usize = n;
    proof {
        assert(le_value(s@.subrange(at + n, at + n)) == 0);
    }
    while i > 0
        invariant
            i <= n <= 16,
            at + n <= end == s@.len(),
            value == le_value(s@.subrange(at + i, at + n)),
        decreases i,
    {
        let ghost tail = s@.subrange(at + i, at + n);
        proof {
            let whole = s@.subrange(at + i - 1, at + n);
            assert(whole.drop_first() =~= tail);
            lemma_le_value_bound(whole);
            lemma_pow256_monotone(whole.len(), 16);
            lemma_pow256_values();
        }
        i = i - 1;
        value = s[at + i] as u128 + 256 * value;
    }
    proof {
        lemma_le_value_bound(s@.subrange(at as int, at + n));
    }
    value
}

/// Reads the little-endian `u64` at `at`.
pub fn read_u64(s: &[u8], at: usize) -> (r: u64)
    requires
        at + 8 <= s@.len(),
    ensures
        r == le_value(s@.subrange(at as int, at + 8)),
{
    proof {
        lemma_pow256_values();
    }
    decode(s, at, 8) as u64
}

/// Reads the little-endian `u32` at `at`.
pub fn read_u32(s: &[u8], at: usize) -> (r: u32)
    requires
        at + 4 <= s@.len(),
    ensures
        r == le_value(s@.subrange(at as int, at + 4)),
{
    proof {
        lemma_pow256_values();
    }
    decode(s, at, 4) as u32
}

/// A byte string stands for its bytes, each weighted by how many values the bytes
/// before it can hold: a number of 4 and one of 8 bytes, byte by byte.
pub proof fn law_little_endian(s: Seq<u8>)
    ensures
        s.len() == 1 ==> le_value(s) == s[0],
        s.len() == 2 ==> le_value(s) == s[0] + 0x100 * s[1],
        s.len() == 4 ==> le_value(s) == s[0] + 0x100 * s[1] + 0x1_0000 * s[2] + 0x100_0000 * s[3],
        s.len() == 8 ==> le_value(s) == s[0] + 0x100 * s[1] + 0x1_0000 * s[2] + 0x100_0000 * s[3]
            + 0x1_0000_0000 * s[4] + 0x100_0000_0000 * s[5] + 0x1_0000_0000_0000 * s[6]
            + 0x100_0000_0000_0000 * s[7],
{
    let s1 = s.drop_first();
    let s2 = s1.drop_first();
    let s3 = s2.drop_first();
    let s4 = s3.drop_first();
    let s5 = s4.drop_first();
    let s6 = s5.drop_first();
    let s7 = s6.drop_first();
    reveal_with_fuel(le_value, 3);
    if s.len() == 4 || s.len() == 8 {
        assert(le_value(s) == s[0] + 0x100 * s1[0] + 0x1_0000 * le_value(s2));
        assert(le_value(s2) == s2[0] + 0x100 * s3[0] + 0x1_0000 * le_value(s4));
    }
    if s.len() == 8 {
        assert(le_value(s4) == s4[0] + 0x100 * s5[0] + 0x1_0000 * le_value(s6));
        assert(le_value(s6) == s6[0] + 0x100 * s7[0]);
    }
}

/// The number of two byte strings, one behind the other, is that of the first one
/// and that of the second one, weighted by the values that the first one can hold.
pub proof fn law_little_endian_parts(a: Seq<u8>, b: Seq<u8>)
    ensures
        le_value(a + b) == le_value(a) + pow256(a.len()) * le_value(b),
    decreases a.len(),
{
    if a.len() == 0 {
        assert(a + b =~= b);
        let p = pow256(a.len());
        let v = le_value(b);
        assert(p == 1);
        assert(p * v == v) by (nonlinear_arith)
            requires
                p == 1,
        ;
    } else {
        law_little_endian_parts(a.drop_first(), b);
        assert((a + b).drop_first() =~= a.drop_first() + b);
        let p = pow256(a.drop_first().len());
        let v = le_value(b);
        assert((256 * p) * v == 256 * (p * v)) by (nonlinear_arith);
    }
}

/// The byte number `i` of a number is what is left of it once the `i` bytes below
/// are shifted out, without what lies above.
pub proof fn law_byte_of(x: nat, n: nat, i: nat)
    requires
        i < n,
    ensures
        le_bytes(x, n).len() == n,
        le_bytes(x, n)[i as int] == (x / pow256(i)) % 256,
    decreases n,
{
    lemma_le_bytes_len(x, n);
    if i > 0 {
        law_byte_of(x / 256, (n - 1) as nat, (i - 1) as nat);
        let p = pow256((i - 1) as nat);
        lemma_pow256_monotone(0, (i - 1) as nat);
        vstd::arithmetic::div_mod::lemma_div_denominator(x as int, 256, p as int);
        assert(256 * p == pow256(i));
    } else {
        let p = pow256(i);
        assert(p == 1);
        assert(x / p == x) by (nonlinear_arith)
            requires
                p == 1,
        ;
    }
}

} // verus!
