use vstd::prelude::*;

verus! {

/// `256` to the power `n`: one more than the largest value that `n` bytes hold.
pub open spec fn pow256(n: nat) -> nat
    decreases n,
{
    if n == 0 {
        1
    } else {
        256 * pow256((n - 1) as nat)
    }
}

/// The value of `s` read most-significant byte first.
pub open spec fn be_value(s: Seq<u8>) -> nat
    decreases s.len(),
{
    if s.len() == 0 {
        0
    } else {
        be_value(s.drop_last()) * 256 + s.last() as nat
    }
}

/// The value of `s` read least-significant byte first.
pub open spec fn le_value(s: Seq<u8>) -> nat
    decreases s.len(),
{
    if s.len() == 0 {
        0
    } else {
        s[0] as nat + 256 * le_value(s.drop_first())
    }
}

/// The unsigned value of `s` in the given byte order.
pub open spec fn unsigned_value(s: Seq<u8>, big: bool) -> nat {
    if big {
        be_value(s)
    } else {
        le_value(s)
    }
}

/// The two's-complement reading of the `n`-byte unsigned value `v`: values whose
/// top bit is set stand for `v - 256^n`.
pub open spec fn signed_value(v: nat, n: nat) -> int {
    if 2 * v < pow256(n) {
        v as int
    } else {
        v - pow256(n)
    }
}

/// A byte-order policy, selected by type.
pub trait ByteOrder {
    /// Whether the first byte is the most significant one.
    spec fn spec_is_big() -> bool;

    fn is_big() -> (r: bool)
        ensures
            r == Self::spec_is_big(),
    ;
}

/// Most-significant byte first.
pub struct BigEndian;

/// Least-significant byte first.
pub struct LittleEndian;

impl ByteOrder for BigEndian {
    open spec fn spec_is_big() -> bool {
        true
    }

    fn is_big() -> (r: bool) {
        true
    }
}

impl ByteOrder for LittleEndian {
    open spec fn spec_is_big() -> bool {
        false
    }

    fn is_big() -> (r: bool) {
        false
    }
}

pub proof fn lemma_pow256_positive(n: nat)
    ensures
        pow256(n) >= 1,
    decreases n,
{
    if n > 0 {
        lemma_pow256_positive((n - 1) as nat);
    }
}

pub proof fn lemma_pow256_monotone(m: nat, n: nat)
    requires
        m <= n,
    ensures
        pow256(m) <= pow256(n),
    decreases n,
{
    if m < n {
        lemma_pow256_monotone(m, (n - 1) as nat);
        lemma_pow256_positive((n - 1) as nat);
    }
}

pub proof fn lemma_pow256_values()
    ensures
        pow256(1) == 0x100,
        pow256(2) == 0x10000,
        pow256(3) == 0x1000000,
        pow256(4) == 0x100000000,
        pow256(6) == 0x1000000000000,
        pow256(7) == 0x100000000000000,
        pow256(8) == 0x10000000000000000,
        pow256(15) == 0x1000000000000000000000000000000,
        pow256(16) == 0x100000000000000000000000000000000,
{
    reveal_with_fuel(pow256, 17);
}

/// A two's-complement reading of `n` bytes lies in `[-256^n / 2, 256^n / 2)`.
pub proof fn lemma_signed_range(v: nat, n: nat)
    requires
        v < pow256(n),
    ensures
        -pow256(n) <= 2 * signed_value(v, n) < pow256(n),
{
}

/// An `n`-byte value, in either order, is below `256^n`.
pub proof fn lemma_value_bound(s: Seq<u8>, big: bool)
    ensures
        unsigned_value(s, big) < pow256(s.len()),
    decreases s.len(),
{
    if s.len() > 0 {
        lemma_value_bound(s.drop_last(), true);
        lemma_value_bound(s.drop_first(), false);
        let p = pow256((s.len() - 1) as nat);
        let a = be_value(s.drop_last());
        let b = le_value(s.drop_first());
        let x = s.last() as nat;
        let y = s[0] as nat;
        assert(a * 256 + x < 256 * p) by (nonlinear_arith)
            requires a < p, x < 256;
        assert(y + 256 * b < 256 * p) by (nonlinear_arith)
            requires b < p, y < 256;
    }
}

/// Reads the first `n` bytes of `s` as an unsigned integer in the given order.
pub fn decode_u64(s: &[u8], n: usize, big: bool) -> (r: u64)
    requires
        n <= 8,
        n <= s@.len(),
    ensures
        r == unsigned_value(s@.subrange(0, n as int), big),
{
    let ghost t = s@.subrange(0, n as int);
    let mut acc: u64 = 0;
    if big {
        let mut i: usize = 0;
        while i < n
            invariant
                i <= n <= 8,
                n <= s@.len(),
                t == s@.subrange(0, n as int),
                acc == be_value(t.subrange(0, i as int)),
            decreases n - i,
        {
            proof {
                let u = t.subrange(0, i as int);
                lemma_value_bound(u, true);
                lemma_pow256_monotone(i as nat, 7);
                lemma_pow256_values();
                let v = t.subrange(0, i + 1);
                assert(v.drop_last() =~= u);
                let a = acc as nat;
                let x = s@[i as int] as nat;
                assert(a * 256 + x < 0x10000000000000000) by (nonlinear_arith)
                    requires a < 0x100000000000000, x < 256;
            }
            acc = acc * 256 + s[i] as u64;
            i = i + 1;
        }
        assert(t.subrange(0, n as int) =~= t);
    } else {
        let mut i: usize = n;
        while i > 0
            invariant
                i <= n <= 8,
                n <= s@.len(),
                t == s@.subrange(0, n as int),
                acc == le_value(t.subrange(i as int, n as int)),
            decreases i,
        {
            proof {
                let u = t.subrange(i as int, n as int);
                lemma_value_bound(u, false);
                lemma_pow256_monotone((n - i) as nat, 7);
                lemma_pow256_values();
                let v = t.subrange(i - 1, n as int);
                assert(v.drop_first() =~= u);
                let a = acc as nat;
                let x = s@[i - 1] as nat;
                assert(x + 256 * a < 0x10000000000000000) by (nonlinear_arith)
                    requires a < 0x100000000000000, x < 256;
            }
            acc = s[i - 1] as u64 + 256 * acc;
            i = i - 1;
        }
        assert(t.subrange(0, n as int) =~= t);
    }
    acc
}

/// Reads the first `n` bytes of `s` as an unsigned integer in the given order.
pub fn decode_u128(s: &[u8], n: usize, big: bool) -> (r: u128)
    requires
        n <= 16,
        n <= s@.len(),
    ensures
        r == unsigned_value(s@.subrange(0, n as int), big),
{
    let ghost t = s@.subrange(0, n as int);
    let mut acc: u128 = 0;
    if big {
        let mut i: usize = 0;
        while i < n
            invariant
                i <= n <= 16,
                n <= s@.len(),
                t == s@.subrange(0, n as int),
                acc == be_value(t.subrange(0, i as int)),
            decreases n - i,
        {
            proof {
                let u = t.subrange(0, i as int);
                lemma_value_bound(u, true);
                lemma_pow256_monotone(i as nat, 15);
                lemma_pow256_values();
                let v = t.subrange(0, i + 1);
                assert(v.drop_last() =~= u);
                let a = acc as nat;
                let x = s@[i as int] as nat;
                assert(a * 256 + x < 0x100000000000000000000000000000000) by (nonlinear_arith)
                    requires a < 0x1000000000000000000000000000000, x < 256;
            }
            acc = acc * 256 + s[i] as u128;
            i = i + 1;
        }
        assert(t.subrange(0, n as int) =~= t);
    } else {
        let mut i: usize = n;
        while i > 0
            invariant
                i <= n <= 16,
                n <= s@.len(),
                t == s@.subrange(0, n as int),
                acc == le_value(t.subrange(i as int, n as int)),
            decreases i,
        {
            proof {
                let u = t.subrange(i as int, n as int);
                lemma_value_bound(u, false);
                lemma_pow256_monotone((n - i) as nat, 15);
                lemma_pow256_values();
                let v = t.subrange(i - 1, n as int);
                assert(v.drop_first() =~= u);
                let a = acc as nat;
                let x = s@[i - 1] as nat;
                assert(x + 256 * a < 0x100000000000000000000000000000000) by (nonlinear_arith)
                    requires a < 0x1000000000000000000000000000000, x < 256;
            }
            acc = s[i - 1] as u128 + 256 * acc;
            i = i - 1;
        }
        assert(t.subrange(0, n as int) =~= t);
    }
    acc
}

/// `256^k` for `k` up to seven.
fn pow256_u64(k: usize) -> (r: u64)
    requires
        k <= 7,
    ensures
        r == pow256(k as nat),
{
    let mut p: u64 = 1;
    let mut i: usize = 0;
    while i < k
        invariant
            i <= k <= 7,
            p == pow256(i as nat),
        decreases k - i,
    {
        proof {
            lemma_pow256_monotone((i + 1) as nat, 7);
            lemma_pow256_values();
        }
        p = p * 256;
        i = i + 1;
    }
    p
}

/// `256^k` for `k` up to fifteen.
fn pow256_u128(k: usize) -> (r: u128)
    requires
        k <= 15,
    ensures
        r == pow256(k as nat),
{
    let mut p: u128 = 1;
    let mut i: usize = 0;
    while i < k
        invariant
            i <= k <= 15,
            p == pow256(i as nat),
        decreases k - i,
    {
        proof {
            lemma_pow256_monotone((i + 1) as nat, 15);
            lemma_pow256_values();
        }
        p = p * 256;
        i = i + 1;
    }
    p
}

/// Sign-extends the `n`-byte value `x` to 64 bits.
pub fn sign_extend_i64(x: u64, n: usize) -> (r: i64)
    requires
        1 <= n <= 8,
        x < pow256(n as nat),
    ensures
        r == signed_value(x as nat, n as nat),
{
    proof {
        lemma_pow256_monotone((n - 1) as nat, 7);
        lemma_pow256_values();
    }
    let half: u64 = 128 * pow256_u64(n - 1);
    if x < half {
        x as i64
    } else {
        ((x - half) as i64) - ((half - 1) as i64) - 1
    }
}

/// Sign-extends the `n`-byte value `x` to 128 bits.
pub fn sign_extend_i128(x: u128, n: usize) -> (r: i128)
    requires
        1 <= n <= 16,
        x < pow256(n as nat),
    ensures
        r == signed_value(x as nat, n as nat),
{
    proof {
        lemma_pow256_monotone((n - 1) as nat, 15);
        lemma_pow256_values();
    }
    let half: u128 = 128 * pow256_u128(n - 1);
    if x < half {
        x as i128
    } else {
        ((x - half) as i128) - ((half - 1) as i128) - 1
    }
}

} // verus!
