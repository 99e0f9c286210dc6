//! 256-bit unsigned integers as used for transaction values and gas limits.
//!
//! A value is held canonically as four 64-bit limbs, least significant
//! first, so equality of values is structural equality. The persistent
//! store encodes a value as exactly 32 big-endian bytes.

use vstd::prelude::*;
use vstd::string::StringSliceAdditionalSpecFns;

verus! {

/// 2^64 as a spec-level constant.
pub open spec fn b64() -> nat {
    0x1_0000_0000_0000_0000nat
}

/// 2^128 as a spec-level constant.
pub open spec fn b128() -> nat {
    0x1_0000_0000_0000_0000_0000_0000_0000_0000nat
}

/// 2^192 as a spec-level constant.
pub open spec fn b192() -> nat {
    0x1_0000_0000_0000_0000_0000_0000_0000_0000_0000_0000_0000_0000nat
}

/// 2^256 as a spec-level constant: one more than the largest value.
pub open spec fn b256() -> nat {
    0x1_0000_0000_0000_0000_0000_0000_0000_0000_0000_0000_0000_0000_0000_0000_0000_0000nat
}

/// 256^n.
pub open spec fn pow256(n: nat) -> nat
    decreases n,
{
    if n == 0 {
        1
    } else {
        256 * pow256((n - 1) as nat)
    }
}

/// The number a big-endian byte sequence stands for.
pub open spec fn be_val(s: Seq<u8>) -> nat
    decreases s.len(),
{
    if s.len() == 0 {
        0
    } else {
        256 * be_val(s.drop_last()) + (s.last() as nat)
    }
}

/// A 256-bit unsigned integer, four 64-bit limbs, least significant first.
#[derive(Clone, Copy, PartialEq, Eq, Structural, Debug, Hash)]
pub struct U256 {
    pub limb0: u64,
    pub limb1: u64,
    pub limb2: u64,
    pub limb3: u64,
}

impl U256 {
    /// The number this value stands for.
    pub open spec fn val(self) -> nat {
        (self.limb0 as nat) + (self.limb1 as nat) * b64() + (self.limb2 as nat) * b128() + (
        self.limb3 as nat) * b192()
    }

    /// The zero value.
    pub fn zero() -> (r: U256)
        ensures
            r.val() == 0,
    {
        U256 { limb0: 0, limb1: 0, limb2: 0, limb3: 0 }
    }

    /// The value of a small integer.
    pub fn from_u64(x: u64) -> (r: U256)
        ensures
            r.val() == x,
    {
        U256 { limb0: x, limb1: 0, limb2: 0, limb3: 0 }
    }
}

pub proof fn lemma_pow256_pos(n: nat)
    ensures
        pow256(n) >= 1,
    decreases n,
{
    if n > 0 {
        lemma_pow256_pos((n - 1) as nat);
    }
}

pub proof fn lemma_pow256_monotone(a: nat, b: nat)
    requires
        a <= b,
    ensures
        pow256(a) <= pow256(b),
    decreases b,
{
    if a < b {
        lemma_pow256_monotone(a, (b - 1) as nat);
        lemma_pow256_pos((b - 1) as nat);
    }
}

pub proof fn lemma_pow256_add(a: nat, b: nat)
    ensures
        pow256(a + b) == pow256(a) * pow256(b),
    decreases b,
{
    if b == 0 {
        assert(pow256(a + 0) == pow256(a) * 1);
    } else {
        lemma_pow256_add(a, (b - 1) as nat);
        assert(pow256(a + b) == 256 * pow256((a + b - 1) as nat));
        assert(pow256(a) * (256 * pow256((b - 1) as nat)) == 256 * (pow256(a) * pow256(
            (b - 1) as nat,
        ))) by (nonlinear_arith);
    }
}

/// Useful concrete powers: one byte group of a limb, and the limb widths.
pub proof fn lemma_pow256_values()
    ensures
        pow256(0) == 1,
        pow256(1) == 0x100,
        pow256(2) == 0x1_0000,
        pow256(3) == 0x100_0000,
        pow256(4) == 0x1_0000_0000,
        pow256(5) == 0x100_0000_0000,
        pow256(6) == 0x1_0000_0000_0000,
        pow256(7) == 0x100_0000_0000_0000,
        pow256(8) == b64(),
        pow256(16) == b128(),
        pow256(24) == b192(),
        pow256(32) == b256(),
{
    assert(pow256(0) == 1);
    assert(pow256(1) == 0x100);
    assert(pow256(2) == 0x1_0000);
    assert(pow256(3) == 0x100_0000);
    assert(pow256(4) == 0x1_0000_0000);
    assert(pow256(5) == 0x100_0000_0000);
    assert(pow256(6) == 0x1_0000_0000_0000);
    assert(pow256(7) == 0x100_0000_0000_0000);
    assert(pow256(8) == b64());
    lemma_pow256_add(8, 8);
    lemma_pow256_add(16, 8);
    lemma_pow256_add(24, 8);
}

/// A big-endian byte sequence of length n stands for a number below 256^n.
pub proof fn lemma_be_val_bound(s: Seq<u8>)
    ensures
        be_val(s) < pow256(s.len()),
    decreases s.len(),
{
    if s.len() > 0 {
        lemma_be_val_bound(s.drop_last());
    }
}

/// Concatenation shifts the prefix by 256^(length of the suffix).
pub proof fn lemma_be_val_concat(a: Seq<u8>, b: Seq<u8>)
    ensures
        be_val(a + b) == be_val(a) * pow256(b.len()) + be_val(b),
    decreases b.len(),
{
    if b.len() == 0 {
        assert(a + b =~= a);
        assert(be_val(b) == 0);
        assert(pow256(b.len()) == 1);
        assert(be_val(a) * 1 == be_val(a)) by (nonlinear_arith);
        assert(be_val(a + b) == be_val(a) * pow256(b.len()) + be_val(b));
    } else {
        let n = b.len();
        let x = be_val(a);
        let y = be_val(b.drop_last());
        let l = b.last() as nat;
        lemma_be_val_concat(a, b.drop_last());
        assert((a + b).drop_last() =~= a + b.drop_last());
        assert((a + b).last() == b.last());
        assert(be_val(a + b.drop_last()) == x * pow256((n - 1) as nat) + y);
        assert(be_val(a + b) == 256 * be_val(a + b.drop_last()) + l);
        assert(be_val(b) == 256 * y + l);
        assert(pow256(n) == 256 * pow256((n - 1) as nat));
        assert(256 * (x * pow256((n - 1) as nat)) == x * (256 * pow256((n - 1) as nat)))
            by (nonlinear_arith);
        assert(be_val(a + b) == x * pow256(n) + be_val(b));
    }
}

/// Equal numbers in equally many big-endian bytes are the same bytes.
pub proof fn lemma_be_val_injective(a: Seq<u8>, b: Seq<u8>)
    requires
        a.len() == b.len(),
        be_val(a) == be_val(b),
    ensures
        a =~= b,
    decreases a.len(),
{
    if a.len() > 0 {
        assert(a.last() == b.last() && be_val(a.drop_last()) == be_val(b.drop_last()));
        lemma_be_val_injective(a.drop_last(), b.drop_last());
        assert(a =~= a.drop_last().push(a.last()));
        assert(b =~= b.drop_last().push(b.last()));
    }
}

/// A sequence of zero bytes stands for zero.
pub proof fn lemma_be_val_all_zero(s: Seq<u8>)
    requires
        forall|i: int| 0 <= i < s.len() ==> s[i] == 0,
    ensures
        be_val(s) == 0,
    decreases s.len(),
{
    if s.len() > 0 {
        lemma_be_val_all_zero(s.drop_last());
    }
}

/// Every value is below 2^256.
pub proof fn lemma_val_bound(v: U256)
    ensures
        v.val() < b256(),
{
    assert((v.limb1 as nat) * b64() <= (b64() - 1) * b64()) by (nonlinear_arith)
        requires
            v.limb1 < b64(),
    ;
    assert((v.limb2 as nat) * b128() <= (b64() - 1) * b128()) by (nonlinear_arith)
        requires
            v.limb2 < b64(),
    ;
    assert((v.limb3 as nat) * b192() <= (b64() - 1) * b192()) by (nonlinear_arith)
        requires
            v.limb3 < b64(),
    ;
}

/// The number a little-endian byte sequence stands for.
pub open spec fn le_val(s: Seq<u8>) -> nat {
    be_val(s.reverse())
}

/// One limb read from at most eight big-endian bytes of a blob.
fn be_limb(bytes: &Vec<u8>, lo: usize, hi: usize) -> (l: u64)
    requires
        lo <= hi <= bytes@.len(),
        hi - lo <= 8,
    ensures
        l == be_val(bytes@.subrange(lo as int, hi as int)),
{
    let mut l: u64 = 0;
    let mut i: usize = lo;
    proof {
        assert(bytes@.subrange(lo as int, lo as int) =~= Seq::<u8>::empty());
    }
    while i < hi
        invariant
            lo <= i <= hi <= bytes@.len(),
            hi - lo <= 8,
            l == be_val(bytes@.subrange(lo as int, i as int)),
        decreases hi - i,
    {
        proof {
            lemma_be_val_bound(bytes@.subrange(lo as int, i as int));
            lemma_pow256_monotone((i - lo) as nat, 7);
            lemma_pow256_values();
        }
        let b = bytes[i];
        l = l * 256 + (b as u64);
        proof {
            assert(bytes@.subrange(lo as int, i + 1).drop_last() =~= bytes@.subrange(
                lo as int,
                i as int,
            ));
            assert(bytes@.subrange(lo as int, i + 1).last() == bytes@[i as int]);
        }
        i = i + 1;
    }
    l
}

impl U256 {
    /// Decode up to 32 big-endian bytes, most significant first; shorter
    /// input stands for the same number with leading zero bytes. More
    /// than 32 bytes cannot be decoded.
    pub fn from_be_bytes(bytes: &Vec<u8>) -> (r: Option<U256>)
        ensures
            (bytes@.len() > 32) == (r is None),
            r matches Some(u) ==> u.val() == be_val(bytes@),
    {
        let n = bytes.len();
        if n > 32 {
            return None;
        }
        let c1 = if n >= 8 {
            n - 8
        } else {
            0
        };
        let c2 = if n >= 16 {
            n - 16
        } else {
            0
        };
        let c3 = if n >= 24 {
            n - 24
        } else {
            0
        };
        let z0 = be_limb(bytes, c1, n);
        let z1 = be_limb(bytes, c2, c1);
        let z2 = be_limb(bytes, c3, c2);
        let z3 = be_limb(bytes, 0, c3);
        let u = U256 { limb0: z0, limb1: z1, limb2: z2, limb3: z3 };
        proof {
            let s = bytes@;
            let g3 = s.subrange(0, c3 as int);
            let g2 = s.subrange(c3 as int, c2 as int);
            let g1 = s.subrange(c2 as int, c1 as int);
            let g0 = s.subrange(c1 as int, n as int);
            assert(g3 + g2 =~= s.subrange(0, c2 as int));
            assert(g3 + g2 + g1 =~= s.subrange(0, c1 as int));
            assert(g3 + g2 + g1 + g0 =~= s);
            lemma_be_val_concat(g3, g2);
            lemma_be_val_concat(g3 + g2, g1);
            lemma_be_val_concat(g3 + g2 + g1, g0);
            lemma_pow256_values();
            let p0 = pow256((n - c1) as nat);
            let p1 = pow256((c1 - c2) as nat);
            let p2 = pow256((c2 - c3) as nat);
            let w2 = be_val(g3 + g2);
            let w1 = be_val(g3 + g2 + g1);
            assert(be_val(s) == w1 * p0 + z0);
            assert(w1 == w2 * p1 + z1);
            assert(w2 == (z3 as nat) * p2 + z2);
            assert(be_val(s) == z0 + (z1 as nat) * p0 + (z2 as nat) * (p1 * p0) + (z3 as nat) * (p2
                * (p1 * p0))) by (nonlinear_arith)
                requires
                    be_val(s) == w1 * p0 + z0,
                    w1 == w2 * p1 + z1,
                    w2 == (z3 as nat) * p2 + z2,
            ;
            lemma_pow256_add((c1 - c2) as nat, (n - c1) as nat);
            assert(p1 * p0 == pow256((n - c2) as nat));
            lemma_pow256_add((c2 - c3) as nat, (n - c2) as nat);
            assert(p2 * (p1 * p0) == pow256((n - c3) as nat));
            if c1 == 0 {
                assert(g1 =~= Seq::<u8>::empty());
            }
            if c2 == 0 {
                assert(g2 =~= Seq::<u8>::empty());
            }
            if c3 == 0 {
                assert(g3 =~= Seq::<u8>::empty());
            }
            assert((z1 as nat) * p0 == (z1 as nat) * b64()) by (nonlinear_arith)
                requires
                    p0 == b64() || z1 == 0,
            ;
            assert((z2 as nat) * pow256((n - c2) as nat) == (z2 as nat) * b128())
                by (nonlinear_arith)
                requires
                    pow256((n - c2) as nat) == b128() || z2 == 0,
            ;
            assert((z3 as nat) * pow256((n - c3) as nat) == (z3 as nat) * b192())
                by (nonlinear_arith)
                requires
                    pow256((n - c3) as nat) == b192() || z3 == 0,
            ;
        }
        Some(u)
    }

    /// Decode up to 32 little-endian bytes, least significant first.
    pub fn from_le_bytes(bytes: &Vec<u8>) -> (r: Option<U256>)
        ensures
            (bytes@.len() > 32) == (r is None),
            r matches Some(u) ==> u.val() == le_val(bytes@),
    {
        let n = bytes.len();
        let mut rev: Vec<u8> = Vec::new();
        let mut k: usize = 0;
        while k < n
            invariant
                n == bytes@.len(),
                0 <= k <= n,
                rev@.len() == k,
                forall|j: int| 0 <= j < k ==> rev@[j] == bytes@[n - 1 - j],
            decreases n - k,
        {
            let b = bytes[n - 1 - k];
            rev.push(b);
            k = k + 1;
        }
        proof {
            assert(rev@ =~= bytes@.reverse());
        }
        U256::from_be_bytes(&rev)
    }

    /// Encode as exactly 32 big-endian bytes.
    pub fn to_be_bytes(&self) -> (r: Vec<u8>)
        ensures
            r@.len() == 32,
            be_val(r@) == self.val(),
    {
        let mut out: Vec<u8> = Vec::new();
        push_be_limb(&mut out, self.limb3);
        let ghost s3 = out@;
        push_be_limb(&mut out, self.limb2);
        let ghost s2 = out@;
        push_be_limb(&mut out, self.limb1);
        let ghost s1 = out@;
        push_be_limb(&mut out, self.limb0);
        proof {
            let s = out@;
            lemma_pow256_values();
            assert(s.subrange(0, 24) =~= s1);
            assert(s1.subrange(0, 16) =~= s2);
            assert(s2.subrange(0, 8) =~= s3);
            assert(s3.subrange(0, 8) =~= s3);
            assert(s2 =~= s2.subrange(0, 8) + s2.subrange(8, 16));
            assert(s1 =~= s1.subrange(0, 16) + s1.subrange(16, 24));
            assert(s =~= s.subrange(0, 24) + s.subrange(24, 32));
            lemma_be_val_concat(s2.subrange(0, 8), s2.subrange(8, 16));
            lemma_be_val_concat(s1.subrange(0, 16), s1.subrange(16, 24));
            lemma_be_val_concat(s.subrange(0, 24), s.subrange(24, 32));
            let z3 = self.limb3 as nat;
            let z2 = self.limb2 as nat;
            let z1 = self.limb1 as nat;
            let z0 = self.limb0 as nat;
            assert(be_val(s3) == z3);
            assert(be_val(s2) == z3 * b64() + z2);
            assert(be_val(s1) == (z3 * b64() + z2) * b64() + z1);
            assert(be_val(s) == ((z3 * b64() + z2) * b64() + z1) * b64() + z0);
            assert(((z3 * b64() + z2) * b64() + z1) * b64() + z0 == z0 + z1 * b64() + z2 * b128()
                + z3 * b192()) by (nonlinear_arith)
                requires
                    b128() == b64() * b64(),
                    b192() == b128() * b64(),
            ;
        }
        out
    }
}

/// Append the eight big-endian bytes of one limb.
fn push_be_limb(out: &mut Vec<u8>, l: u64)
    ensures
        final(out)@.len() == old(out)@.len() + 8,
        final(out)@.subrange(0, old(out)@.len() as int) == old(out)@,
        be_val(final(out)@.subrange(old(out)@.len() as int, final(out)@.len() as int)) == l,
{
    let base = out.len();
    let q1 = l / 256;
    let r0 = (l % 256) as u8;
    let q2 = q1 / 256;
    let r1 = (q1 % 256) as u8;
    let q3 = q2 / 256;
    let r2 = (q2 % 256) as u8;
    let q4 = q3 / 256;
    let r3 = (q3 % 256) as u8;
    let q5 = q4 / 256;
    let r4 = (q4 % 256) as u8;
    let q6 = q5 / 256;
    let r5 = (q5 % 256) as u8;
    let q7 = q6 / 256;
    let r6 = (q6 % 256) as u8;
    proof {
        assert(q1 < 0x100_0000_0000_0000);
        assert(q2 < 0x1_0000_0000_0000);
        assert(q3 < 0x100_0000_0000);
        assert(q4 < 0x1_0000_0000);
        assert(q5 < 0x100_0000);
        assert(q6 < 0x1_0000);
        assert(q7 < 0x100);
    }
    let r7 = q7 as u8;
    out.push(r7);
    out.push(r6);
    out.push(r5);
    out.push(r4);
    out.push(r3);
    out.push(r2);
    out.push(r1);
    out.push(r0);
    proof {
        let s = out@;
        let b = base as int;
        assert(s.subrange(b, b + 1).drop_last() =~= Seq::<u8>::empty());
        assert(s.subrange(b, b + 2).drop_last() =~= s.subrange(b, b + 1));
        assert(s.subrange(b, b + 3).drop_last() =~= s.subrange(b, b + 2));
        assert(s.subrange(b, b + 4).drop_last() =~= s.subrange(b, b + 3));
        assert(s.subrange(b, b + 5).drop_last() =~= s.subrange(b, b + 4));
        assert(s.subrange(b, b + 6).drop_last() =~= s.subrange(b, b + 5));
        assert(s.subrange(b, b + 7).drop_last() =~= s.subrange(b, b + 6));
        assert(s.subrange(b, b + 8).drop_last() =~= s.subrange(b, b + 7));
        assert(s[b] == r7 && s[b + 1] == r6 && s[b + 2] == r5 && s[b + 3] == r4 && s[b + 4] == r3
            && s[b + 5] == r2 && s[b + 6] == r1 && s[b + 7] == r0);
        assert(s.subrange(b, b + 1).last() == r7);
        assert(be_val(Seq::<u8>::empty()) == 0);
        assert(be_val(s.subrange(b, b + 1)) == (r7 as nat));
        assert((r7 as nat) == q7);
        assert(be_val(s.subrange(b, b + 1)) == q7);
        assert(be_val(s.subrange(b, b + 2)) == q6);
        assert(be_val(s.subrange(b, b + 3)) == q5);
        assert(be_val(s.subrange(b, b + 4)) == q4);
        assert(be_val(s.subrange(b, b + 5)) == q3);
        assert(be_val(s.subrange(b, b + 6)) == q2);
        assert(be_val(s.subrange(b, b + 7)) == q1);
        assert(be_val(s.subrange(b, b + 8)) == l);
        assert(s.subrange(0, b) =~= old(out)@);
    }
}

/// The canonical value holding a given number below 2^256: its base-2^64
/// digits, least significant first.
pub open spec fn u256_of(v: nat) -> U256 {
    U256 {
        limb0: (v % b64()) as u64,
        limb1: ((v / b64()) % b64()) as u64,
        limb2: ((v / b128()) % b64()) as u64,
        limb3: ((v / b192()) % b64()) as u64,
    }
}

/// The canonical value stands for the number it was made from.
pub proof fn lemma_u256_of_val(v: nat)
    requires
        v < b256(),
    ensures
        u256_of(v).val() == v,
{
    let q1 = v / b64();
    let q2 = v / b128();
    let q3 = v / b192();
    let m0 = v % b64();
    let m1 = q1 % b64();
    let m2 = q2 % b64();
    let m3 = q3 % b64();
    vstd::arithmetic::div_mod::lemma_fundamental_div_mod(v as int, b64() as int);
    vstd::arithmetic::div_mod::lemma_fundamental_div_mod(q1 as int, b64() as int);
    vstd::arithmetic::div_mod::lemma_fundamental_div_mod(q2 as int, b64() as int);
    vstd::arithmetic::div_mod::lemma_div_denominator(v as int, b64() as int, b64() as int);
    assert(q2 == q1 / b64());
    vstd::arithmetic::div_mod::lemma_div_denominator(v as int, b128() as int, b64() as int);
    assert(q3 == q2 / b64());
    assert(q3 < b64()) by (nonlinear_arith)
        requires
            v < b256(),
            q3 == v / b192(),
            b256() == b192() * b64(),
    ;
    vstd::arithmetic::div_mod::lemma_small_mod(q3, b64());
    assert(m3 == q3);
    assert(v == ((q3 * b64() + m2) * b64() + m1) * b64() + m0);
    assert(((q3 * b64() + m2) * b64() + m1) * b64() + m0 == m0 + m1 * b64() + m2 * b128() + q3
        * b192()) by (nonlinear_arith)
        requires
            b128() == b64() * b64(),
            b192() == b128() * b64(),
    ;
    assert(u256_of(v).limb0 == m0 && u256_of(v).limb1 == m1 && u256_of(v).limb2 == m2 && u256_of(
        v,
    ).limb3 == m3);
}

/// 16^n.
pub open spec fn pow16(n: nat) -> nat
    decreases n,
{
    if n == 0 {
        1
    } else {
        16 * pow16((n - 1) as nat)
    }
}

/// Whether a byte is an ASCII hexadecimal digit.
pub open spec fn is_hex_digit(b: u8) -> bool {
    (0x30 <= b <= 0x39) || (0x61 <= b <= 0x66) || (0x41 <= b <= 0x46)
}

/// The value of an ASCII hexadecimal digit; zero on other bytes.
pub open spec fn hex_digit_val(b: u8) -> nat {
    if 0x30 <= b <= 0x39 {
        (b - 0x30) as nat
    } else if 0x61 <= b <= 0x66 {
        (b - 0x61 + 10) as nat
    } else if 0x41 <= b <= 0x46 {
        (b - 0x41 + 10) as nat
    } else {
        0
    }
}

/// The number a sequence of hexadecimal digit bytes stands for.
pub open spec fn hex_val(s: Seq<u8>) -> nat
    decreases s.len(),
{
    if s.len() == 0 {
        0
    } else {
        16 * hex_val(s.drop_last()) + hex_digit_val(s.last())
    }
}

/// Whether a byte is an ASCII decimal digit.
pub open spec fn is_dec_digit(b: u8) -> bool {
    0x30 <= b <= 0x39
}

/// The value of an ASCII decimal digit; zero on other bytes.
pub open spec fn dec_digit_val(b: u8) -> nat {
    if 0x30 <= b <= 0x39 {
        (b - 0x30) as nat
    } else {
        0
    }
}

/// The number a sequence of decimal digit bytes stands for.
pub open spec fn dec_val(s: Seq<u8>) -> nat
    decreases s.len(),
{
    if s.len() == 0 {
        0
    } else {
        10 * dec_val(s.drop_last()) + dec_digit_val(s.last())
    }
}

/// A hexadecimal text with one optional leading "0x" marker removed.
pub open spec fn strip_hex_prefix(s: Seq<u8>) -> Seq<u8> {
    if s.len() >= 2 && s[0] == 0x30 && s[1] == 0x78 {
        s.skip(2)
    } else {
        s
    }
}

/// Why a hexadecimal text fails to decode: a byte that is no hex digit
/// (reported as the character it stands for), or more than 64 digits.
#[derive(Clone, Copy, PartialEq, Eq, Structural, Debug)]
pub enum HexParseError {
    InvalidCharacter(char),
    InvalidLength,
}

/// Why a decimal text fails to decode: a byte outside 0-9, or a number
/// that does not fit in 256 bits.
#[derive(Clone, Copy, PartialEq, Eq, Structural, Debug)]
pub enum DecParseError {
    InvalidCharacter,
    InvalidLength,
}

pub proof fn lemma_pow16_pos(n: nat)
    ensures
        pow16(n) >= 1,
    decreases n,
{
    if n > 0 {
        lemma_pow16_pos((n - 1) as nat);
    }
}

/// 16^(2n) == 256^n.
pub proof fn lemma_pow16_double(n: nat)
    ensures
        pow16(2 * n) == pow256(n),
    decreases n,
{
    if n > 0 {
        lemma_pow16_double((n - 1) as nat);
        assert(2 * n - 2 == 2 * ((n - 1) as nat));
        assert(pow16(2 * n) == 16 * pow16((2 * n - 1) as nat));
        assert(pow16((2 * n - 1) as nat) == 16 * pow16((2 * n - 2) as nat));
    }
}

/// A sequence of n hex digits stands for a number below 16^n.
pub proof fn lemma_hex_val_bound(s: Seq<u8>)
    ensures
        hex_val(s) < pow16(s.len()),
    decreases s.len(),
{
    if s.len() > 0 {
        lemma_hex_val_bound(s.drop_last());
        assert(hex_digit_val(s.last()) < 16);
    }
}

/// A longer decimal digit prefix never stands for a smaller number.
pub proof fn lemma_dec_val_prefix_monotone(s: Seq<u8>, a: nat, b: nat)
    requires
        a <= b <= s.len(),
    ensures
        dec_val(s.take(a as int)) <= dec_val(s.take(b as int)),
    decreases b - a,
{
    if a < b {
        lemma_dec_val_prefix_monotone(s, a, (b - 1) as nat);
        assert(s.take(b as int).drop_last() =~= s.take(b - 1));
        let y = dec_val(s.take(b - 1));
        assert(dec_val(s.take(b as int)) == 10 * y + dec_digit_val(s.take(b as int).last()));
        assert(y <= 10 * y);
    }
}

/// Multiply by ten and add one digit, with the carry out of 256 bits.
fn mul10_carry(v: U256, d: u8) -> (r: (U256, u64))
    requires
        d < 10,
    ensures
        r.0.val() + (r.1 as nat) * b256() == v.val() * 10 + d,
        (r.1 == 0) == (v.val() * 10 + d < b256()),
{
    let t0: u128 = (v.limb0 as u128) * 10 + (d as u128);
    let m0 = (t0 % 0x1_0000_0000_0000_0000u128) as u64;
    let c1 = (t0 / 0x1_0000_0000_0000_0000u128) as u64;
    let t1: u128 = (v.limb1 as u128) * 10 + (c1 as u128);
    let m1 = (t1 % 0x1_0000_0000_0000_0000u128) as u64;
    let c2 = (t1 / 0x1_0000_0000_0000_0000u128) as u64;
    let t2: u128 = (v.limb2 as u128) * 10 + (c2 as u128);
    let m2 = (t2 % 0x1_0000_0000_0000_0000u128) as u64;
    let c3 = (t2 / 0x1_0000_0000_0000_0000u128) as u64;
    let t3: u128 = (v.limb3 as u128) * 10 + (c3 as u128);
    let m3 = (t3 % 0x1_0000_0000_0000_0000u128) as u64;
    let c4 = (t3 / 0x1_0000_0000_0000_0000u128) as u64;
    let w = U256 { limb0: m0, limb1: m1, limb2: m2, limb3: m3 };
    proof {
        lemma_mul_carry_relation(
            v.val(),
            10,
            d as nat,
            v.limb0 as nat,
            v.limb1 as nat,
            v.limb2 as nat,
            v.limb3 as nat,
            m0 as nat,
            m1 as nat,
            m2 as nat,
            m3 as nat,
            c1 as nat,
            c2 as nat,
            c3 as nat,
            c4 as nat,
        );
        lemma_val_bound(w);
        assert(w.val() == (m0 as nat) + (m1 as nat) * b64() + (m2 as nat) * b128() + (m3 as nat)
            * b192());
        if c4 == 0 {
            assert(v.val() * 10 + d < b256());
        } else {
            assert((c4 as nat) * b256() >= b256()) by (nonlinear_arith)
                requires
                    c4 >= 1,
            ;
        }
    }
    (w, c4)
}

/// Multiply by sixteen and add one digit, with the carry out of 256 bits.
fn mul16_carry(v: U256, d: u8) -> (r: (U256, u64))
    requires
        d < 16,
    ensures
        r.0.val() + (r.1 as nat) * b256() == v.val() * 16 + d,
        (r.1 == 0) == (v.val() * 16 + d < b256()),
{
    let t0: u128 = (v.limb0 as u128) * 16 + (d as u128);
    let m0 = (t0 % 0x1_0000_0000_0000_0000u128) as u64;
    let c1 = (t0 / 0x1_0000_0000_0000_0000u128) as u64;
    let t1: u128 = (v.limb1 as u128) * 16 + (c1 as u128);
    let m1 = (t1 % 0x1_0000_0000_0000_0000u128) as u64;
    let c2 = (t1 / 0x1_0000_0000_0000_0000u128) as u64;
    let t2: u128 = (v.limb2 as u128) * 16 + (c2 as u128);
    let m2 = (t2 % 0x1_0000_0000_0000_0000u128) as u64;
    let c3 = (t2 / 0x1_0000_0000_0000_0000u128) as u64;
    let t3: u128 = (v.limb3 as u128) * 16 + (c3 as u128);
    let m3 = (t3 % 0x1_0000_0000_0000_0000u128) as u64;
    let c4 = (t3 / 0x1_0000_0000_0000_0000u128) as u64;
    let w = U256 { limb0: m0, limb1: m1, limb2: m2, limb3: m3 };
    proof {
        lemma_mul_carry_relation(
            v.val(),
            16,
            d as nat,
            v.limb0 as nat,
            v.limb1 as nat,
            v.limb2 as nat,
            v.limb3 as nat,
            m0 as nat,
            m1 as nat,
            m2 as nat,
            m3 as nat,
            c1 as nat,
            c2 as nat,
            c3 as nat,
            c4 as nat,
        );
        lemma_val_bound(w);
        if c4 == 0 {
            assert(v.val() * 16 + d < b256());
        } else {
            assert((c4 as nat) * b256() >= b256()) by (nonlinear_arith)
                requires
                    c4 >= 1,
            ;
        }
    }
    (w, c4)
}

/// Schoolbook multiply-by-digit over base-2^64 limbs: the new limbs plus
/// the final carry weighted by 2^256 make up base times the value plus
/// the added digit.
proof fn lemma_mul_carry_relation(
    val: nat,
    base: nat,
    d: nat,
    l0: nat,
    l1: nat,
    l2: nat,
    l3: nat,
    m0: nat,
    m1: nat,
    m2: nat,
    m3: nat,
    c1: nat,
    c2: nat,
    c3: nat,
    c4: nat,
)
    requires
        val == l0 + l1 * b64() + l2 * b128() + l3 * b192(),
        l0 * base + d == c1 * b64() + m0,
        l1 * base + c1 == c2 * b64() + m1,
        l2 * base + c2 == c3 * b64() + m2,
        l3 * base + c3 == c4 * b64() + m3,
    ensures
        m0 + m1 * b64() + m2 * b128() + m3 * b192() + c4 * b256() == val * base + d,
{
    assert(m0 + m1 * b64() + m2 * b128() + m3 * b192() + c4 * b256() == (l0 + l1 * b64() + l2
        * b128() + l3 * b192()) * base + d) by (nonlinear_arith)
        requires
            l0 * base + d == c1 * b64() + m0,
            l1 * base + c1 == c2 * b64() + m1,
            l2 * base + c2 == c3 * b64() + m2,
            l3 * base + c3 == c4 * b64() + m3,
            b128() == b64() * b64(),
            b192() == b128() * b64(),
            b256() == b192() * b64(),
    ;
}

/// The character a first invalid byte of a hexadecimal text stands for:
/// the byte at the first position that holds no hex digit.
pub open spec fn hex_first_bad_char(t: Seq<u8>, c: char) -> bool {
    exists|j: int|
        0 <= j < t.len() && !is_hex_digit(t[j]) && (forall|k: int| 0 <= k < j ==> is_hex_digit(t[k]))
            && c == t[j] as char
}

impl U256 {
    /// Decode hexadecimal text: an optional "0x" marker, then at most 64
    /// hex digits. Empty text stands for zero. The first byte that is no
    /// hex digit is reported as an invalid character; more than 64
    /// digits cannot be decoded.
    pub fn from_hex_str(s: &str) -> (r: Result<U256, HexParseError>)
        ensures
            ({
                let t = strip_hex_prefix(s.spec_bytes());
                &&& (r == Err::<U256, HexParseError>(HexParseError::InvalidLength)) == (t.len()
                    > 64)
                &&& (r matches Ok(u) ==> u.val() == hex_val(t))
                &&& (r is Ok) == (t.len() <= 64 && (forall|i: int|
                    0 <= i < t.len() ==> is_hex_digit(t[i])))
                &&& (r matches Err(HexParseError::InvalidCharacter(c)) ==> hex_first_bad_char(t, c))
            }),
    {
        let v: &[u8] = s.as_bytes();
        let n = v.len();
        let start: usize = if n >= 2 && v[0] == 0x30 && v[1] == 0x78 {
            2
        } else {
            0
        };
        let ghost t = strip_hex_prefix(s.spec_bytes());
        proof {
            assert(t =~= v@.skip(start as int));
        }
        let m = n - start;
        if m > 64 {
            return Err(HexParseError::InvalidLength);
        }
        let mut acc = U256::zero();
        let mut i: usize = 0;
        proof {
            assert(t.take(0) =~= Seq::<u8>::empty());
        }
        while i < m
            invariant
                start + m == n,
                n == v@.len(),
                m <= 64,
                0 <= i <= m,
                t == strip_hex_prefix(s.spec_bytes()),
                t =~= v@.skip(start as int),
                t.len() == m,
                forall|k: int| 0 <= k < i ==> is_hex_digit(t[k]),
                acc.val() == hex_val(t.take(i as int)),
            decreases m - i,
        {
            let b = v[start + i];
            assert(b == t[i as int]);
            let d: u8 = if b >= 0x30 && b <= 0x39 {
                b - 0x30
            } else if b >= 0x61 && b <= 0x66 {
                b - 0x61 + 10
            } else if b >= 0x41 && b <= 0x46 {
                b - 0x41 + 10
            } else {
                proof {
                    assert(!is_hex_digit(t[i as int]));
                    assert(hex_first_bad_char(t, b as char));
                    assert(!(forall|k: int| 0 <= k < t.len() ==> is_hex_digit(t[k])));
                }
                return Err(HexParseError::InvalidCharacter(b as char));
            };
            assert(is_hex_digit(b) && d == hex_digit_val(b));
            proof {
                lemma_hex_val_bound(t.take(i as int));
                lemma_pow16_pos((64 - i) as nat);
                assert(pow16(i as nat) * pow16((64 - i) as nat) == pow16(64)) by {
                    lemma_pow16_mul_split(i as nat);
                }
                assert(acc.val() < pow16(i as nat));
                assert(acc.val() * 16 + d < pow16((i + 1) as nat)) by (nonlinear_arith)
                    requires
                        acc.val() < pow16(i as nat),
                        d < 16,
                        pow16((i + 1) as nat) == 16 * pow16(i as nat),
                ;
                assert(pow16((i + 1) as nat) <= pow16(64)) by {
                    lemma_pow16_monotone((i + 1) as nat, 64);
                }
                assert(pow16(64) == b256()) by {
                    lemma_pow16_double(32);
                    lemma_pow256_values();
                }
            }
            let (next, carry) = mul16_carry(acc, d);
            assert(carry == 0);
            acc = next;
            proof {
                assert(t.take(i + 1).drop_last() =~= t.take(i as int));
                assert(t.take(i + 1).last() == t[i as int]);
            }
            i = i + 1;
        }
        proof {
            assert(t.take(m as int) =~= t);
        }
        Ok(acc)
    }

    /// Decode decimal text: at most enough digits for 256 bits. Empty
    /// text stands for zero. The first byte outside 0-9 is an invalid
    /// character, checked before the overflow of the running value, as
    /// the scan walks left to right.
    pub fn from_dec_str(s: &str) -> (r: Result<U256, DecParseError>)
        ensures
            ({
                let w = s.spec_bytes();
                &&& (r matches Ok(u) ==> u.val() == dec_val(w))
                &&& (r is Ok) == ((forall|i: int| 0 <= i < w.len() ==> is_dec_digit(w[i]))
                    && dec_val(w) < b256())
                &&& (r == Err::<U256, DecParseError>(DecParseError::InvalidCharacter)) == (exists|
                    j: int,
                |
                    0 <= j < w.len() && !is_dec_digit(w[j]) && (forall|k: int|
                        0 <= k < j ==> is_dec_digit(w[k])) && dec_val(w.take(j)) < b256())
                &&& (r == Err::<U256, DecParseError>(DecParseError::InvalidLength)) == (exists|
                    j: int,
                |
                    0 <= j <= w.len() && (forall|k: int| 0 <= k < j ==> is_dec_digit(w[k]))
                        && dec_val(w.take(j)) >= b256())
            }),
    {
        let v: &[u8] = s.as_bytes();
        let n = v.len();
        let ghost w = s.spec_bytes();
        let mut acc = U256::zero();
        let mut i: usize = 0;
        proof {
            assert(w.take(0) =~= Seq::<u8>::empty());
        }
        while i < n
            invariant
                n == v@.len(),
                w == v@,
                w == s.spec_bytes(),
                0 <= i <= n,
                forall|k: int| 0 <= k < i ==> is_dec_digit(w[k]),
                acc.val() == dec_val(w.take(i as int)),
                acc.val() < b256(),
            decreases n - i,
        {
            let b = v[i];
            if b < 0x30 || b > 0x39 {
                proof {
                    lemma_no_dec_overflow_prefix(w, i as nat, acc.val());
                    assert(!is_dec_digit(w[i as int]));
                    assert(0 <= i < w.len() && !is_dec_digit(w[i as int]) && (forall|k: int|
                        0 <= k < i ==> is_dec_digit(w[k])) && dec_val(w.take(i as int)) < b256());
                    assert(!(forall|k: int| 0 <= k < w.len() ==> is_dec_digit(w[k])));
                }
                return Err(DecParseError::InvalidCharacter);
            }
            let d: u8 = b - 0x30;
            let (next, carry) = mul10_carry(acc, d);
            proof {
                assert(w.take(i + 1).drop_last() =~= w.take(i as int));
                assert(w.take(i + 1).last() == w[i as int]);
                assert(dec_val(w.take(i + 1)) == acc.val() * 10 + d);
            }
            if carry != 0 {
                proof {
                    lemma_dec_overflow_final(w, (i + 1) as nat);
                }
                return Err(DecParseError::InvalidLength);
            }
            acc = next;
            i = i + 1;
        }
        proof {
            assert(w.take(n as int) =~= w);
            lemma_no_dec_overflow_all(w, acc.val());
        }
        Ok(acc)
    }
}

/// 16^k times 16^(64-k) is 16^64, for k at most 64.
proof fn lemma_pow16_mul_split(k: nat)
    requires
        k <= 64,
    ensures
        pow16(k) * pow16((64 - k) as nat) == pow16(64),
    decreases k,
{
    if k == 0 {
        lemma_pow16_pos(64);
        assert(1 * pow16(64) == pow16(64)) by (nonlinear_arith);
    } else {
        lemma_pow16_mul_split((k - 1) as nat);
        assert((16 * pow16((k - 1) as nat)) * pow16((64 - k) as nat) == 16 * (pow16((k - 1) as nat)
            * pow16((64 - k) as nat))) by (nonlinear_arith);
        assert(pow16((64 - (k - 1) as nat) as nat) == 16 * pow16((64 - k) as nat));
        assert(pow16((k - 1) as nat) * (16 * pow16((64 - k) as nat)) == 16 * (pow16(
            (k - 1) as nat,
        ) * pow16((64 - k) as nat))) by (nonlinear_arith);
    }
}

proof fn lemma_pow16_monotone(a: nat, b: nat)
    requires
        a <= b,
    ensures
        pow16(a) <= pow16(b),
    decreases b,
{
    if a < b {
        lemma_pow16_monotone(a, (b - 1) as nat);
        lemma_pow16_pos((b - 1) as nat);
    }
}

/// If the first i bytes are digits standing for a value below 2^256,
/// then no all-digit prefix up to i reaches 2^256; and a prefix past a
/// non-digit at i is no all-digit prefix at all.
proof fn lemma_no_dec_overflow_prefix(w: Seq<u8>, i: nat, accval: nat)
    requires
        i < w.len(),
        forall|k: int| 0 <= k < i ==> is_dec_digit(w[k]),
        !is_dec_digit(w[i as int]),
        accval == dec_val(w.take(i as int)),
        accval < b256(),
    ensures
        !(exists|j: int|
            0 <= j <= w.len() && (forall|k: int| 0 <= k < j ==> is_dec_digit(w[k])) && dec_val(
                w.take(j),
            ) >= b256()),
{
    assert forall|j: int|
        0 <= j <= w.len() && (forall|k: int| 0 <= k < j ==> is_dec_digit(w[k])) implies dec_val(
        w.take(j),
    ) < b256() by {
        assert(j <= i) by {
            if j > i {
                assert(is_dec_digit(w[i as int]));
            }
        }
        lemma_dec_val_prefix_monotone(w, j as nat, i);
    }
}

/// Once some all-digit prefix reaches 2^256, every longer view of the
/// text still holds that prefix.
proof fn lemma_dec_overflow_final(w: Seq<u8>, j: nat)
    requires
        j <= w.len(),
        forall|k: int| 0 <= k < j ==> is_dec_digit(w[k]),
        dec_val(w.take(j as int)) >= b256(),
    ensures
        exists|j2: int|
            0 <= j2 <= w.len() && (forall|k: int| 0 <= k < j2 ==> is_dec_digit(w[k])) && dec_val(
                w.take(j2),
            ) >= b256(),
        !(exists|j2: int|
            0 <= j2 < w.len() && !is_dec_digit(w[j2]) && (forall|k: int|
                0 <= k < j2 ==> is_dec_digit(w[k])) && dec_val(w.take(j2)) < b256()),
        !((forall|i: int| 0 <= i < w.len() ==> is_dec_digit(w[i])) && dec_val(w) < b256()),
{
    assert(0 <= j as int <= w.len() && (forall|k: int| 0 <= k < j as int ==> is_dec_digit(w[k]))
        && dec_val(w.take(j as int)) >= b256());
    assert forall|j2: int|
        0 <= j2 < w.len() && !is_dec_digit(w[j2]) && (forall|k: int|
            0 <= k < j2 ==> is_dec_digit(w[k])) implies dec_val(w.take(j2)) >= b256() by {
        assert(j <= j2) by {
            if j2 < j {
                assert(is_dec_digit(w[j2]));
            }
        }
        lemma_dec_val_prefix_monotone(w, j, j2 as nat);
    }
    if (forall|i: int| 0 <= i < w.len() ==> is_dec_digit(w[i])) {
        lemma_dec_val_prefix_monotone(w, j, w.len());
        assert(w.take(w.len() as int) =~= w);
    }
}

/// A text of digits whose value stays below 2^256 never overflows in
/// any prefix.
proof fn lemma_no_dec_overflow_all(w: Seq<u8>, accval: nat)
    requires
        forall|k: int| 0 <= k < w.len() ==> is_dec_digit(w[k]),
        accval == dec_val(w),
        accval < b256(),
    ensures
        !(exists|j: int|
            0 <= j <= w.len() && (forall|k: int| 0 <= k < j ==> is_dec_digit(w[k])) && dec_val(
                w.take(j),
            ) >= b256()),
{
    assert forall|j: int| 0 <= j <= w.len() implies dec_val(w.take(j)) < b256() by {
        lemma_dec_val_prefix_monotone(w, j as nat, w.len());
        assert(w.take(w.len() as int) =~= w);
    }
}

/// In a positional system with base B, digit and remaining weight are unique.
proof fn lemma_unique_digit(base: nat, x0: nat, y0: nat, p: nat, q: nat)
    requires
        base > 0,
        x0 < base,
        y0 < base,
        x0 + p * base == y0 + q * base,
    ensures
        x0 == y0,
        p == q,
{
    assert(x0 == y0 && p == q) by (nonlinear_arith)
        requires
            base > 0,
            x0 < base,
            y0 < base,
            x0 + p * base == y0 + q * base,
    ;
}

/// A value regrouped as least limb plus 2^64 times the rest.
proof fn lemma_val_regroup(v: U256)
    ensures
        v.val() == (v.limb0 as nat) + ((v.limb1 as nat) + (v.limb2 as nat) * b64() + (
        v.limb3 as nat) * b128()) * b64(),
{
    let x1 = v.limb1 as nat;
    let x2 = v.limb2 as nat;
    let x3 = v.limb3 as nat;
    assert(x1 * b64() + x2 * b128() + x3 * b192() == (x1 + x2 * b64() + x3 * b128()) * b64())
        by (nonlinear_arith)
        requires
            b128() == b64() * b64(),
            b192() == b128() * b64(),
    ;
}

/// The limbs are the base-2^64 digits of the value, so the value
/// determines them: equal values are equal limb by limb.
pub proof fn lemma_val_injective(a: U256, b: U256)
    requires
        a.val() == b.val(),
    ensures
        a == b,
{
    let ra = (a.limb1 as nat) + (a.limb2 as nat) * b64() + (a.limb3 as nat) * b128();
    let rb = (b.limb1 as nat) + (b.limb2 as nat) * b64() + (b.limb3 as nat) * b128();
    lemma_val_regroup(a);
    lemma_val_regroup(b);
    lemma_unique_digit(b64(), a.limb0 as nat, b.limb0 as nat, ra, rb);
    let sa = (a.limb2 as nat) + (a.limb3 as nat) * b64();
    let sb = (b.limb2 as nat) + (b.limb3 as nat) * b64();
    assert(sa * b64() == (a.limb2 as nat) * b64() + (a.limb3 as nat) * b128()) by (nonlinear_arith)
        requires
            sa == (a.limb2 as nat) + (a.limb3 as nat) * b64(),
            b128() == b64() * b64(),
    ;
    assert(sb * b64() == (b.limb2 as nat) * b64() + (b.limb3 as nat) * b128()) by (nonlinear_arith)
        requires
            sb == (b.limb2 as nat) + (b.limb3 as nat) * b64(),
            b128() == b64() * b64(),
    ;
    lemma_unique_digit(b64(), a.limb1 as nat, b.limb1 as nat, sa, sb);
    lemma_unique_digit(b64(), a.limb2 as nat, b.limb2 as nat, a.limb3 as nat, b.limb3 as nat);
}

} // verus!
