//! A small arbitrary-precision unsigned integer with 32-bit limbs, used to
//! move between byte strings, field elements and base-`b` digits.

use vstd::arithmetic::div_mod::*;
use vstd::arithmetic::mul::*;
use vstd::arithmetic::power::*;
use vstd::prelude::*;

verus! {

/// The limb radix, 2^32.
pub open spec fn radix() -> int {
    0x1_0000_0000
}

/// Little-endian value of a sequence of 32-bit limbs.
pub open spec fn limbs_val(s: Seq<u32>) -> nat
    decreases s.len(),
{
    if s.len() == 0 {
        0
    } else {
        (s[0] + radix() * limbs_val(s.drop_first())) as nat
    }
}

/// No most-significant zero limb.
pub open spec fn limbs_normalized(s: Seq<u32>) -> bool {
    s.len() == 0 || s.last() != 0
}

/// Little-endian value of a byte string.
pub open spec fn le_bytes_val(s: Seq<u8>) -> nat
    decreases s.len(),
{
    if s.len() == 0 {
        0
    } else {
        (s[0] + 256 * le_bytes_val(s.drop_first())) as nat
    }
}

/// Digit `i` of `v` in base `base` (zero for base zero).
pub open spec fn base_digit(v: nat, base: nat, i: nat) -> nat {
    if base == 0 {
        0
    } else {
        ((v as int / pow(base as int, i)) % (base as int)) as nat
    }
}

/// `b^(e+1) == b * b^e`.
pub proof fn lemma_pow_succ(b: int, e: nat)
    ensures
        pow(b, e + 1) == b * pow(b, e),
{
    reveal(pow);
}

/// `val(s ++ [x]) == val(s) + x * 2^(32 len)`.
pub proof fn lemma_limbs_val_push(s: Seq<u32>, x: u32)
    ensures
        limbs_val(s.push(x)) == limbs_val(s) + x * pow(radix(), s.len()),
    decreases s.len(),
{
    let t = s.push(x);
    if s.len() == 0 {
        assert(t.drop_first() =~= Seq::<u32>::empty());
        assert(limbs_val(t) == t[0] + radix() * limbs_val(t.drop_first()));
        lemma_pow0(radix());
        assert(x * pow(radix(), 0) == x);
    } else {
        assert(t.drop_first() =~= s.drop_first().push(x));
        lemma_limbs_val_push(s.drop_first(), x);
        let n = (s.len() - 1) as nat;
        lemma_pow_succ(radix(), n);
        lemma_distribute_shift(radix(), limbs_val(s.drop_first()) as int, x as int, pow(radix(), n));
    }
}

/// `r * (a + x * p) == r * a + x * (r * p)`.
pub proof fn lemma_distribute_shift(r: int, a: int, x: int, p: int)
    by (nonlinear_arith)
    ensures
        r * (a + x * p) == r * a + x * (r * p),
{
}

/// `val(s) == val(s without its top limb) + top * 2^(32 (len-1))`.
pub proof fn lemma_limbs_val_last(s: Seq<u32>)
    requires
        s.len() > 0,
    ensures
        limbs_val(s) == limbs_val(s.drop_last()) + s.last() * pow(radix(), (s.len() - 1) as nat),
{
    assert(s.drop_last().push(s.last()) =~= s);
    lemma_limbs_val_push(s.drop_last(), s.last());
}

/// The value of a prefix grows limb by limb.
pub proof fn lemma_limbs_val_take(s: Seq<u32>, i: int)
    requires
        0 <= i < s.len(),
    ensures
        limbs_val(s.take(i + 1)) == limbs_val(s.take(i)) + s[i] * pow(radix(), i as nat),
{
    assert(s.take(i + 1) =~= s.take(i).push(s[i]));
    lemma_limbs_val_push(s.take(i), s[i]);
}

/// The value of a suffix, peeled from the bottom.
pub proof fn lemma_limbs_val_skip(s: Seq<u32>, i: int)
    requires
        0 <= i < s.len(),
    ensures
        limbs_val(s.skip(i)) == s[i] + radix() * limbs_val(s.skip(i + 1)),
{
    assert(s.skip(i).drop_first() =~= s.skip(i + 1));
}

/// A normalized, non-empty limb sequence has a positive value.
pub proof fn lemma_limbs_normalized_pos(s: Seq<u32>)
    requires
        limbs_normalized(s),
        s.len() > 0,
    ensures
        limbs_val(s) > 0,
{
    lemma_limbs_val_last(s);
    lemma_pow_positive(radix(), (s.len() - 1) as nat);
    lemma_mul_strictly_positive(s.last() as int, pow(radix(), (s.len() - 1) as nat));
}

/// Value bound: `val(s) < 2^(32 len)`.
pub proof fn lemma_limbs_val_bound(s: Seq<u32>)
    ensures
        limbs_val(s) < pow(radix(), s.len()),
    decreases s.len(),
{
    if s.len() == 0 {
        lemma_pow0(radix());
    } else {
        lemma_limbs_val_bound(s.drop_first());
        let n = (s.len() - 1) as nat;
        lemma_pow_succ(radix(), n);
        let v = limbs_val(s.drop_first()) as int;
        assert(v + 1 <= pow(radix(), n));
        lemma_mul_inequality(v + 1, pow(radix(), n), radix());
        lemma_mul_is_distributive_add(radix(), v, 1);
        lemma_mul_is_commutative(radix(), v + 1);
        lemma_mul_is_commutative(radix(), pow(radix(), n));
    }
}

/// A byte string's value grows byte by byte.
pub proof fn lemma_le_bytes_val_push(s: Seq<u8>, x: u8)
    ensures
        le_bytes_val(s.push(x)) == le_bytes_val(s) + x * pow(256, s.len()),
    decreases s.len(),
{
    let t = s.push(x);
    if s.len() == 0 {
        assert(t.drop_first() =~= Seq::<u8>::empty());
        assert(le_bytes_val(t) == t[0] + 256 * le_bytes_val(t.drop_first()));
        lemma_pow0(256);
        assert(x * pow(256, 0) == x);
    } else {
        assert(t.drop_first() =~= s.drop_first().push(x));
        lemma_le_bytes_val_push(s.drop_first(), x);
        let n = (s.len() - 1) as nat;
        lemma_pow_succ(256, n);
        lemma_distribute_shift(256, le_bytes_val(s.drop_first()) as int, x as int, pow(256, n));
    }
}

/// One step of schoolbook multiplication by a small factor.
proof fn lemma_mul_step(vn: int, c: int, bi: int, li: int, m: int, nl: int, c2: int, vo: int)
    by (nonlinear_arith)
    requires
        vn + c * bi == m * vo,
        nl + radix() * c2 == li * m + c,
    ensures
        (vn + nl * bi) + c2 * (radix() * bi) == m * (vo + li * bi),
{
}

/// One step of addition with carry.
proof fn lemma_add_step(vn: int, c: int, bi: int, li: int, a: int, vo: int, nl: int, c2: int)
    by (nonlinear_arith)
    requires
        vn + c * bi == vo + a,
        nl + radix() * c2 == li + c,
    ensures
        (vn + nl * bi) + c2 * (radix() * bi) == (vo + li * bi) + a,
{
}

/// One step of schoolbook division by a small divisor (from the top limb down).
proof fn lemma_div_step(vo: int, vn: int, r: int, d: int, li: int, q: int, r2: int)
    by (nonlinear_arith)
    requires
        vo == d * vn + r,
        r * radix() + li == d * q + r2,
    ensures
        li + radix() * vo == d * (q + radix() * vn) + r2,
{
}

/// Simple arbitrary-precision unsigned integer for encoding/decoding.
#[derive(Clone, Debug)]
pub struct SmallBigUint {
    pub limbs: Vec<u32>,
}

impl SmallBigUint {
    /// The integer that the limbs stand for.
    pub open spec fn value(&self) -> nat {
        limbs_val(self.limbs@)
    }

    /// No most-significant zero limb.
    pub open spec fn normalized(&self) -> bool {
        limbs_normalized(self.limbs@)
    }

    /// The integer zero (no limbs).
    pub fn zero() -> (r: Self)
        ensures
            r.value() == 0,
            r.limbs@.len() == 0,
            r.normalized(),
    {
        Self { limbs: Vec::new() }
    }

    /// The integer `value`, normalized.
    pub fn from_u64(value: u64) -> (r: Self)
        ensures
            r.value() == value,
            r.normalized(),
    {
        let mut limbs = Vec::new();
        let lo = value as u32;
        limbs.push(lo);
        let hi = (value >> 32) as u32;
        proof {
            assert(value == lo + radix() * hi) by (bit_vector)
                requires
                    lo == value as u32,
                    hi == (value >> 32) as u32,
            ;
            assert(limbs@.drop_first() =~= Seq::<u32>::empty());
            assert(limbs_val(limbs@) == lo + radix() * limbs_val(limbs@.drop_first()));
            assert(limbs_val(limbs@) == lo);
        }
        if hi != 0 {
            proof {
                lemma_limbs_val_push(limbs@, hi);
                lemma_pow1(radix());
            }
            limbs.push(hi);
        }
        let mut out = Self { limbs };
        out.normalize();
        out
    }

    /// The integer whose little-endian bytes are `bytes`, normalized.
    pub fn from_le_bytes(bytes: &[u8]) -> (r: Self)
        requires
            bytes@.len() + 3 <= usize::MAX,
        ensures
            r.value() == le_bytes_val(bytes@),
            r.normalized(),
    {
        let n = bytes.len();
        let mut limbs: Vec<u32> = Vec::new();
        let mut start: usize = 0;
        while start < n
            invariant
                n == bytes@.len(),
                n + 3 <= usize::MAX,
                start % 4 == 0,
                start <= n + 3,
                start < n ==> start <= n,
                limbs@.len() == start / 4,
                limbs_val(limbs@) == le_bytes_val(bytes@.take(if start < n { start as int } else { n as int })),
            decreases n + 3 - start,
        {
            let b0: u32 = bytes[start] as u32;
            let b1: u32 = if start + 1 < n { bytes[start + 1] as u32 } else { 0 };
            let b2: u32 = if start + 2 < n { bytes[start + 2] as u32 } else { 0 };
            let b3: u32 = if start + 3 < n { bytes[start + 3] as u32 } else { 0 };
            let limb: u32 = b0 + b1 * 256 + b2 * 65536 + b3 * 16777216;
            proof {
                lemma_chunk_value(bytes@, start as int, b0 as int, b1 as int, b2 as int, b3 as int);
                lemma_limbs_val_push(limbs@, limb);
            }
            limbs.push(limb);
            start = start + 4;
        }
        proof {
            assert(bytes@.take(n as int) =~= bytes@);
        }
        let mut out = Self { limbs };
        out.normalize();
        out
    }

    /// Drop most-significant zero limbs; the value is unchanged.
    pub fn normalize(&mut self)
        ensures
            final(self).value() == old(self).value(),
            final(self).normalized(),
            final(self).limbs@.len() <= old(self).limbs@.len(),
            final(self).limbs@ == old(self).limbs@.take(final(self).limbs@.len() as int),
    {
        while self.limbs.len() > 0 && self.limbs[self.limbs.len() - 1] == 0
            invariant
                self.value() == old(self).value(),
                self.limbs@.len() <= old(self).limbs@.len(),
                self.limbs@ == old(self).limbs@.take(self.limbs@.len() as int),
            decreases self.limbs@.len(),
        {
            proof {
                lemma_limbs_val_last(self.limbs@);
                lemma_mul_by_zero_is_zero(pow(radix(), (self.limbs@.len() - 1) as nat));
            }
            self.limbs.pop();
        }
    }

    /// True exactly when there are no limbs.
    pub fn is_zero(&self) -> (r: bool)
        ensures
            r == (self.limbs@.len() == 0),
            r ==> self.value() == 0,
            self.normalized() ==> (r == (self.value() == 0)),
    {
        proof {
            if self.limbs@.len() > 0 && self.normalized() {
                lemma_limbs_normalized_pos(self.limbs@);
            }
        }
        self.limbs.len() == 0
    }

    /// Multiply in place by a 32-bit factor.
    pub fn mul_small(&mut self, mul: u32)
        ensures
            final(self).value() == old(self).value() * mul,
            old(self).normalized() ==> final(self).normalized(),
    {
        if mul == 0 || self.is_zero() {
            self.limbs.clear();
            proof {
                lemma_mul_basics(old(self).value() as int);
            }
            return;
        }
        let n = self.limbs.len();
        let mut carry: u64 = 0;
        let mut i: usize = 0;
        proof {
            lemma_pow0(radix());
            assert(self.limbs@.take(0) =~= Seq::<u32>::empty());
            assert(old(self).limbs@.take(0) =~= Seq::<u32>::empty());
            lemma_mul_basics(mul as int);
        }
        while i < n
            invariant
                n == self.limbs@.len(),
                n == old(self).limbs@.len(),
                n > 0,
                mul > 0,
                i <= n,
                carry < radix(),
                forall|j: int| i <= j < n ==> self.limbs@[j] == old(self).limbs@[j],
                limbs_val(self.limbs@.take(i as int)) + carry * pow(radix(), i as nat) == mul
                    * limbs_val(old(self).limbs@.take(i as int)),
                i > 0 && i == n && old(self).normalized() ==> (self.limbs@[i - 1] != 0 || carry != 0),
            decreases n - i,
        {
            let li = self.limbs[i];
            proof {
                lemma_mul_upper_bound(li as int, u32::MAX as int, mul as int, u32::MAX as int);
            }
            let prod: u64 = (li as u64) * (mul as u64) + carry;
            let nl = prod as u32;
            let c2 = prod >> 32;
            proof {
                assert(prod == nl + radix() * c2 && c2 < radix()) by (bit_vector)
                    requires
                        nl == prod as u32,
                        c2 == prod >> 32,
                ;
                lemma_limbs_val_take(old(self).limbs@, i as int);
                let ghost before = self.limbs@;
                assert(before.update(i as int, nl).take(i as int + 1) =~= before.take(i as int).push(nl));
                lemma_limbs_val_push(before.take(i as int), nl);
                lemma_pow_succ(radix(), i as nat);
                lemma_mul_step(
                    limbs_val(before.take(i as int)) as int,
                    carry as int,
                    pow(radix(), i as nat),
                    li as int,
                    mul as int,
                    nl as int,
                    c2 as int,
                    limbs_val(old(self).limbs@.take(i as int)) as int,
                );
                if i + 1 == n && old(self).normalized() {
                    // the top limb is nonzero, so the product of it with a nonzero factor is too
                    assert(li == old(self).limbs@.last());
                    lemma_mul_strictly_positive(li as int, mul as int);
                }
            }
            self.limbs.set(i, nl);
            carry = c2;
            i = i + 1;
        }
        proof {
            assert(self.limbs@.take(n as int) =~= self.limbs@);
            assert(old(self).limbs@.take(n as int) =~= old(self).limbs@);
        }
        proof {
            lemma_mul_is_commutative(mul as int, old(self).value() as int);
            lemma_mul_basics(pow(radix(), n as nat));
        }
        if carry != 0 {
            proof {
                lemma_limbs_val_push(self.limbs@, carry as u32);
            }
            self.limbs.push(carry as u32);
        }
    }

    /// Add a 32-bit value in place.
    pub fn add_small(&mut self, add: u32)
        ensures
            final(self).value() == old(self).value() + add,
            old(self).normalized() ==> final(self).normalized(),
    {
        let n = self.limbs.len();
        let mut carry: u64 = add as u64;
        let mut i: usize = 0;
        proof {
            lemma_pow0(radix());
            assert(self.limbs@.take(0) =~= Seq::<u32>::empty());
            assert(old(self).limbs@.take(0) =~= Seq::<u32>::empty());
        }
        while i < n
            invariant_except_break
                carry < radix(),
                i < n ==> carry > 0 || i == 0,
            invariant
                n == self.limbs@.len(),
                n == old(self).limbs@.len(),
                i <= n,
                carry <= add,
                carry < radix(),
                forall|j: int| i <= j < n ==> self.limbs@[j] == old(self).limbs@[j],
                limbs_val(self.limbs@.take(i as int)) + carry * pow(radix(), i as nat) == limbs_val(
                    old(self).limbs@.take(i as int),
                ) + add,
                i == n && carry == 0 && old(self).normalized() && n > 0 ==> self.limbs@[n - 1] != 0,
            ensures
                n == self.limbs@.len(),
                i <= n,
                carry < radix(),
                forall|j: int| i <= j < n ==> self.limbs@[j] == old(self).limbs@[j],
                limbs_val(self.limbs@.take(i as int)) + carry * pow(radix(), i as nat) == limbs_val(
                    old(self).limbs@.take(i as int),
                ) + add,
                i < n ==> carry == 0,
                i == n && carry == 0 && old(self).normalized() && n > 0 ==> self.limbs@[n - 1] != 0,
            decreases n - i,
        {
            let li = self.limbs[i];
            let sum: u64 = (li as u64) + carry;
            let nl = sum as u32;
            let c2 = sum >> 32;
            proof {
                assert(sum == nl + radix() * c2 && c2 <= 1) by (bit_vector)
                    requires
                        nl == sum as u32,
                        c2 == sum >> 32,
                        sum <= 0xffff_ffff + 0xffff_ffff,
                ;
                lemma_limbs_val_take(old(self).limbs@, i as int);
                let ghost before = self.limbs@;
                assert(before.update(i as int, nl).take(i as int + 1) =~= before.take(i as int).push(nl));
                lemma_limbs_val_push(before.take(i as int), nl);
                lemma_pow_succ(radix(), i as nat);
                lemma_add_step(
                    limbs_val(before.take(i as int)) as int,
                    carry as int,
                    pow(radix(), i as nat),
                    li as int,
                    add as int,
                    limbs_val(old(self).limbs@.take(i as int)) as int,
                    nl as int,
                    c2 as int,
                );
                if i + 1 == n && old(self).normalized() && c2 == 0 {
                    assert(li == old(self).limbs@.last());
                    assert(nl != 0);
                }
            }
            self.limbs.set(i, nl);
            carry = c2;
            i = i + 1;
            if carry == 0 {
                break;
            }
        }
        proof {
            // the untouched top limbs contribute equally on both sides
            lemma_add_tail(old(self).limbs@, self.limbs@, i as int);
            if i < n {
                if old(self).normalized() {
                    assert(self.limbs@.last() == old(self).limbs@.last());
                }
            }
        }
        if carry != 0 {
            proof {
                assert(self.limbs@.take(n as int) =~= self.limbs@);
                assert(old(self).limbs@.take(n as int) =~= old(self).limbs@);
                lemma_limbs_val_push(self.limbs@, carry as u32);
            }
            self.limbs.push(carry as u32);
        }
    }

    /// Divide in place by `divisor`, returning the remainder.
    /// A zero divisor leaves the value alone and returns 0.
    pub fn div_small(&mut self, divisor: u32) -> (rem: u32)
        ensures
            divisor == 0 ==> rem == 0 && final(self).value() == old(self).value(),
            divisor != 0 ==> final(self).value() == old(self).value() / (divisor as nat) && rem
                == old(self).value() % (divisor as nat),
            final(self).normalized(),
    {
        if divisor == 0 {
            self.normalize();
            return 0;
        }
        let n = self.limbs.len();
        let mut rem: u64 = 0;
        let mut i: usize = n;
        proof {
            assert(self.limbs@.skip(n as int) =~= Seq::<u32>::empty());
            assert(old(self).limbs@.skip(n as int) =~= Seq::<u32>::empty());
            lemma_mul_basics(divisor as int);
        }
        while i > 0
            invariant
                n == self.limbs@.len(),
                n == old(self).limbs@.len(),
                divisor > 0,
                i <= n,
                rem < divisor,
                forall|j: int| 0 <= j < i ==> self.limbs@[j] == old(self).limbs@[j],
                limbs_val(old(self).limbs@.skip(i as int)) == divisor * limbs_val(self.limbs@.skip(i as int))
                    + rem,
            decreases i,
        {
            i = i - 1;
            let li = self.limbs[i];
            let cur: u64 = (rem << 32) | (li as u64);
            proof {
                assert(cur == rem * radix() + li) by (bit_vector)
                    requires
                        cur == (rem << 32) | (li as u64),
                        rem < 0x1_0000_0000,
                ;
            }
            let q = cur / (divisor as u64);
            let r2 = cur % (divisor as u64);
            proof {
                lemma_fundamental_div_mod(cur as int, divisor as int);
                // q < 2^32 because cur < divisor * 2^32
                assert(rem + 1 <= divisor);
                lemma_mul_inequality(rem as int + 1, divisor as int, radix());
                lemma_div_is_ordered(cur as int, (divisor * radix()) as int, divisor as int);
                lemma_div_multiples_vanish(radix(), divisor as int);
                lemma_mul_is_commutative(divisor as int, radix());
                assert(q < radix());
                lemma_limbs_val_skip(old(self).limbs@, i as int);
                let ghost before = self.limbs@;
                let ghost after = before.update(i as int, q as u32);
                assert(after.skip(i as int + 1) =~= before.skip(i as int + 1));
                lemma_limbs_val_skip(after, i as int);
                lemma_div_step(
                    limbs_val(old(self).limbs@.skip(i as int + 1)) as int,
                    limbs_val(before.skip(i as int + 1)) as int,
                    rem as int,
                    divisor as int,
                    li as int,
                    q as int,
                    r2 as int,
                );
            }
            self.limbs.set(i, q as u32);
            rem = r2;
        }
        proof {
            assert(self.limbs@.skip(0) =~= self.limbs@);
            assert(old(self).limbs@.skip(0) =~= old(self).limbs@);
            lemma_mul_is_commutative(divisor as int, self.value() as int);
            lemma_fundamental_div_mod_converse(
                old(self).value() as int,
                divisor as int,
                self.value() as int,
                rem as int,
            );
        }
        self.normalize();
        rem as u32
    }
}

/// The limbs above index `i` are shared, so the full values differ as the prefixes do.
proof fn lemma_add_tail(o: Seq<u32>, s: Seq<u32>, i: int)
    requires
        o.len() == s.len(),
        0 <= i <= o.len(),
        forall|j: int| i <= j < o.len() ==> s[j] == o[j],
    ensures
        limbs_val(s) - limbs_val(s.take(i)) == limbs_val(o) - limbs_val(o.take(i)),
    decreases o.len() - i,
{
    if i == o.len() {
        assert(s.take(i) =~= s);
        assert(o.take(i) =~= o);
    } else {
        lemma_add_tail(o, s, i + 1);
        lemma_limbs_val_take(o, i);
        lemma_limbs_val_take(s, i);
    }
}

/// Packing bytes `start..start+4` (zero past the end) into one limb.
proof fn lemma_chunk_value(b: Seq<u8>, start: int, b0: int, b1: int, b2: int, b3: int)
    requires
        0 <= start < b.len(),
        start % 4 == 0,
        b0 == b[start],
        b1 == (if start + 1 < b.len() { b[start + 1] as int } else { 0 }),
        b2 == (if start + 2 < b.len() { b[start + 2] as int } else { 0 }),
        b3 == (if start + 3 < b.len() { b[start + 3] as int } else { 0 }),
    ensures
        b0 + b1 * 256 + b2 * 65536 + b3 * 16777216 < radix(),
        le_bytes_val(b.take(if start + 4 < b.len() { start + 4 } else { b.len() as int })) == le_bytes_val(
            b.take(start),
        ) + (b0 + b1 * 256 + b2 * 65536 + b3 * 16777216) * pow(radix(), (start / 4) as nat),
{
    let e = start as nat;
    let end = if start + 4 < b.len() { start + 4 } else { b.len() as int };
    assert(pow(256, e) == pow(radix(), (start / 4) as nat)) by {
        lemma_pow_multiplies(256, 4, (start / 4) as nat);
        reveal_with_fuel(pow, 5);
        assert(pow(256, 4) == radix());
    }
    lemma_pow_adds(256, e, 1);
    lemma_pow_adds(256, e, 2);
    lemma_pow_adds(256, e, 3);
    assert(pow(256, 1) == 256 && pow(256, 2) == 65536 && pow(256, 3) == 16777216) by {
        reveal_with_fuel(pow, 4);
    }
    let pe = pow(256, e);
    // add the bytes one at a time
    assert(b.take(start + 1) =~= b.take(start).push(b[start]));
    lemma_le_bytes_val_push(b.take(start), b[start]);
    if start + 1 < b.len() {
        assert(b.take(start + 2) =~= b.take(start + 1).push(b[start + 1]));
        lemma_le_bytes_val_push(b.take(start + 1), b[start + 1]);
        if start + 2 < b.len() {
            assert(b.take(start + 3) =~= b.take(start + 2).push(b[start + 2]));
            lemma_le_bytes_val_push(b.take(start + 2), b[start + 2]);
            if start + 3 < b.len() {
                assert(b.take(start + 4) =~= b.take(start + 3).push(b[start + 3]));
                lemma_le_bytes_val_push(b.take(start + 3), b[start + 3]);
            }
        }
    }
    assert(b1 * 256 * pe == b1 * (256 * pe)) by (nonlinear_arith);
    assert(b2 * 65536 * pe == b2 * (65536 * pe)) by (nonlinear_arith);
    assert(b3 * 16777216 * pe == b3 * (16777216 * pe)) by (nonlinear_arith);
    assert((b0 + b1 * 256 + b2 * 65536 + b3 * 16777216) * pe == b0 * pe + b1 * 256 * pe + b2 * 65536
        * pe + b3 * 16777216 * pe) by (nonlinear_arith);
    assert(pow(256, e + 1) == 256 * pe) by {
        lemma_mul_is_commutative(pe, 256);
    }
    assert(pow(256, e + 2) == 65536 * pe) by {
        lemma_mul_is_commutative(pe, 65536);
    }
    assert(pow(256, e + 3) == 16777216 * pe) by {
        lemma_mul_is_commutative(pe, 16777216);
    }
}

/// Convert an integer to `digits` base-`base` digits (least significant
/// first), each truncated to a byte.
pub fn biguint_to_base(value: SmallBigUint, base: u32, digits: usize) -> (out: Vec<u8>)
    ensures
        out@.len() == digits,
        forall|i: int|
            0 <= i < digits ==> #[trigger] out@[i] == base_digit(value.value(), base as nat, i as nat)
                as u8,
{
    let mut acc = value;
    let ghost v0 = acc.value();
    proof {
        lemma_pow0(base as int);
        lemma_div_basics(v0 as int);
    }
    let mut out: Vec<u8> = Vec::new();
    let mut k: usize = 0;
    while k < digits
        invariant
            k <= digits,
            out@.len() == k,
            v0 == value.value(),
            base == 0 ==> acc.value() == v0,
            base > 0 ==> acc.value() == v0 as int / pow(base as int, k as nat),
            forall|i: int| 0 <= i < k ==> #[trigger] out@[i] == base_digit(v0, base as nat, i as nat) as u8,
        decreases digits - k,
    {
        proof {
            if base > 0 {
                lemma_pow_positive(base as int, k as nat);
            }
        }
        if acc.is_zero() {
            // every remaining digit is zero
            let ghost k0 = k;
            while k < digits
                invariant
                    k0 <= k <= digits,
                    out@.len() == k,
                    v0 == value.value(),
                    acc.value() == 0,
                    base > 0 ==> v0 as int / pow(base as int, k0 as nat) == 0,
                    base == 0 ==> true,
                    forall|i: int|
                        0 <= i < k ==> #[trigger] out@[i] == base_digit(v0, base as nat, i as nat) as u8,
                decreases digits - k,
            {
                proof {
                    if base > 0 {
                        lemma_div_past_zero(v0 as int, base as int, k0 as nat, k as nat);
                    }
                }
                out.push(0);
                k = k + 1;
            }
            return out;
        }
        let d = acc.div_small(base);
        proof {
            if base > 0 {
                lemma_div_denominator(v0 as int, pow(base as int, k as nat), base as int);
                lemma_pow_adds(base as int, k as nat, 1);
                lemma_pow1(base as int);
                lemma_mul_is_commutative(pow(base as int, k as nat), base as int);
            }
        }
        out.push(d as u8);
        k = k + 1;
    }
    out
}

/// Once the quotient by `base^k0` is zero, every later digit is zero.
proof fn lemma_div_past_zero(v: int, base: int, k0: nat, k: nat)
    requires
        v >= 0,
        base > 0,
        k0 <= k,
        v / pow(base, k0) == 0,
    ensures
        (v / pow(base, k)) % base == 0,
{
    lemma_pow_positive(base, k0);
    lemma_pow_positive(base, k);
    lemma_pow_increases(base as nat, k0, k);
    lemma_div_is_ordered_by_denominator(v, pow(base, k0), pow(base, k));
    lemma_div_pos_is_pos(v, pow(base, k));
    assert(v / pow(base, k) == 0);
    lemma_small_mod(0, base as nat);
}

/// Dividing by what was multiplied in gives back the value, with no
/// remainder: `div_small(k)` undoes `mul_small(k)` for nonzero `k`.
pub proof fn law_div_small_undoes_mul_small(a: SmallBigUint, b: SmallBigUint, c: SmallBigUint, k: u32, rem: u32)
    requires
        k != 0,
        b.value() == a.value() * k,
        c.value() == b.value() / (k as nat),
        rem == b.value() % (k as nat),
    ensures
        c.value() == a.value(),
        rem == 0,
{
    vstd::arithmetic::div_mod::lemma_div_multiples_vanish(a.value() as int, k as int);
    vstd::arithmetic::div_mod::lemma_mod_multiples_basic(a.value() as int, k as int);
    vstd::arithmetic::mul::lemma_mul_is_commutative(a.value() as int, k as int);
}

} // verus!
