//! A small arbitrary-precision unsigned integer with 64-bit limbs
//! (little-endian), used to read a hash as base-2 digits.

use crate::biguint::lemma_distribute_shift;
use vstd::arithmetic::div_mod::*;
use vstd::arithmetic::mul::*;
use vstd::arithmetic::power::*;
use vstd::prelude::*;

verus! {

/// The limb radix, 2^64.
pub open spec fn radix64() -> int {
    0x1_0000_0000_0000_0000
}

/// Little-endian value of a sequence of 64-bit limbs.
pub open spec fn limbs64_val(s: Seq<u64>) -> nat
    decreases s.len(),
{
    if s.len() == 0 {
        0
    } else {
        (s[0] + radix64() * limbs64_val(s.drop_first())) as nat
    }
}

/// `val(s ++ [x]) == val(s) + x * 2^(64 len)`.
pub proof fn lemma_limbs64_val_push(s: Seq<u64>, x: u64)
    ensures
        limbs64_val(s.push(x)) == limbs64_val(s) + x * pow(radix64(), s.len()),
    decreases s.len(),
{
    let t = s.push(x);
    if s.len() == 0 {
        assert(t.drop_first() =~= Seq::<u64>::empty());
        assert(limbs64_val(t) == t[0] + radix64() * limbs64_val(t.drop_first()));
        lemma_pow0(radix64());
        assert(x * pow(radix64(), 0) == x);
    } else {
        assert(t.drop_first() =~= s.drop_first().push(x));
        lemma_limbs64_val_push(s.drop_first(), x);
        let n = (s.len() - 1) as nat;
        reveal(pow);
        assert(pow(radix64(), n + 1) == radix64() * pow(radix64(), n));
        lemma_distribute_shift(radix64(), limbs64_val(s.drop_first()) as int, x as int, pow(radix64(), n));
    }
}

/// `val(s) == val(s without its top limb) + top * 2^(64 (len-1))`.
pub proof fn lemma_limbs64_val_last(s: Seq<u64>)
    requires
        s.len() > 0,
    ensures
        limbs64_val(s) == limbs64_val(s.drop_last()) + s.last() * pow(radix64(), (s.len() - 1) as nat),
{
    assert(s.drop_last().push(s.last()) =~= s);
    lemma_limbs64_val_push(s.drop_last(), s.last());
}

/// The value of a prefix grows limb by limb.
pub proof fn lemma_limbs64_val_take(s: Seq<u64>, i: int)
    requires
        0 <= i < s.len(),
    ensures
        limbs64_val(s.take(i + 1)) == limbs64_val(s.take(i)) + s[i] * pow(radix64(), i as nat),
{
    assert(s.take(i + 1) =~= s.take(i).push(s[i]));
    lemma_limbs64_val_push(s.take(i), s[i]);
}

/// The value of a suffix, peeled from the bottom.
pub proof fn lemma_limbs64_val_skip(s: Seq<u64>, i: int)
    requires
        0 <= i < s.len(),
    ensures
        limbs64_val(s.skip(i)) == s[i] + radix64() * limbs64_val(s.skip(i + 1)),
{
    assert(s.skip(i).drop_first() =~= s.skip(i + 1));
}

/// The limbs above index `i` are shared, so the full values differ as the prefixes do.
proof fn lemma_tail64(o: Seq<u64>, s: Seq<u64>, i: int)
    requires
        o.len() == s.len(),
        0 <= i <= o.len(),
        forall|j: int| i <= j < o.len() ==> s[j] == o[j],
    ensures
        limbs64_val(s) - limbs64_val(s.take(i)) == limbs64_val(o) - limbs64_val(o.take(i)),
    decreases o.len() - i,
{
    if i == o.len() {
        assert(s.take(i) =~= s);
        assert(o.take(i) =~= o);
    } else {
        lemma_tail64(o, s, i + 1);
        lemma_limbs64_val_take(o, i);
        lemma_limbs64_val_take(s, i);
    }
}

proof fn lemma_mul_step64(vn: int, c: int, bi: int, li: int, m: int, nl: int, c2: int, vo: int)
    by (nonlinear_arith)
    requires
        vn + c * bi == m * vo,
        nl + radix64() * c2 == li * m + c,
    ensures
        (vn + nl * bi) + c2 * (radix64() * bi) == m * (vo + li * bi),
{
}

proof fn lemma_add_step64(vn: int, c: int, bi: int, li: int, a: int, vo: int, nl: int, c2: int)
    by (nonlinear_arith)
    requires
        vn + c * bi == vo + a,
        nl + radix64() * c2 == li + c,
    ensures
        (vn + nl * bi) + c2 * (radix64() * bi) == (vo + li * bi) + a,
{
}

proof fn lemma_div_step64(vo: int, vn: int, r: int, d: int, li: int, q: int, r2: int)
    by (nonlinear_arith)
    requires
        vo == d * vn + r,
        r * radix64() + li == d * q + r2,
    ensures
        li + radix64() * vo == d * (q + radix64() * vn) + r2,
{
}

/// Simple arbitrary-precision unsigned integer with 64-bit limbs.
pub struct SmallBigUint {
    pub limbs: Vec<u64>,
}

impl SmallBigUint {
    /// The integer that the limbs stand for.
    pub open spec fn value(&self) -> nat {
        limbs64_val(self.limbs@)
    }

    /// Zero, as one zero limb.
    pub fn zero() -> (r: Self)
        ensures
            r.value() == 0,
            r.limbs@.len() == 1,
    {
        let r = Self { limbs: vec![0] };
        proof {
            assert(r.limbs@.drop_first() =~= Seq::<u64>::empty());
            assert(limbs64_val(r.limbs@) == r.limbs@[0] + radix64() * limbs64_val(r.limbs@.drop_first()));
        }
        r
    }

    /// Add a 64-bit value in place.
    pub fn add_scalar(&mut self, val: u64)
        ensures
            final(self).value() == old(self).value() + val,
            final(self).limbs@.len() >= old(self).limbs@.len(),
            final(self).limbs@.len() <= old(self).limbs@.len() + 1,
    {
        let n = self.limbs.len();
        let mut carry: u128 = val as u128;
        let mut i: usize = 0;
        proof {
            lemma_pow0(radix64());
            assert(self.limbs@.take(0) =~= Seq::<u64>::empty());
        }
        while i < n
            invariant
                n == self.limbs@.len(),
                n == old(self).limbs@.len(),
                i <= n,
                carry < radix64(),
                forall|j: int| i <= j < n ==> self.limbs@[j] == old(self).limbs@[j],
                limbs64_val(self.limbs@.take(i as int)) + carry * pow(radix64(), i as nat) == limbs64_val(
                    old(self).limbs@.take(i as int),
                ) + val,
            decreases n - i,
        {
            let li = self.limbs[i];
            let sum: u128 = carry + (li as u128);
            let nl = sum as u64;
            let c2 = sum >> 64;
            proof {
                assert(sum == nl + radix64() * c2 && c2 <= 1) by (bit_vector)
                    requires
                        nl == sum as u64,
                        c2 == sum >> 64,
                        sum <= 0xffff_ffff_ffff_ffff + 0xffff_ffff_ffff_ffff,
                ;
                lemma_limbs64_val_take(old(self).limbs@, i as int);
                let ghost before = self.limbs@;
                assert(before.update(i as int, nl).take(i as int + 1) =~= before.take(i as int).push(nl));
                lemma_limbs64_val_push(before.take(i as int), nl);
                reveal(pow);
                assert(pow(radix64(), (i + 1) as nat) == radix64() * pow(radix64(), i as nat));
                lemma_add_step64(
                    limbs64_val(before.take(i as int)) as int,
                    carry as int,
                    pow(radix64(), i as nat),
                    li as int,
                    val as int,
                    limbs64_val(old(self).limbs@.take(i as int)) as int,
                    nl as int,
                    c2 as int,
                );
            }
            self.limbs.set(i, nl);
            carry = c2;
            i = i + 1;
        }
        proof {
            assert(self.limbs@.take(n as int) =~= self.limbs@);
            assert(old(self).limbs@.take(n as int) =~= old(self).limbs@);
            lemma_mul_basics(pow(radix64(), n as nat));
        }
        if carry > 0 {
            proof {
                lemma_limbs64_val_push(self.limbs@, carry as u64);
            }
            self.limbs.push(carry as u64);
        }
    }

    /// Multiply in place by a 64-bit value.
    pub fn mul_scalar(&mut self, val: u64)
        ensures
            final(self).value() == old(self).value() * val,
            final(self).limbs@.len() >= old(self).limbs@.len(),
            final(self).limbs@.len() <= old(self).limbs@.len() + 1,
    {
        let n = self.limbs.len();
        let mut carry: u128 = 0;
        let mut i: usize = 0;
        proof {
            lemma_pow0(radix64());
            assert(self.limbs@.take(0) =~= Seq::<u64>::empty());
            assert(old(self).limbs@.take(0) =~= Seq::<u64>::empty());
            lemma_mul_basics(val as int);
        }
        while i < n
            invariant
                n == self.limbs@.len(),
                n == old(self).limbs@.len(),
                i <= n,
                carry < radix64(),
                forall|j: int| i <= j < n ==> self.limbs@[j] == old(self).limbs@[j],
                limbs64_val(self.limbs@.take(i as int)) + carry * pow(radix64(), i as nat) == val
                    * limbs64_val(old(self).limbs@.take(i as int)),
            decreases n - i,
        {
            let li = self.limbs[i];
            proof {
                lemma_mul_upper_bound(li as int, u64::MAX as int, val as int, u64::MAX as int);
            }
            let prod: u128 = (li as u128) * (val as u128) + carry;
            let nl = prod as u64;
            let c2 = prod >> 64;
            proof {
                assert(prod == nl + radix64() * c2 && c2 < radix64()) by (bit_vector)
                    requires
                        nl == prod as u64,
                        c2 == prod >> 64,
                ;
                lemma_limbs64_val_take(old(self).limbs@, i as int);
                let ghost before = self.limbs@;
                assert(before.update(i as int, nl).take(i as int + 1) =~= before.take(i as int).push(nl));
                lemma_limbs64_val_push(before.take(i as int), nl);
                reveal(pow);
                assert(pow(radix64(), (i + 1) as nat) == radix64() * pow(radix64(), i as nat));
                lemma_mul_step64(
                    limbs64_val(before.take(i as int)) as int,
                    carry as int,
                    pow(radix64(), i as nat),
                    li as int,
                    val as int,
                    nl as int,
                    c2 as int,
                    limbs64_val(old(self).limbs@.take(i as int)) as int,
                );
            }
            self.limbs.set(i, nl);
            carry = c2;
            i = i + 1;
        }
        proof {
            assert(self.limbs@.take(n as int) =~= self.limbs@);
            assert(old(self).limbs@.take(n as int) =~= old(self).limbs@);
            lemma_mul_is_commutative(val as int, old(self).value() as int);
            lemma_mul_basics(pow(radix64(), n as nat));
        }
        if carry > 0 {
            proof {
                lemma_limbs64_val_push(self.limbs@, carry as u64);
            }
            self.limbs.push(carry as u64);
        }
    }

    /// The remainder of the value by `divisor`.
    pub fn mod_scalar(&self, divisor: u64) -> (r: u64)
        requires
            divisor > 0,
        ensures
            r == self.value() % (divisor as nat),
    {
        let n = self.limbs.len();
        let mut remainder: u128 = 0;
        let mut i: usize = n;
        proof {
            assert(self.limbs@.skip(n as int) =~= Seq::<u64>::empty());
            lemma_small_mod(0, divisor as nat);
        }
        while i > 0
            invariant
                n == self.limbs@.len(),
                divisor > 0,
                i <= n,
                remainder == limbs64_val(self.limbs@.skip(i as int)) % (divisor as nat),
            decreases i,
        {
            i = i - 1;
            let li = self.limbs[i];
            proof {
                lemma_mod_bound(limbs64_val(self.limbs@.skip(i + 1)) as int, divisor as int);
            }
            let ghost r0 = remainder;
            let cur: u128 = (remainder << 64) | (li as u128);
            proof {
                assert(cur == r0 * radix64() + li) by (bit_vector)
                    requires
                        cur == (r0 << 64) | (li as u128),
                        r0 < 0x1_0000_0000_0000_0000,
                ;
                lemma_limbs64_val_skip(self.limbs@, i as int);
                let v = limbs64_val(self.limbs@.skip(i + 1)) as int;
                // ((v % d) * R + li) % d == (v * R + li) % d
                lemma_mul_mod_noop_left(v, radix64(), divisor as int);
                lemma_add_mod_noop((v % (divisor as int)) * radix64(), li as int, divisor as int);
                lemma_add_mod_noop(v * radix64(), li as int, divisor as int);
                lemma_mul_is_commutative(v, radix64());
            }
            remainder = cur % (divisor as u128);
        }
        proof {
            assert(self.limbs@.skip(0) =~= self.limbs@);
            lemma_mod_bound(self.value() as int, divisor as int);
        }
        remainder as u64
    }

    /// Divide the value in place by `divisor`; then drop most-significant
    /// zero limbs, keeping at least one.
    pub fn div_scalar(&mut self, divisor: u64)
        requires
            divisor > 0,
        ensures
            final(self).value() == old(self).value() / (divisor as nat),
            old(self).limbs@.len() >= 1 ==> final(self).limbs@.len() >= 1,
            final(self).limbs@.len() <= 1 || final(self).limbs@.last() != 0,
    {
        let n = self.limbs.len();
        let mut remainder: u128 = 0;
        let mut i: usize = n;
        proof {
            assert(self.limbs@.skip(n as int) =~= Seq::<u64>::empty());
            assert(old(self).limbs@.skip(n as int) =~= Seq::<u64>::empty());
            lemma_mul_basics(divisor as int);
        }
        while i > 0
            invariant
                n == self.limbs@.len(),
                n == old(self).limbs@.len(),
                divisor > 0,
                i <= n,
                remainder < divisor,
                forall|j: int| 0 <= j < i ==> self.limbs@[j] == old(self).limbs@[j],
                limbs64_val(old(self).limbs@.skip(i as int)) == divisor * limbs64_val(self.limbs@.skip(i as int))
                    + remainder,
            decreases i,
        {
            i = i - 1;
            let li = self.limbs[i];
            let dividend: u128 = (remainder << 64) | (li as u128);
            proof {
                assert(dividend == remainder * radix64() + li) by (bit_vector)
                    requires
                        dividend == (remainder << 64) | (li as u128),
                        remainder < 0x1_0000_0000_0000_0000,
                ;
            }
            let q = dividend / (divisor as u128);
            let r2 = dividend % (divisor as u128);
            proof {
                lemma_fundamental_div_mod(dividend as int, divisor as int);
                assert(remainder + 1 <= divisor);
                lemma_mul_inequality(remainder as int + 1, divisor as int, radix64());
                lemma_div_is_ordered(dividend as int, (divisor * radix64()) as int, divisor as int);
                lemma_div_multiples_vanish(radix64(), divisor as int);
                lemma_mul_is_commutative(divisor as int, radix64());
                assert(q < radix64());
                lemma_limbs64_val_skip(old(self).limbs@, i as int);
                let ghost before = self.limbs@;
                let ghost after = before.update(i as int, q as u64);
                assert(after.skip(i as int + 1) =~= before.skip(i as int + 1));
                lemma_limbs64_val_skip(after, i as int);
                lemma_div_step64(
                    limbs64_val(old(self).limbs@.skip(i as int + 1)) as int,
                    limbs64_val(before.skip(i as int + 1)) as int,
                    remainder as int,
                    divisor as int,
                    li as int,
                    q as int,
                    r2 as int,
                );
            }
            self.limbs.set(i, q as u64);
            remainder = r2;
        }
        proof {
            assert(self.limbs@.skip(0) =~= self.limbs@);
            assert(old(self).limbs@.skip(0) =~= old(self).limbs@);
            lemma_mul_is_commutative(divisor as int, self.value() as int);
            lemma_fundamental_div_mod_converse(
                old(self).value() as int,
                divisor as int,
                self.value() as int,
                remainder as int,
            );
        }
        // Trim leading zeros
        while self.limbs.len() > 1 && self.limbs[self.limbs.len() - 1] == 0
            invariant
                self.value() == old(self).value() / (divisor as nat),
                old(self).limbs@.len() >= 1 ==> self.limbs@.len() >= 1,
            decreases self.limbs@.len(),
        {
            proof {
                lemma_limbs64_val_last(self.limbs@);
                lemma_mul_by_zero_is_zero(pow(radix64(), (self.limbs@.len() - 1) as nat));
            }
            self.limbs.pop();
        }
    }
}

/// Dividing by what was multiplied in gives back the value, with no
/// remainder: `div_scalar(k)` undoes `mul_scalar(k)` for nonzero `k`.
pub proof fn law_div_scalar_undoes_mul_scalar(a: SmallBigUint, b: SmallBigUint, c: SmallBigUint, k: u64)
    requires
        k != 0,
        b.value() == a.value() * k,
        c.value() == b.value() / (k as nat),
    ensures
        c.value() == a.value(),
        b.value() % (k as nat) == 0,
{
    lemma_div_multiples_vanish(a.value() as int, k as int);
    lemma_mod_multiples_basic(a.value() as int, k as int);
    lemma_mul_is_commutative(a.value() as int, k as int);
}

} // verus!
