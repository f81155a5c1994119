//! The KoalaBear prime field, p = 2^31 - 2^24 + 1.
//!
//! Elements are held as a raw `u32`. Every value built by `new` or by an
//! arithmetic operator is canonical (below `P`); addition and multiplication
//! also accept non-canonical raw values and reduce them.

use vstd::arithmetic::div_mod::*;
use vstd::arithmetic::mul::*;
use vstd::arithmetic::power::*;
use vstd::prelude::*;

verus! {

/// KoalaBear prime: p = 2^31 - 2^24 + 1 = 2130706433.
pub const P: u32 = 2130706433;

/// A KoalaBear field element.
#[derive(Clone, Copy, Debug, PartialEq, Eq, Structural)]
pub struct KoalaBear(pub u32);

/// The element whose raw value is `v mod P`.
pub open spec fn kb(v: int) -> KoalaBear {
    KoalaBear((v % (P as int)) as u32)
}

/// Field addition, on raw values.
pub open spec fn kb_add(a: KoalaBear, b: KoalaBear) -> KoalaBear {
    kb(a.0 + b.0)
}

/// Field multiplication, on raw values.
pub open spec fn kb_mul(a: KoalaBear, b: KoalaBear) -> KoalaBear {
    kb(a.0 * b.0)
}

/// Subtraction as computed on raw values (exact for canonical operands).
pub open spec fn kb_sub(a: KoalaBear, b: KoalaBear) -> KoalaBear {
    if a.0 >= b.0 {
        KoalaBear((a.0 - b.0) as u32)
    } else {
        KoalaBear((P - b.0 + a.0) as u32)
    }
}

/// When subtraction is defined on raw values (no underflow).
pub open spec fn kb_sub_req(a: KoalaBear, b: KoalaBear) -> bool {
    a.0 >= b.0 || b.0 <= P
}

/// Negation as computed on raw values.
pub open spec fn kb_neg(a: KoalaBear) -> KoalaBear {
    if a.0 == 0 {
        a
    } else {
        KoalaBear((P - a.0) as u32)
    }
}

/// `a^e` in the field.
pub open spec fn kb_pow(a: KoalaBear, e: nat) -> KoalaBear {
    kb(pow(a.0 as int, e))
}

/// Reduction gives the canonical residue of any integer.
pub proof fn law_reduction_is_canonical(v: int)
    ensures
        kb(v).0 == v % (P as int),
        kb(v).is_canonical(),
{
    lemma_mod_bound(v, P as int);
}

/// Field addition is commutative.
pub proof fn law_add_commutative(a: KoalaBear, b: KoalaBear)
    ensures
        kb_add(a, b) == kb_add(b, a),
{
}

/// Field addition is associative.
pub proof fn law_add_associative(a: KoalaBear, b: KoalaBear, c: KoalaBear)
    ensures
        kb_add(kb_add(a, b), c) == kb_add(a, kb_add(b, c)),
{
    let m = P as int;
    lemma_add_mod_noop(a.0 + b.0, c.0 as int, m);
    lemma_add_mod_noop(a.0 as int, b.0 + c.0, m);
    lemma_mod_twice(a.0 + b.0, m);
    lemma_mod_twice(b.0 + c.0, m);
    lemma_small_mod(c.0 as nat % P as nat, P as nat);
    lemma_mod_bound(c.0 as int, m);
    lemma_mod_bound(a.0 as int, m);
    lemma_mod_bound(a.0 + b.0, m);
    lemma_mod_bound(b.0 + c.0, m);
    lemma_add_mod_noop((a.0 + b.0) % m, c.0 as int, m);
    lemma_add_mod_noop(a.0 as int, (b.0 + c.0) % m, m);
}

/// Field multiplication is commutative.
pub proof fn law_mul_commutative(a: KoalaBear, b: KoalaBear)
    ensures
        kb_mul(a, b) == kb_mul(b, a),
{
    lemma_mul_is_commutative(a.0 as int, b.0 as int);
}

/// Field multiplication is associative.
pub proof fn law_mul_associative(a: KoalaBear, b: KoalaBear, c: KoalaBear)
    ensures
        kb_mul(kb_mul(a, b), c) == kb_mul(a, kb_mul(b, c)),
{
    let m = P as int;
    let ab = a.0 as int * b.0 as int;
    let bc = b.0 as int * c.0 as int;
    lemma_mul_nonnegative(a.0 as int, b.0 as int);
    lemma_mul_nonnegative(b.0 as int, c.0 as int);
    lemma_mod_bound(ab, m);
    lemma_mod_bound(bc, m);
    lemma_mul_mod_noop_left(ab, c.0 as int, m);
    lemma_mul_mod_noop_right(a.0 as int, bc, m);
    lemma_mul_is_associative(a.0 as int, b.0 as int, c.0 as int);
}

/// Multiplication distributes over addition.
pub proof fn law_distributive(a: KoalaBear, b: KoalaBear, c: KoalaBear)
    ensures
        kb_mul(a, kb_add(b, c)) == kb_add(kb_mul(a, b), kb_mul(a, c)),
{
    let m = P as int;
    let x = a.0 as int;
    lemma_mod_bound(b.0 + c.0, m);
    lemma_mul_mod_noop_right(x, b.0 + c.0, m);
    lemma_mul_is_distributive_add(x, b.0 as int, c.0 as int);
    lemma_mul_nonnegative(x, b.0 as int);
    lemma_mul_nonnegative(x, c.0 as int);
    lemma_add_mod_noop(x * b.0, x * c.0, m);
    lemma_mod_bound(x * b.0, m);
    lemma_mod_bound(x * c.0, m);
}

/// Zero is the additive identity on canonical elements.
pub proof fn law_add_zero(a: KoalaBear)
    requires
        a.is_canonical(),
    ensures
        kb_add(a, KoalaBear(0)) == a,
{
    lemma_small_mod(a.0 as nat, P as nat);
}

/// One is the multiplicative identity on canonical elements.
pub proof fn law_mul_one(a: KoalaBear)
    requires
        a.is_canonical(),
    ensures
        kb_mul(a, KoalaBear(1)) == a,
{
    lemma_small_mod(a.0 as nat, P as nat);
}

/// A canonical element plus its negation is zero.
pub proof fn law_neg_inverse(a: KoalaBear)
    requires
        a.is_canonical(),
    ensures
        kb_add(a, kb_neg(a)) == KoalaBear(0),
{
    if a.0 != 0 {
        lemma_mod_self_0(P as int);
    } else {
        lemma_small_mod(0, P as nat);
    }
}

/// Subtracting what was added gives back a canonical element.
pub proof fn law_sub_undoes_add(a: KoalaBear, b: KoalaBear)
    requires
        a.is_canonical(),
        b.is_canonical(),
    ensures
        kb_sub(kb_add(a, b), b) == a,
{
    let s = a.0 + b.0;
    if s < P {
        lemma_small_mod(s as nat, P as nat);
    } else {
        lemma_mod_sub_multiples_vanish(s as int, P as int);
        lemma_small_mod((s - P) as nat, P as nat);
    }
}

/// Powers add: `a^(e1 + e2) == a^e1 * a^e2`.
pub proof fn law_pow_add(a: KoalaBear, e1: nat, e2: nat)
    ensures
        kb_pow(a, e1 + e2) == kb_mul(kb_pow(a, e1), kb_pow(a, e2)),
{
    let m = P as int;
    let x = a.0 as int;
    lemma_pow_adds(x, e1, e2);
    lemma_mul_mod_noop(pow(x, e1), pow(x, e2), m);
}

impl KoalaBear {
    /// Canonical representative: the raw value is below `P`.
    pub open spec fn is_canonical(self) -> bool {
        self.0 < P
    }

    /// Create a new field element.
    pub fn new(value: u32) -> (r: Self)
        ensures
            r == kb(value as int),
            r.is_canonical(),
    {
        KoalaBear(value % P)
    }

    /// Get the canonical representative.
    pub fn value(self) -> (r: u32)
        ensures
            r == self.0,
    {
        self.0
    }

    /// Compute `self^exp` by binary exponentiation.
    pub fn pow(self, exp: u32) -> (r: Self)
        ensures
            r == kb_pow(self, exp as nat),
            r.is_canonical(),
    {
        let mut result = KoalaBear(1);
        let mut base = self;
        let mut e = exp;
        proof {
            lemma_mul_basics(pow(base.0 as int, e as nat));
        }
        while e > 0
            invariant
                result.is_canonical(),
                (result.0 * pow(base.0 as int, e as nat)) % (P as int) == pow(self.0 as int, exp as nat)
                    % (P as int),
            decreases e,
        {
            let ghost r0 = result.0 as int;
            let ghost b0 = base.0 as int;
            let ghost e0 = e as nat;
            let ghost eu: u32 = e;
            let odd = e & 1 == 1;
            proof {
                assert(odd == (e % 2 == 1)) by (bit_vector)
                    requires
                        odd == (e & 1 == 1),
                ;
            }
            if odd {
                result = result * base;
            }
            base = base * base;
            e = e >> 1;
            proof {
                assert(e == eu / 2) by (bit_vector)
                    requires
                        e == eu >> 1,
                ;
                lemma_pow_step(r0, b0, e0, P as int);
                if odd {
                    assert(result.0 == (r0 * b0) % (P as int));
                } else {
                    assert(result.0 == r0) by {
                        lemma_small_mod(r0 as nat, P as nat);
                    }
                }
            }
        }
        proof {
            lemma_pow0(base.0 as int);
            lemma_small_mod(result.0 as nat, P as nat);
        }
        result
    }

    /// Multiplicative inverse by Fermat's little theorem: `self^(P-2)`.
    pub fn inverse(self) -> (r: Self)
        ensures
            r == kb_pow(self, (P - 2) as nat),
            r.is_canonical(),
    {
        self.pow(P - 2)
    }
}

/// One step of square-and-multiply keeps `r * b^e mod m` unchanged.
proof fn lemma_pow_step(r: int, b: int, e: nat, m: int)
    requires
        m > 0,
    ensures
        e % 2 == 1 ==> ((r * b) % m) * pow((b * b) % m, e / 2) % m == (r * pow(b, e)) % m,
        e % 2 == 0 ==> r * pow((b * b) % m, e / 2) % m == (r * pow(b, e)) % m,
{
    let k = e / 2;
    let bb = b * b;
    lemma_pow_mod_noop(bb, k, m);
    lemma_square_is_pow2(b);
    lemma_pow_multiplies(b, 2, k);
    assert(pow(bb, k) == pow(b, 2 * k));
    if e % 2 == 1 {
        assert(e == 2 * k + 1);
        lemma_pow_adds(b, 2 * k, 1);
        lemma_pow1(b);
        assert(pow(b, e) == pow(b, 2 * k) * b);
        let x = pow(bb % m, k);
        let y = pow(bb, k);
        lemma_mul_mod_noop_left(r * b, x, m);
        lemma_mul_mod_noop_right(r * b, x, m);
        lemma_mul_mod_noop_right(r * b, y, m);
        assert(x % m == y % m);
        assert((r * b) * (x % m) % m == (r * b) * (y % m) % m);
        lemma_mul_is_associative(r, b, y);
        lemma_mul_is_commutative(b, y);
        lemma_mul_is_associative(r, y, b);
        assert((r * b) * y == r * pow(b, e));
    } else {
        assert(e == 2 * k);
        lemma_mul_mod_noop_right(r, pow(bb % m, k), m);
        lemma_mul_mod_noop_right(r, pow(bb, k), m);
    }
}

impl core::ops::Add for KoalaBear {
    type Output = Self;

    fn add(self, rhs: Self) -> (r: Self) {
        let sum: u64 = self.0 as u64 + rhs.0 as u64;
        KoalaBear((sum % (P as u64)) as u32)
    }
}

impl vstd::std_specs::ops::AddSpecImpl for KoalaBear {
    open spec fn obeys_add_spec() -> bool {
        true
    }

    open spec fn add_req(self, rhs: Self) -> bool {
        true
    }

    open spec fn add_spec(self, rhs: Self) -> Self {
        kb_add(self, rhs)
    }
}

impl core::ops::Sub for KoalaBear {
    type Output = Self;

    fn sub(self, rhs: Self) -> (r: Self) {
        let diff = if self.0 >= rhs.0 {
            self.0 - rhs.0
        } else {
            P - rhs.0 + self.0
        };
        KoalaBear(diff)
    }
}

impl vstd::std_specs::ops::SubSpecImpl for KoalaBear {
    open spec fn obeys_sub_spec() -> bool {
        true
    }

    open spec fn sub_req(self, rhs: Self) -> bool {
        kb_sub_req(self, rhs)
    }

    open spec fn sub_spec(self, rhs: Self) -> Self {
        kb_sub(self, rhs)
    }
}

impl core::ops::Mul for KoalaBear {
    type Output = Self;

    fn mul(self, rhs: Self) -> (r: Self) {
        proof {
            lemma_mul_upper_bound(self.0 as int, u32::MAX as int, rhs.0 as int, u32::MAX as int);
        }
        let prod: u64 = self.0 as u64 * rhs.0 as u64;
        KoalaBear((prod % (P as u64)) as u32)
    }
}

impl vstd::std_specs::ops::MulSpecImpl for KoalaBear {
    open spec fn obeys_mul_spec() -> bool {
        true
    }

    open spec fn mul_req(self, rhs: Self) -> bool {
        true
    }

    open spec fn mul_spec(self, rhs: Self) -> Self {
        kb_mul(self, rhs)
    }
}

impl core::ops::Neg for KoalaBear {
    type Output = Self;

    fn neg(self) -> (r: Self) {
        if self.0 == 0 {
            self
        } else {
            KoalaBear(P - self.0)
        }
    }
}

impl vstd::std_specs::ops::NegSpecImpl for KoalaBear {
    open spec fn obeys_neg_spec() -> bool {
        true
    }

    open spec fn neg_req(self) -> bool {
        self.0 <= P
    }

    open spec fn neg_spec(self) -> Self {
        kb_neg(self)
    }
}

impl core::ops::AddAssign for KoalaBear {
    fn add_assign(&mut self, rhs: Self)
        ensures
            *final(self) == kb_add(*old(self), rhs),
    {
        *self = *self + rhs;
    }
}

impl core::ops::SubAssign for KoalaBear {
    fn sub_assign(&mut self, rhs: Self)
        requires
            kb_sub_req(*old(self), rhs),
        ensures
            *final(self) == kb_sub(*old(self), rhs),
    {
        *self = *self - rhs;
    }
}

impl core::ops::MulAssign for KoalaBear {
    fn mul_assign(&mut self, rhs: Self)
        ensures
            *final(self) == kb_mul(*old(self), rhs),
    {
        *self = *self * rhs;
    }
}

impl Default for KoalaBear {
    fn default() -> (r: Self)
        ensures
            r == KoalaBear(0),
    {
        KoalaBear(0)
    }
}

} // verus!
