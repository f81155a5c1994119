//! The multiplicative group of the KoalaBear field is cyclic: 3 has order
//! `P - 1`, so its powers run through every nonzero element, and every
//! nonzero element raised to `P - 1` is one (Fermat's little theorem for P).
//! This is what makes `KoalaBear::inverse` an inverse, and it shows that P
//! is prime.

use crate::koalabear::{kb_mul, kb_pow, KoalaBear, P};
use vstd::arithmetic::div_mod::*;
use vstd::arithmetic::mul::*;
use vstd::arithmetic::power::*;
use vstd::prelude::*;
use vstd::set_lib::*;

verus! {

/// The order of the multiplicative group, `P - 1 = 2^24 * 127`.
pub open spec fn group_order() -> int {
    2130706432
}

/// `3^e mod P`.
pub open spec fn g_pow(e: nat) -> int {
    pow(3, e) % (P as int)
}

/// One more factor of 3.
proof fn lemma_step_mul(e: nat, x: int)
    requires
        g_pow(e) == x,
    ensures
        g_pow(e + 1) == (x * 3) % (P as int),
{
    lemma_pow_adds(3, e, 1);
    lemma_pow1(3);
    lemma_mul_mod_noop_left(pow(3, e), 3, P as int);
}

/// Doubling the exponent squares the residue.
proof fn lemma_step_sq(e: nat, x: int)
    requires
        g_pow(e) == x,
    ensures
        g_pow(e + e) == (x * x) % (P as int),
{
    lemma_pow_adds(3, e, e);
    lemma_mul_mod_noop(pow(3, e), pow(3, e), P as int);
}

proof fn lemma_g_pow_127()
    ensures
        g_pow(127) == 1791270792,
{
    reveal_with_fuel(pow, 2);
    assert(g_pow(1) == 3);
    lemma_step_sq(1, 3);
    assert(g_pow(2) == 9);
    lemma_step_mul(2, 9);
    assert(g_pow(3) == 27);
    lemma_step_sq(3, 27);
    assert(g_pow(6) == 729);
    lemma_step_mul(6, 729);
    assert(g_pow(7) == 2187);
    lemma_step_sq(7, 2187);
    assert(g_pow(14) == 4782969);
    lemma_step_mul(14, 4782969);
    assert(g_pow(15) == 14348907);
    lemma_step_sq(15, 14348907);
    assert(g_pow(30) == 969473859);
    lemma_step_mul(30, 969473859);
    assert(g_pow(31) == 777715144);
    lemma_step_sq(31, 777715144);
    assert(g_pow(62) == 1296657966);
    lemma_step_mul(62, 1296657966);
    assert(g_pow(63) == 1759267465);
    lemma_step_sq(63, 1759267465);
    assert(g_pow(126) == 597090264);
    lemma_step_mul(126, 597090264);
    assert(g_pow(127) == 1791270792);
}

proof fn lemma_g_pow_127_2_12()
    requires
        g_pow(127) == 1791270792,
    ensures
        g_pow(520192) == 1989134074,
{
    lemma_step_sq(127, 1791270792);
    assert(g_pow(254) == 1760025929);
    lemma_step_sq(254, 1760025929);
    assert(g_pow(508) == 542991299);
    lemma_step_sq(508, 542991299);
    assert(g_pow(1016) == 1213133211);
    lemma_step_sq(1016, 1213133211);
    assert(g_pow(2032) == 1364057261);
    lemma_step_sq(2032, 1364057261);
    assert(g_pow(4064) == 339671193);
    lemma_step_sq(4064, 339671193);
    assert(g_pow(8128) == 1816824389);
    lemma_step_sq(8128, 1816824389);
    assert(g_pow(16256) == 373019801);
    lemma_step_sq(16256, 373019801);
    assert(g_pow(32512) == 1848593786);
    lemma_step_sq(32512, 1848593786);
    assert(g_pow(65024) == 1168510561);
    lemma_step_sq(65024, 1168510561);
    assert(g_pow(130048) == 1047035213);
    lemma_step_sq(130048, 1047035213);
    assert(g_pow(260096) == 809067698);
    lemma_step_sq(260096, 809067698);
    assert(g_pow(520192) == 1989134074);
}

proof fn lemma_g_pow_order()
    requires
        g_pow(520192) == 1989134074,
    ensures
        g_pow(1065353216) == 2130706432 && g_pow(2130706432) == 1,
{
    lemma_step_sq(520192, 1989134074);
    assert(g_pow(1040384) == 2000983452);
    lemma_step_sq(1040384, 2000983452);
    assert(g_pow(2080768) == 860702919);
    lemma_step_sq(2080768, 860702919);
    assert(g_pow(4161536) == 665670555);
    lemma_step_sq(4161536, 665670555);
    assert(g_pow(8323072) == 392596362);
    lemma_step_sq(8323072, 392596362);
    assert(g_pow(16646144) == 699882112);
    lemma_step_sq(16646144, 699882112);
    assert(g_pow(33292288) == 1548376985);
    lemma_step_sq(33292288, 1548376985);
    assert(g_pow(66584576) == 170455089);
    lemma_step_sq(66584576, 170455089);
    assert(g_pow(133169152) == 148625052);
    lemma_step_sq(133169152, 148625052);
    assert(g_pow(266338304) == 1748172362);
    lemma_step_sq(266338304, 1748172362);
    assert(g_pow(532676608) == 2113994754);
    lemma_step_sq(532676608, 2113994754);
    assert(g_pow(1065353216) == 2130706432);
    lemma_step_sq(1065353216, 2130706432);
    assert(g_pow(2130706432) == 1);
}

proof fn lemma_g_pow_2_12()
    ensures
        g_pow(4096) == 1356258691,
{
    reveal_with_fuel(pow, 2);
    assert(g_pow(1) == 3);
    lemma_step_sq(1, 3);
    assert(g_pow(2) == 9);
    lemma_step_sq(2, 9);
    assert(g_pow(4) == 81);
    lemma_step_sq(4, 81);
    assert(g_pow(8) == 6561);
    lemma_step_sq(8, 6561);
    assert(g_pow(16) == 43046721);
    lemma_step_sq(16, 43046721);
    assert(g_pow(32) == 202438999);
    lemma_step_sq(32, 202438999);
    assert(g_pow(64) == 1016389529);
    lemma_step_sq(64, 1016389529);
    assert(g_pow(128) == 1112399510);
    lemma_step_sq(128, 1112399510);
    assert(g_pow(256) == 925288330);
    lemma_step_sq(256, 925288330);
    assert(g_pow(512) == 1368166559);
    lemma_step_sq(512, 1368166559);
    assert(g_pow(1024) == 1178470116);
    lemma_step_sq(1024, 1178470116);
    assert(g_pow(2048) == 1220923943);
    lemma_step_sq(2048, 1220923943);
    assert(g_pow(4096) == 1356258691);
}

proof fn lemma_g_pow_2_24()
    requires
        g_pow(4096) == 1356258691,
    ensures
        g_pow(16777216) == 1828256994,
{
    lemma_step_sq(4096, 1356258691);
    assert(g_pow(8192) == 591038889);
    lemma_step_sq(8192, 591038889);
    assert(g_pow(16384) == 919906353);
    lemma_step_sq(16384, 919906353);
    assert(g_pow(32768) == 435958235);
    lemma_step_sq(32768, 435958235);
    assert(g_pow(65536) == 2072804047);
    lemma_step_sq(65536, 2072804047);
    assert(g_pow(131072) == 555809599);
    lemma_step_sq(131072, 555809599);
    assert(g_pow(262144) == 749749968);
    lemma_step_sq(262144, 749749968);
    assert(g_pow(524288) == 14471777);
    lemma_step_sq(524288, 14471777);
    assert(g_pow(1048576) == 932825293);
    lemma_step_sq(1048576, 932825293);
    assert(g_pow(2097152) == 338912181);
    lemma_step_sq(2097152, 338912181);
    assert(g_pow(4194304) == 297594125);
    lemma_step_sq(4194304, 297594125);
    assert(g_pow(8388608) == 69130339);
    lemma_step_sq(8388608, 69130339);
    assert(g_pow(16777216) == 1828256994);
}

/// The residues of 3 that the proof needs: `3^((P-1)/2) = -1`,
/// `3^(P-1) = 1` and `3^((P-1)/127) != 1`.
proof fn lemma_group_values()
    ensures
        g_pow(1065353216) == P - 1,
        g_pow(2130706432) == 1,
        g_pow(16777216) == 1828256994,
{
    lemma_g_pow_127();
    lemma_g_pow_127_2_12();
    lemma_g_pow_order();
    lemma_g_pow_2_12();
    lemma_g_pow_2_24();
}

/// Powers of a power of 3 that is one are one.
proof fn lemma_power_of_one(d: nat, k: nat)
    requires
        g_pow(d) == 1,
    ensures
        g_pow(d * k) == 1,
{
    lemma_pow_multiplies(3, d, k);
    lemma_pow_mod_noop(pow(3, d), k, P as int);
    lemma1_pow(k);
    lemma_small_mod(1, P as nat);
}

/// A proper divisor `d` of the group order (cofactor `q > 1`) divides half
/// of it, or is its 127th part.
proof fn lemma_proper_divisor(d: nat, q: nat)
    requires
        d * q == group_order(),
        q > 1,
    ensures
        (q % 2 == 0 && d * (q / 2) == 1065353216) || d == 16777216,
{
    if q % 2 == 0 {
        assert(d * (q / 2) == 1065353216) by (nonlinear_arith)
            requires
                d * q == 2130706432,
                q % 2 == 0,
        ;
    } else {
        assert(d <= 2130706432 && q <= 2130706432) by (nonlinear_arith)
            requires
                d * q == 2130706432,
                q > 1,
        ;
        let d32 = d as u32;
        let q32 = q as u32;
        assert(d32 == 16777216) by (bit_vector)
            requires
                d32 as int * q32 as int == 2130706432,
                q32 % 2 == 1,
                q32 > 1,
        ;
    }
}

/// No positive exponent below the group order takes 3 to one.
proof fn lemma_no_smaller_order(d: nat)
    requires
        0 < d < group_order(),
    ensures
        g_pow(d) != 1,
    decreases d,
{
    if g_pow(d) == 1 {
        let n = group_order() as nat;
        let q = n / d;
        let r = n % d;
        lemma_fundamental_div_mod(n as int, d as int);
        lemma_mod_bound(n as int, d as int);
        lemma_group_values();
        lemma_power_of_one(d, q);
        lemma_pow_adds(3, d * q, r);
        lemma_mul_mod_noop_left(pow(3, d * q), pow(3, r), P as int);
        assert(d * q + r == n);
        if r > 0 {
            lemma_no_smaller_order(r);
        } else {
            assert(q > 1) by (nonlinear_arith)
                requires
                    d * q == n,
                    d < n,
            ;
            lemma_proper_divisor(d, q);
            if q % 2 == 0 {
                lemma_power_of_one(d, q / 2);
            }
        }
    }
}

/// Distinct exponents below the group order give distinct powers of 3.
proof fn lemma_powers_distinct(i: nat, j: nat)
    requires
        i < j < group_order(),
    ensures
        g_pow(i) != g_pow(j),
{
    let n = group_order() as nat;
    let m = P as int;
    let a = pow(3, (n - i) as nat);
    lemma_group_values();
    lemma_pow_adds(3, (n - i) as nat, i);
    lemma_pow_adds(3, (n - i) as nat, j);
    lemma_pow_adds(3, n, (j - i) as nat);
    assert((n - i) as nat + i == n);
    assert((n - i) as nat + j == n + (j - i) as nat);
    lemma_mul_mod_noop_right(a, pow(3, j), m);
    lemma_mul_mod_noop_right(a, pow(3, i), m);
    lemma_mul_mod_noop_left(pow(3, n), pow(3, (j - i) as nat), m);
    lemma_no_smaller_order((j - i) as nat);
}

/// Powers of 3 below the group order are nonzero residues.
proof fn lemma_power_nonzero(k: nat)
    requires
        k < group_order(),
    ensures
        0 < g_pow(k) < P,
{
    let n = group_order() as nat;
    lemma_group_values();
    lemma_pow_adds(3, k, (n - k) as nat);
    assert(k + (n - k) as nat == n);
    lemma_mul_mod_noop_left(pow(3, k), pow(3, (n - k) as nat), P as int);
    lemma_mod_bound(pow(3, k), P as int);
    if g_pow(k) == 0 {
        assert(0 * pow(3, (n - k) as nat) == 0);
        lemma_small_mod(0, P as nat);
        assert(g_pow(n) == 0);
    }
}

/// Every nonzero residue is a power of 3 with exponent below the group order.
proof fn lemma_every_nonzero_is_a_power(a: int)
    requires
        0 < a < P,
    ensures
        exists|k: nat| k < group_order() && g_pow(k) == a,
{
    let n = group_order();
    let dom = set_int_range(0, n);
    let f = |k: int| g_pow(k as nat);
    let img = dom.map(f);
    let units = set_int_range(1, P as int);
    lemma_int_range(0, n);
    lemma_int_range(1, P as int);
    assert forall|x: int, y: int| dom.contains(x) && dom.contains(y) && #[trigger] f(x) == #[trigger] f(y) implies x
        == y by {
        if x < y {
            lemma_powers_distinct(x as nat, y as nat);
        } else if y < x {
            lemma_powers_distinct(y as nat, x as nat);
        }
    }
    assert(vstd::relations::injective_on(f, dom));
    lemma_map_size(dom, img, f);
    assert forall|v: int| img.contains(v) implies units.contains(v) by {
        let x = choose|x: int| dom.contains(x) && v == f(x);
        lemma_power_nonzero(x as nat);
    }
    lemma_subset_equality(img, units);
    assert(units.contains(a));
    assert(img.contains(a));
    let k = choose|x: int| dom.contains(x) && a == f(x);
    assert((k as nat) < n && g_pow(k as nat) == a);
}

/// Fermat's little theorem for P: every nonzero residue raised to `P - 1`
/// is one.
pub proof fn law_fermat(a: int)
    requires
        0 < a < P,
    ensures
        pow(a, (P - 1) as nat) % (P as int) == 1,
{
    let n = group_order() as nat;
    let m = P as int;
    lemma_every_nonzero_is_a_power(a);
    let k = choose|k: nat| k < group_order() && g_pow(k) == a;
    lemma_group_values();
    lemma_pow_mod_noop(pow(3, k), n, m);
    lemma_pow_multiplies(3, k, n);
    lemma_mul_is_commutative(k as int, n as int);
    lemma_pow_multiplies(3, n, k);
    lemma_power_of_one(n, k);
    assert(pow(a, n) == pow(g_pow(k), n));
}

/// `inverse` is the multiplicative inverse: a nonzero canonical element
/// times `a^(P-2)` is one.
pub proof fn law_inverse(a: KoalaBear)
    requires
        a.is_canonical(),
        a.0 != 0,
    ensures
        kb_mul(a, kb_pow(a, (P - 2) as nat)) == KoalaBear(1),
{
    let m = P as int;
    let x = a.0 as int;
    law_fermat(x);
    lemma_pow_adds(x, 1, (P - 2) as nat);
    lemma_pow1(x);
    lemma_mod_bound(pow(x, (P - 2) as nat), m);
    lemma_mul_mod_noop_right(x, pow(x, (P - 2) as nat), m);
    assert(1 + (P - 2) as nat == (P - 1) as nat);
}

/// P is prime: no integer strictly between 1 and P divides it.
pub proof fn law_p_is_prime(d: int)
    requires
        1 < d < P,
    ensures
        (P as int) % d != 0,
{
    let m = P as int;
    if m % d == 0 {
        let e = (P - 1) as nat;
        law_fermat(d);
        let x = pow(d, e);
        lemma_pow_mod(d as nat, e);
        lemma_fundamental_div_mod(x, m);
        lemma_fundamental_div_mod(m, d);
        let k = m / d;
        let q = x / m;
        assert(x == d * (k * q) + 1) by (nonlinear_arith)
            requires
                x == m * q + 1,
                m == d * k,
        ;
        lemma_fundamental_div_mod(x, d);
        lemma_mod_multiples_vanish(k * q, 1, d);
        lemma_small_mod(1, d as nat);
    }
}

} // verus!
