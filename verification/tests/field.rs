use leansig_zkvm::koalabear::{KoalaBear, P};

#[test]
fn test_basic_arithmetic() {
    let a = KoalaBear::new(100);
    let b = KoalaBear::new(200);

    assert_eq!((a + b).value(), 300);
    assert_eq!((b - a).value(), 100);
    assert_eq!((a * b).value(), 20000);
}

#[test]
fn test_modular_reduction() {
    let a = KoalaBear::new(P - 1);
    let b = KoalaBear::new(2);
    let sum = a + b;
    assert_eq!(sum.value(), 1);
}

#[test]
fn test_inverse() {
    let a = KoalaBear::new(12345);
    let inv = a.inverse();
    let prod = a * inv;
    assert_eq!(prod.value(), 1);
}

#[test]
fn new_reduces_modulo_p() {
    assert_eq!(KoalaBear::new(P).value(), 0);
    assert_eq!(KoalaBear::new(P + 5).value(), 5);
    assert_eq!(KoalaBear::new(u32::MAX).value(), u32::MAX % P);
}

#[test]
fn subtraction_wraps_below_zero() {
    let a = KoalaBear::new(3);
    let b = KoalaBear::new(5);
    assert_eq!((a - b).value(), P - 2);
}

#[test]
fn negation_adds_to_zero() {
    let a = KoalaBear::new(777);
    assert_eq!((a + (-a)).value(), 0);
    assert_eq!((-KoalaBear::new(0)).value(), 0);
}

#[test]
fn multiplication_reduces() {
    let a = KoalaBear::new(P - 1);
    assert_eq!((a * a).value(), 1);
}

#[test]
fn pow_small_exponents() {
    let a = KoalaBear::new(3);
    assert_eq!(a.pow(0).value(), 1);
    assert_eq!(a.pow(5).value(), 243);
    assert_eq!(KoalaBear::new(2).pow(31).value(), ((1u64 << 31) % P as u64) as u32);
}

#[test]
fn pow_exponents_add() {
    let a = KoalaBear::new(987654);
    assert_eq!(a.pow(10) * a.pow(22), a.pow(32));
}

#[test]
fn sub_undoes_add() {
    let a = KoalaBear::new(P - 10);
    let b = KoalaBear::new(123456);
    assert_eq!((a + b) - b, a);
}

#[test]
fn assign_operators() {
    let mut a = KoalaBear::new(10);
    a += KoalaBear::new(5);
    assert_eq!(a.value(), 15);
    a -= KoalaBear::new(20);
    assert_eq!(a.value(), P - 5);
    a *= KoalaBear::new(2);
    assert_eq!(a.value(), P - 10);
}

#[test]
fn inverse_of_other_values() {
    for v in [1u32, 2, 7, P - 1, 1 << 30] {
        let a = KoalaBear::new(v);
        assert_eq!((a * a.inverse()).value(), 1);
    }
}

#[test]
fn field_laws_on_values() {
    let a = KoalaBear::new(1_000_000_007 % P);
    let b = KoalaBear::new(P - 3);
    let c = KoalaBear::new(424242);
    assert_eq!(a + b, b + a);
    assert_eq!((a + b) + c, a + (b + c));
    assert_eq!(a * b, b * a);
    assert_eq!((a * b) * c, a * (b * c));
    assert_eq!(a * (b + c), a * b + a * c);
    assert_eq!(a + KoalaBear::new(0), a);
    assert_eq!(a * KoalaBear::new(1), a);
}

#[test]
fn default_is_zero() {
    assert_eq!(KoalaBear::default().value(), 0);
}
