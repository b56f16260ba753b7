use arithmetization::field::FieldElement;
use ark_ff::{BigInt, Field, PrimeField};
use ark_pallas::Fq;

const MODULUS: [u64; 4] = [0x992d30ed00000001, 0x224698fc094cf91b, 0, 0x4000000000000000];

fn field_to_ark(e: &FieldElement) -> Fq {
    Fq::from_bigint(BigInt::new(e.to_limbs())).unwrap()
}

fn field_from_ark(x: Fq) -> FieldElement {
    FieldElement::from_limbs(x.into_bigint().0).unwrap()
}

fn minus_one() -> FieldElement {
    FieldElement::from_limbs([MODULUS[0] - 1, MODULUS[1], MODULUS[2], MODULUS[3]]).unwrap()
}

#[test]
fn the_modulus_is_the_modulus_of_the_pallas_base_field() {
    assert_eq!(Fq::MODULUS.0, MODULUS);
}

#[test]
fn small_integers_keep_their_value() {
    assert_eq!(FieldElement::zero().to_limbs(), [0, 0, 0, 0]);
    assert_eq!(FieldElement::one().to_limbs(), [1, 0, 0, 0]);
    assert_eq!(FieldElement::from_u64(u64::MAX).to_limbs(), [u64::MAX, 0, 0, 0]);
    assert_eq!(FieldElement::from_u64(0), FieldElement::zero());
    assert_eq!(FieldElement::from_u64(1), FieldElement::one());
    assert_eq!(field_to_ark(&FieldElement::from_u64(77)), Fq::from(77u64));
}

#[test]
fn from_limbs_takes_exactly_the_integers_below_the_modulus() {
    assert_eq!(FieldElement::from_limbs(MODULUS), None);
    assert_eq!(FieldElement::from_limbs([MODULUS[0] + 1, MODULUS[1], 0, MODULUS[3]]), None);
    assert_eq!(FieldElement::from_limbs([0, MODULUS[1] + 1, 0, MODULUS[3]]), None);
    assert_eq!(FieldElement::from_limbs([0, 0, 1, MODULUS[3]]), None);
    assert_eq!(FieldElement::from_limbs([0, 0, 0, MODULUS[3] + 1]), None);
    assert_eq!(FieldElement::from_limbs([u64::MAX; 4]), None);
    let below = [MODULUS[0] - 1, MODULUS[1], 0, MODULUS[3]];
    assert_eq!(FieldElement::from_limbs(below).unwrap().to_limbs(), below);
    let low = [u64::MAX, u64::MAX, u64::MAX, MODULUS[3] - 1];
    assert_eq!(FieldElement::from_limbs(low).unwrap().to_limbs(), low);
    let mid = [u64::MAX, MODULUS[1] - 1, 0, MODULUS[3]];
    assert_eq!(FieldElement::from_limbs(mid).unwrap().to_limbs(), mid);
    assert_eq!(FieldElement::from_limbs([5, 0, 0, 0]), Some(FieldElement::from_u64(5)));
}

#[test]
fn addition_is_addition_modulo_the_prime() {
    let two = FieldElement::from_u64(2);
    let three = FieldElement::from_u64(3);
    assert_eq!(two.add(&three), FieldElement::from_u64(5));
    assert_eq!(minus_one().add(&FieldElement::one()), FieldElement::zero());
    assert_eq!(minus_one().add(&three), two);
    assert_eq!(
        FieldElement::from_u64(u64::MAX).add(&FieldElement::one()).to_limbs(),
        [0, 1, 0, 0]
    );
}

#[test]
fn multiplication_is_multiplication_modulo_the_prime() {
    let three = FieldElement::from_u64(3);
    let four = FieldElement::from_u64(4);
    assert_eq!(three.mul(&four), FieldElement::from_u64(12));
    assert_eq!(minus_one().mul(&minus_one()), FieldElement::one());
    assert_eq!(minus_one().mul(&FieldElement::zero()), FieldElement::zero());
    assert_eq!(
        FieldElement::from_u64(1 << 63).mul(&FieldElement::from_u64(4)).to_limbs(),
        [0, 2, 0, 0]
    );
}

#[test]
fn squaring_is_multiplication_by_itself() {
    assert_eq!(FieldElement::from_u64(5).square(), FieldElement::from_u64(25));
    assert_eq!(minus_one().square(), FieldElement::one());
    let x = FieldElement::from_limbs([7, 8, 9, 10]).unwrap();
    assert_eq!(x.square(), x.mul(&x));
    assert_eq!(field_to_ark(&x.square()), field_to_ark(&x).square());
}

#[test]
fn powers_are_repeated_products() {
    let two = FieldElement::from_u64(2);
    assert_eq!(two.pow(0), FieldElement::one());
    assert_eq!(two.pow(1), two);
    assert_eq!(two.pow(10), FieldElement::from_u64(1024));
    assert_eq!(FieldElement::zero().pow(0), FieldElement::one());
    assert_eq!(FieldElement::zero().pow(3), FieldElement::zero());
    assert_eq!(minus_one().pow(7), minus_one());
    assert_eq!(minus_one().pow(8), FieldElement::one());
    assert_eq!(FieldElement::from_u64(3).pow(7), FieldElement::from_u64(2187));
    let x = FieldElement::from_limbs([1, 2, 3, 4]).unwrap();
    assert_eq!(x.pow(3), x.mul(&x).mul(&x));
}

#[test]
fn arithmetic_agrees_with_ark_ff() {
    let mut x = Fq::from(123456789u64);
    let mut y = Fq::from(987654321u64);
    for _ in 0..20 {
        let a = field_from_ark(x);
        let b = field_from_ark(y);
        assert_eq!(field_to_ark(&a.add(&b)), x + y);
        assert_eq!(field_to_ark(&a.mul(&b)), x * y);
        assert_eq!(field_to_ark(&a.square()), x.square());
        assert_eq!(field_to_ark(&a.pow(7)), x.pow([7u64]));
        x = x.square() + y;
        y = y * x + Fq::from(3u64);
    }
}

#[test]
fn equal_elements_have_equal_limbs() {
    let a = FieldElement::from_u64(9).mul(&FieldElement::from_u64(9));
    let b = FieldElement::from_u64(80).add(&FieldElement::one());
    assert_eq!(a, b);
    assert_eq!(a.to_limbs(), b.to_limbs());
    assert_ne!(a, FieldElement::from_u64(82));
}
