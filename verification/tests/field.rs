use data_availability::field::Scalar;
use dusk_bytes::Serializable;
use dusk_plonk::bls12_381::{BlsScalar, ROOT_OF_UNITY};

const MODULUS_LE: [u8; 32] = [
    0x01, 0x00, 0x00, 0x00, 0xff, 0xff, 0xff, 0xff, 0xfe, 0x5b, 0xfe, 0xff, 0x02, 0xa4, 0xbd, 0x53,
    0x05, 0xd8, 0xa1, 0x09, 0x08, 0xd8, 0x39, 0x33, 0x48, 0x7d, 0x9d, 0x29, 0x53, 0xa7, 0xed, 0x73,
];

fn small(n: u64) -> Scalar {
    let mut bytes = [0u8; 32];
    bytes[..8].copy_from_slice(&n.to_le_bytes());
    Scalar::from_bytes(&bytes).unwrap()
}

fn minus_one() -> Scalar {
    let mut bytes = MODULUS_LE;
    bytes[0] = 0x00;
    Scalar::from_bytes(&bytes).unwrap()
}

#[test]
fn from_bytes_accepts_numbers_below_the_modulus_only() {
    assert!(Scalar::from_bytes(&MODULUS_LE).is_none());
    assert!(Scalar::from_bytes(&[0xff; 32]).is_none());
    let mut below = MODULUS_LE;
    below[0] = 0x00;
    let s = Scalar::from_bytes(&below).unwrap();
    assert_eq!(s.to_bytes(), below);
}

#[test]
fn zero_and_one_have_their_encodings() {
    assert_eq!(Scalar::zero().to_bytes(), [0u8; 32]);
    let mut one = [0u8; 32];
    one[0] = 1;
    assert_eq!(Scalar::one().to_bytes(), one);
    assert!(Scalar::zero().is_zero());
    assert!(!Scalar::one().is_zero());
}

#[test]
fn sum_is_reduced() {
    assert_eq!(small(5).plus(&small(7)).to_bytes(), small(12).to_bytes());
    // (q - 1) + 2 = 1
    assert_eq!(minus_one().plus(&small(2)).to_bytes(), small(1).to_bytes());
}

#[test]
fn difference_is_reduced() {
    assert_eq!(small(12).minus(&small(7)).to_bytes(), small(5).to_bytes());
    // 0 - 1 = q - 1
    assert_eq!(small(0).minus(&small(1)).to_bytes(), minus_one().to_bytes());
    assert!(small(9).minus(&small(9)).is_zero());
}

#[test]
fn product_is_reduced() {
    assert_eq!(small(6).times(&small(7)).to_bytes(), small(42).to_bytes());
    // (q - 1) * (q - 1) = 1
    assert_eq!(minus_one().times(&minus_one()).to_bytes(), small(1).to_bytes());
    assert!(small(6).times(&small(0)).is_zero());
}

#[test]
fn arithmetic_agrees_with_the_field_of_dusk() {
    let a = BlsScalar::from(0x1234_5678_9abc_def0u64) * BlsScalar::from(u64::MAX);
    let b = BlsScalar::from(987_654_321u64).square();
    let la = Scalar::from_bytes(&a.to_bytes()).unwrap();
    let lb = Scalar::from_bytes(&b.to_bytes()).unwrap();
    assert_eq!(la.plus(&lb).to_bytes(), (a + b).to_bytes());
    assert_eq!(la.minus(&lb).to_bytes(), (a - b).to_bytes());
    assert_eq!(la.times(&lb).to_bytes(), (a * b).to_bytes());
    assert_eq!(la.inverse().unwrap().to_bytes(), a.invert().unwrap().to_bytes());
}

#[test]
fn inverse_times_element_is_one() {
    let a = small(1_000_003);
    let inv = a.inverse().unwrap();
    assert!(a.times(&inv).equals(&Scalar::one()));
    assert!(Scalar::one().inverse().unwrap().equals(&Scalar::one()));
}

#[test]
fn zero_has_no_inverse() {
    assert!(Scalar::zero().inverse().is_none());
}

#[test]
fn equals_compares_numbers() {
    assert!(small(77).equals(&small(77)));
    assert!(!small(77).equals(&small(78)));
    assert!(!small(1).equals(&small(256)));
}

#[test]
fn root_of_unity_is_the_one_of_dusk() {
    let root = Scalar::root_of_unity();
    assert_eq!(root.to_bytes(), ROOT_OF_UNITY.to_bytes());
    assert_eq!(
        root.to_bytes(),
        [
            43, 13, 159, 67, 31, 151, 41, 56, 185, 128, 34, 140, 80, 131, 54, 182, 180, 19, 200, 34,
            25, 104, 155, 208, 32, 31, 232, 223, 158, 161, 162, 22
        ]
    );
}

#[test]
fn root_of_unity_has_order_two_to_the_thirty_two() {
    let mut x = Scalar::root_of_unity();
    for _ in 0..31 {
        x = x.times(&x);
    }
    // after 31 squarings: minus one; after one more: one
    assert!(x.equals(&minus_one()));
    assert!(x.times(&x).equals(&Scalar::one()));
}

#[test]
fn root_of_unity_is_seven_to_the_odd_part_of_the_group_order() {
    // t = (q - 1) / 2^32: the modulus less one, without its four lowest bytes
    let exponent = &MODULUS_LE[4..];
    let seven = small(7);
    let mut power = Scalar::one();
    for byte in exponent.iter().rev() {
        for bit in (0..8).rev() {
            power = power.times(&power);
            if (byte >> bit) & 1 == 1 {
                power = power.times(&seven);
            }
        }
    }
    assert!(power.equals(&Scalar::root_of_unity()));
}
