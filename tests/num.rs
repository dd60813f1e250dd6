use spof::{digits, NumArr, Sign, Signed, Unsigned};

#[test]
fn test_eq_signed() {
    let ina0 = NumArr::<Signed>::from(0);
    let ina1 = NumArr::<Signed>::from(42);
    let ina2 = NumArr::<Signed>::from(42);
    let ina3 = NumArr::<Signed>::from(-42);
    let ina4 = NumArr::<Signed>::from(84);

    assert_eq!(ina1, ina2);
    assert_ne!(ina1, ina3);
    assert_ne!(ina1, ina4);
    assert_ne!(ina3, ina4);
    assert_eq!(ina0.arr, []);
    assert_eq!(ina0.sign, Signed(Sign::Pos));
}

#[test]
fn test_eq_unsigned() {
    let una0 = NumArr::<Unsigned>::from(0u8);
    let una1 = NumArr::<Unsigned>::from(42u8);
    let una2 = NumArr::<Unsigned>::from(42u8);
    let una3 = NumArr::<Unsigned>::from(84u8);

    assert_eq!(una1, una2);
    assert_ne!(una1, una3);
    assert_eq!(una0.arr, []);
}

#[test]
fn test_from_i_to_signed() {
    let ina = NumArr::<Signed>::from(42i8);
    assert_eq!(ina.arr, vec![2, 4]);
    assert_eq!(ina.sign, Signed(Sign::Pos));

    let ina = NumArr::<Signed>::from(-42i16);
    assert_eq!(ina.arr, vec![2, 4]);
    assert_eq!(ina.sign, Signed(Sign::Neg));

    let ina = NumArr::<Signed>::from(42i32);
    assert_eq!(ina.arr, vec![2, 4]);
    assert_eq!(ina.sign, Signed(Sign::Pos));

    let ina = NumArr::<Signed>::from(-42i64);
    assert_eq!(ina.arr, vec![2, 4]);
    assert_eq!(ina.sign, Signed(Sign::Neg));

    let ina = NumArr::<Signed>::from(42i128);
    assert_eq!(ina.arr, vec![2, 4]);
    assert_eq!(ina.sign, Signed(Sign::Pos));

    let ina = NumArr::<Signed>::from(-42isize);
    assert_eq!(ina.arr, vec![2, 4]);
    assert_eq!(ina.sign, Signed(Sign::Neg));
}

#[test]
fn test_from_u_to_signed() {
    let ina = NumArr::<Signed>::from(42u8);
    assert_eq!(ina.arr, vec![2, 4]);
    assert_eq!(ina.sign, Signed(Sign::Pos));

    let ina = NumArr::<Signed>::from(42u16);
    assert_eq!(ina.arr, vec![2, 4]);
    assert_eq!(ina.sign, Signed(Sign::Pos));

    let ina = NumArr::<Signed>::from(42u32);
    assert_eq!(ina.arr, vec![2, 4]);
    assert_eq!(ina.sign, Signed(Sign::Pos));

    let ina = NumArr::<Signed>::from(42u64);
    assert_eq!(ina.arr, vec![2, 4]);
    assert_eq!(ina.sign, Signed(Sign::Pos));

    let ina = NumArr::<Signed>::from(42u128);
    assert_eq!(ina.arr, vec![2, 4]);
    assert_eq!(ina.sign, Signed(Sign::Pos));

    let ina = NumArr::<Signed>::from(42usize);
    assert_eq!(ina.arr, vec![2, 4]);
    assert_eq!(ina.sign, Signed(Sign::Pos));
}

#[test]
fn test_from_u_to_unsigned() {
    let ina = NumArr::<Unsigned>::from(42u8);
    assert_eq!(ina.arr, vec![2, 4]);
    assert_eq!(ina.sign, Unsigned);

    let ina = NumArr::<Unsigned>::from(42u16);
    assert_eq!(ina.arr, vec![2, 4]);
    assert_eq!(ina.sign, Unsigned);

    let ina = NumArr::<Unsigned>::from(42u32);
    assert_eq!(ina.arr, vec![2, 4]);
    assert_eq!(ina.sign, Unsigned);

    let ina = NumArr::<Unsigned>::from(42u64);
    assert_eq!(ina.arr, vec![2, 4]);
    assert_eq!(ina.sign, Unsigned);

    let ina = NumArr::<Unsigned>::from(42u128);
    assert_eq!(ina.arr, vec![2, 4]);
    assert_eq!(ina.sign, Unsigned);

    let ina = NumArr::<Unsigned>::from(42usize);
    assert_eq!(ina.arr, vec![2, 4]);
    assert_eq!(ina.sign, Unsigned);
}

#[test]
fn test_new() {
    let una = NumArr::<Unsigned>::new();
    let ina = NumArr::<Signed>::new();

    assert_eq!(una, NumArr::<Unsigned>::default());
    assert_eq!(ina, NumArr::<Signed>::default());
}

#[test]
fn test_zero() {
    let una = NumArr::<Unsigned>::zero();
    let ina = NumArr::<Signed>::zero();

    assert_eq!(una, NumArr::<Unsigned>::default());
    assert_eq!(ina, NumArr::<Signed>::default());
}

#[test]
fn test_set_zero() {
    let mut una = NumArr::<Unsigned>::from(42u8);
    let mut ina = NumArr::<Signed>::from(42);

    una.set_zero();
    ina.set_zero();

    assert_eq!(una, NumArr::<Unsigned>::default());
    assert_eq!(ina, NumArr::<Signed>::default());
}

#[test]
fn test_is_zero() {
    let una0 = NumArr::<Unsigned>::from(0u8);
    let una1 = NumArr::<Unsigned>::from(42u8);
    let ina0 = NumArr::<Signed>::from(0);
    let ina1 = NumArr::<Signed>::from(42);

    assert!(una0.is_zero());
    assert!(!una1.is_zero());
    assert!(ina0.is_zero());
    assert!(!ina1.is_zero());
}

#[test]
fn test_one() {
    let una = NumArr::<Unsigned>::one();
    let ina = NumArr::<Signed>::one();

    assert_eq!(una.arr, [1]);
    assert_eq!(una.sign, Unsigned);
    assert_eq!(ina.arr, [1]);
    assert_eq!(ina.sign, Signed(Sign::Pos));
}

#[test]
fn test_set_one() {
    let mut una = NumArr::<Unsigned>::from(42u8);
    let mut ina = NumArr::<Signed>::from(42);

    una.set_one();
    ina.set_one();

    assert_eq!(una.arr, [1]);
    assert_eq!(una.sign, Unsigned);
    assert_eq!(ina.arr, [1]);
    assert_eq!(ina.sign, Signed(Sign::Pos));
}

#[test]
fn test_is_one() {
    let una0 = NumArr::<Unsigned>::from(0u8);
    let una1 = NumArr::<Unsigned>::from(1u8);
    let una2 = NumArr::<Unsigned>::from(42u8);
    let ina0 = NumArr::<Signed>::from(0);
    let ina1 = NumArr::<Signed>::from(1);
    let ina2 = NumArr::<Signed>::from(42);

    assert!(!una0.is_one());
    assert!(una1.is_one());
    assert!(!una2.is_one());
    assert!(!ina0.is_one());
    assert!(ina1.is_one());
    assert!(!ina2.is_one());
}

#[test]
fn extreme_values_and_negation() {
    let ina = NumArr::<Signed>::from(i128::MIN);
    assert_eq!(ina.sign, Signed(Sign::Neg));
    assert_eq!(ina.arr.len(), 39);
    assert_eq!(ina.arr[0], 8);
    assert_eq!(digits(123), vec![3, 2, 1]);
    assert!(digits(0).is_empty());
    let neg = -NumArr::<Signed>::from(42);
    assert_eq!(neg, NumArr::<Signed>::from(-42));
    assert_eq!(-NumArr::<Signed>::from(0), NumArr::<Signed>::from(0));
    assert_eq!(-Sign::Neg, Sign::Pos);
}

#[test]
fn test_index() {
    let mut num_arr = NumArr::<Signed>::from(123);
    assert_eq!(num_arr[0], 3);
    assert_eq!(num_arr[1], 2);
    assert_eq!(num_arr[2], 1);

    num_arr[0] = 4;
    assert_eq!(num_arr[0], 4);
}

#[test]
fn writing_past_the_last_digit_pads_with_zeros() {
    let mut num_arr = NumArr::<Unsigned>::from(7u8);
    num_arr[2] = 5;
    assert_eq!(num_arr.arr, vec![7, 0, 5]);
}
