use hcl_literals::number::NumberError;
use hcl_literals::{number, number_bytes, Number};

#[test]
fn integers_are_parsed_correctly() {
    assert_eq!(number("12345").unwrap().0, Number::from_i32(12345));
    assert_eq!(number("+12345").unwrap().0, Number::from_i32(12345));
    assert_eq!(number("-12345").unwrap().0, Number::from_i32(-12345));
}

#[test]
fn floats_are_parsed_correctly() {
    assert_eq!(
        number("12.34").unwrap().0,
        Number::from_text(&12.34f64.to_string())
    );
    assert_eq!(
        number("+12.34").unwrap().0,
        Number::from_text(&12.34f64.to_string())
    );
    assert_eq!(
        number("-12.34").unwrap().0,
        Number::from_text(&(-12.34f64).to_string())
    );
}

#[test]
fn number_token_keeps_exact_text() {
    let (num, rest) = number("007.500e+01,tail").unwrap();
    assert_eq!(num.as_str(), "007.500e+01");
    assert_eq!(rest, ",tail");
}

#[test]
fn leading_plus_is_stripped_once_and_reparsing_is_idempotent() {
    let (first, rest) = number("+12345").unwrap();
    assert_eq!(rest, "");
    let (second, rest2) = number(first.as_str()).unwrap();
    assert_eq!(rest2, "");
    assert_eq!(first.as_str(), second.as_str());
    assert_eq!(first.as_str(), "12345");
}

#[test]
fn non_numeric_input_is_a_recoverable_mismatch() {
    let e = number("abc").unwrap_err();
    assert!(e.recoverable());
    let e = number("+x").unwrap_err();
    assert!(e.recoverable());
    let e = number("").unwrap_err();
    assert!(e.recoverable());
}

#[test]
fn exponent_without_digits_is_left_unconsumed() {
    let (num, rest) = number("12.34e").unwrap();
    assert_eq!(num.as_str(), "12.34");
    assert_eq!(rest, "e");
}

#[test]
fn conversions_follow_the_text() {
    let (num, _) = number("250").unwrap();
    assert_eq!(num.as_u8(), Ok(250u8));
    assert_eq!(num.as_u64(), Ok(250u64));
    assert_eq!(num.as_i8(), Err(NumberError::OutOfRange));
    assert_eq!(num.as_i16(), Ok(250i16));

    let (num, _) = number("-128").unwrap();
    assert_eq!(num.as_i8(), Ok(-128i8));
    assert_eq!(num.as_u8(), Err(NumberError::OutOfRange));

    let (num, _) = number("12.34").unwrap();
    assert_eq!(num.as_i32(), Err(NumberError::InvalidFormat));

    let (num, _) = number("340282366920938463463374607431768211456").unwrap();
    assert_eq!(num.as_u128(), Err(NumberError::OutOfRange));
    let (num, _) = number("340282366920938463463374607431768211455").unwrap();
    assert_eq!(num.as_u128(), Ok(u128::MAX));
}

#[test]
fn integer_constructors_format_the_value() {
    assert_eq!(Number::from_u8(0).as_str(), "0");
    assert_eq!(Number::from_u16(65535).as_str(), "65535");
    assert_eq!(Number::from_i64(-12345).as_str(), "-12345");
    assert_eq!(Number::from_i64(i64::MIN).as_str(), "-9223372036854775808");
    assert_eq!(
        Number::from_u128(u128::MAX).as_str(),
        "340282366920938463463374607431768211455"
    );
    assert_eq!(
        Number::from_i128(i128::MIN).as_str(),
        "-170141183460469231731687303715884105728"
    );
    assert_eq!(Number::from_i32(42).as_i32(), Ok(42));
    assert_eq!(Number::from_u64(250).as_u8(), Ok(250u8));
}

#[test]
fn owned_copy_keeps_the_text() {
    let (num, _) = number("-12.34").unwrap();
    let owned = num.as_owned();
    assert_eq!(owned, num);
    assert_eq!(owned.as_str(), "-12.34");
}

#[test]
fn byte_entry_matches_text_entry() {
    let (num, rest) = number_bytes(b"+12345 x").unwrap();
    assert_eq!(num.as_str(), "12345");
    assert_eq!(rest, b" x");
    assert!(number_bytes(&[0xffu8, 0xfe]).unwrap_err().recoverable());
}
