use indexer::codec::{u128_to_big_decimal, u256_to_big_decimal, U256};

fn text(bytes: &[u8]) -> String {
    String::from_utf8(bytes.to_vec()).unwrap()
}

#[test]
fn u128_zero_round_trip() {
    let d = u128_to_big_decimal(&0u128).unwrap();
    assert_eq!(text(d.digits()), "0");
    assert_eq!(d.to_u128(), Some(0));
}

#[test]
fn u128_max_round_trip() {
    let d = u128_to_big_decimal(&u128::MAX).unwrap();
    assert_eq!(text(d.digits()), "340282366920938463463374607431768211455");
    assert_eq!(d.to_u128(), Some(u128::MAX));
}

#[test]
fn u128_ordinary_value_round_trip() {
    let v: u128 = 1_000_000_007_000_000_000_000;
    let d = u128_to_big_decimal(&v).unwrap();
    assert_eq!(text(d.digits()), "1000000007000000000000");
    assert_eq!(d.to_u128(), Some(v));
}

#[test]
fn decimal_value_is_parsed_by_big_decimal() {
    let d = u128_to_big_decimal(&12345678901234567890u128).unwrap();
    assert_eq!(d.as_big_decimal().to_string(), "12345678901234567890");
    let z = u128_to_big_decimal(&0u128).unwrap();
    assert_eq!(z.as_big_decimal().to_string(), "0");
}

#[test]
fn u256_zero_round_trip() {
    let d = u256_to_big_decimal(&U256::zero()).unwrap();
    assert_eq!(text(d.digits()), "0");
    assert_eq!(d.to_u256(), Some(U256::zero()));
}

#[test]
fn u256_max_round_trip() {
    let max = U256::max_value();
    let d = u256_to_big_decimal(&max).unwrap();
    assert_eq!(
        text(d.digits()),
        "115792089237316195423570985008687907853269984665640564039457584007913129639935"
    );
    assert_eq!(d.to_u256(), Some(max));
    assert_eq!(
        d.as_big_decimal().to_string(),
        "115792089237316195423570985008687907853269984665640564039457584007913129639935"
    );
}

#[test]
fn u256_above_u128_does_not_fit_u128() {
    let d = u256_to_big_decimal(&U256::max_value()).unwrap();
    assert_eq!(d.to_u128(), None);
}

#[test]
fn u256_word_boundaries() {
    let x = U256 { words: [0, 1, 0, 0] };
    let d = u256_to_big_decimal(&x).unwrap();
    assert_eq!(text(d.digits()), "18446744073709551616");
    assert_eq!(d.to_u256(), Some(x));
    assert_eq!(d.to_u128(), Some(1u128 << 64));

    let y = U256 { words: [7, 0, 0, 1] };
    let e = u256_to_big_decimal(&y).unwrap();
    assert_eq!(
        text(e.digits()),
        "6277101735386680763835789423207666416102355444464034512903"
    );
    assert_eq!(e.to_u256(), Some(y));
}

#[test]
fn u256_from_u128_matches_u128_encoding() {
    let v: u128 = 98765432109876543210987654321;
    let a = u256_to_big_decimal(&U256::from_u128(v)).unwrap();
    let b = u128_to_big_decimal(&v).unwrap();
    assert_eq!(a.digits(), b.digits());
}
