use deskframe::numfmt::{div_round_half_even_u128, f64_value_of_u64, push_decimal};

#[test]
fn push_decimal_appends_digits() {
    let mut s = String::from("n=");
    push_decimal(&mut s, 0);
    assert_eq!(s, "n=0");
    let mut s = String::new();
    push_decimal(&mut s, u128::MAX);
    assert_eq!(s, u128::MAX.to_string());
    let mut s = String::new();
    push_decimal(&mut s, 1000200);
    assert_eq!(s, "1000200");
}

#[test]
fn division_rounds_half_to_even() {
    assert_eq!(div_round_half_even_u128(5, 2), 2);
    assert_eq!(div_round_half_even_u128(7, 2), 4);
    assert_eq!(div_round_half_even_u128(14, 4), 4);
    assert_eq!(div_round_half_even_u128(13, 4), 3);
    assert_eq!(div_round_half_even_u128(10, 4), 2);
    assert_eq!(div_round_half_even_u128(0, 9), 0);
}

#[test]
fn f64_value_is_the_nearest_double() {
    let cases = [0u64, 1, (1 << 53) - 1, 1 << 53, (1 << 53) + 1, (1 << 53) + 3, 12345678901234567890, u64::MAX];
    for b in cases {
        assert_eq!(f64_value_of_u64(b), b as f64 as u128, "b = {}", b);
    }
}
