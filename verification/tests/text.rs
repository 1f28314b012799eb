use concurrency::text::{append_decimal, append_digits, decimal_string};

#[test]
fn decimal_of_small_and_large_numbers() {
    assert_eq!(decimal_string(0), "0");
    assert_eq!(decimal_string(7), "7");
    assert_eq!(decimal_string(10), "10");
    assert_eq!(decimal_string(-1), "-1");
    assert_eq!(decimal_string(1234567890), "1234567890");
    assert_eq!(decimal_string(i64::MAX), "9223372036854775807");
    assert_eq!(decimal_string(i64::MIN), "-9223372036854775808");
}

#[test]
fn decimal_agrees_with_the_standard_library() {
    let samples: Vec<i64> = vec![-100, -99, -11, -10, -9, 9, 11, 99, 100, 101, 4096, 65535];
    for v in samples {
        assert_eq!(decimal_string(v), format!("{}", v));
    }
}

#[test]
fn appending_keeps_what_was_there() {
    let mut s = String::from("n=");
    append_decimal(&mut s, -42);
    assert_eq!(s, "n=-42");
    append_digits(&mut s, u64::MAX);
    assert_eq!(s, "n=-4218446744073709551615");
}
