use tileworld::text::{push_decimal, push_unsigned};

#[test]
fn decimal_text_of_integers() {
    for &v in [0i64, 7, 10, -1, -10, 12345, i64::MAX, i64::MIN, 1000000].iter() {
        let mut text = String::from("x=");
        push_decimal(&mut text, v);
        assert_eq!(text, format!("x={}", v));
    }
}

#[test]
fn decimal_text_of_unsigned() {
    for &v in [0u64, 9, 10, 99, 100, 65535, u64::MAX].iter() {
        let mut text = String::new();
        push_unsigned(&mut text, v);
        assert_eq!(text, format!("{}", v));
    }
}
