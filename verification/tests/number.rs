use zawa::number::Number;
use zawa::text::{decimal, same_text, text_less};

fn number(x: f64) -> Number {
    Number::new(x.to_bits(), x.to_string())
}

fn samples() -> Vec<f64> {
    vec![
        0.0,
        -0.0,
        1.0,
        -1.0,
        0.5,
        -0.5,
        2.0,
        1e300,
        -1e300,
        5e-324,
        -5e-324,
        f64::MAX,
        f64::MIN,
        f64::MIN_POSITIVE,
        f64::INFINITY,
        f64::NEG_INFINITY,
        f64::NAN,
        -f64::NAN,
        123.456,
        -123.456,
    ]
}

#[test]
fn equality_is_that_of_doubles() {
    for a in samples() {
        for b in samples() {
            assert_eq!(number(a).equals(&number(b)), a == b, "{} == {}", a, b);
        }
    }
}

#[test]
fn order_is_that_of_doubles() {
    for a in samples() {
        for b in samples() {
            assert_eq!(number(a).less(&number(b)), a < b, "{} < {}", a, b);
            assert_eq!(number(a).less_equal(&number(b)), a <= b, "{} <= {}", a, b);
        }
    }
}

#[test]
fn zero_and_nan_are_told_by_the_bits() {
    for a in samples() {
        assert_eq!(number(a).is_zero(), a == 0.0, "{}", a);
        assert_eq!(number(a).is_nan(), a.is_nan(), "{}", a);
    }
}

#[test]
fn a_copy_has_bits_and_text() {
    let n = number(45.67);
    let c = n.copy();
    assert_eq!(c.bits, 45.67f64.to_bits());
    assert_eq!(c.text, "45.67");
}

#[test]
fn decimal_numerals() {
    assert_eq!(decimal(0), "0");
    assert_eq!(decimal(7), "7");
    assert_eq!(decimal(10), "10");
    assert_eq!(decimal(255), "255");
    assert_eq!(decimal(1000000), "1000000");
    assert_eq!(decimal(usize::MAX), usize::MAX.to_string());
}

#[test]
fn texts_are_ordered_as_in_a_dictionary() {
    let words = vec!["", "a", "ab", "abc", "b", "B", "ba", "é", "z", "zz", "10", "9"];
    for a in words.iter() {
        for b in words.iter() {
            assert_eq!(text_less(a, b), a < b, "{:?} < {:?}", a, b);
            assert_eq!(same_text(a, b), a == b, "{:?} == {:?}", a, b);
        }
    }
}
