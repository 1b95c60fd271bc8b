use rlox::number::{integer_part_is_zero, nan, negate, num_eq, num_lt, zero};
use rlox::types::Literal;

fn bits(value: f64) -> u64 {
    value.to_bits()
}

const SAMPLES: [f64; 17] = [
    0.0,
    -0.0,
    1.0,
    -1.0,
    0.5,
    -0.5,
    0.999,
    1.5,
    2.0,
    1e300,
    -1e300,
    5e-324,
    -5e-324,
    f64::INFINITY,
    f64::NEG_INFINITY,
    f64::NAN,
    123456789.125,
];

#[test]
fn equality_is_that_of_the_numbers() {
    for a in SAMPLES {
        for b in SAMPLES {
            assert_eq!(num_eq(bits(a), bits(b)), a == b, "{} == {}", a, b);
        }
    }
}

#[test]
fn order_is_that_of_the_numbers() {
    for a in SAMPLES {
        for b in SAMPLES {
            assert_eq!(num_lt(bits(a), bits(b)), a < b, "{} < {}", a, b);
        }
    }
}

#[test]
fn neither_less_means_equal_away_from_nan() {
    for a in SAMPLES {
        for b in SAMPLES {
            if a.is_nan() || b.is_nan() {
                continue;
            }
            let neither = !num_lt(bits(a), bits(b)) && !num_lt(bits(b), bits(a));
            assert_eq!(neither, num_eq(bits(a), bits(b)));
        }
    }
}

#[test]
fn negation_flips_the_sign() {
    for a in SAMPLES {
        if a.is_nan() {
            assert!(nan(negate(bits(a))));
        } else {
            assert_eq!(negate(bits(a)), bits(-a));
        }
    }
}

#[test]
fn nan_and_zero_are_told_from_the_pattern() {
    for a in SAMPLES {
        assert_eq!(nan(bits(a)), a.is_nan());
        assert_eq!(zero(bits(a)), a == 0.0);
        assert_eq!(integer_part_is_zero(bits(a)), (a as i64) == 0, "{}", a);
    }
}

#[test]
fn a_value_equals_itself_unless_it_is_nan() {
    let values = vec![
        Literal::Nil,
        Literal::Bool(true),
        Literal::Bool(false),
        Literal::Number(bits(3.5)),
        Literal::Number(bits(0.0)),
        Literal::String("text".to_string()),
    ];
    for value in &values {
        assert!(value.equals(value));
    }
    let not_a_number = Literal::Number(bits(f64::NAN));
    assert!(!not_a_number.equals(&not_a_number));
    assert!(Literal::Number(bits(0.0)).equals(&Literal::Number(bits(-0.0))));
    assert!(!Literal::Number(bits(1.0)).equals(&Literal::String("1".to_string())));
    assert!(!Literal::Nil.equals(&Literal::Bool(false)));
}

#[test]
fn truthiness() {
    assert!(!Literal::Nil.is_true());
    assert!(!Literal::Bool(false).is_true());
    assert!(Literal::Bool(true).is_true());
    assert!(Literal::Number(bits(0.0)).is_true());
    assert!(Literal::String(String::new()).is_true());
}

#[test]
fn getters_tell_the_kinds_apart() {
    let number = Literal::Number(bits(2.0));
    let text = Literal::String("s".to_string());
    let flag = Literal::Bool(true);
    assert_eq!(number.get_num().ok(), Some(bits(2.0)));
    assert!(number.is_num() && !number.is_string() && !number.is_bool());
    assert_eq!(text.get_string().ok(), Some("s".to_string()));
    assert!(text.is_string());
    assert_eq!(flag.get_bool().ok(), Some(true));
    assert!(flag.is_bool());
    assert!(text.get_num().is_err());
    assert!(number.get_string().is_err());
    assert!(number.get_bool().is_err());
    assert!(number.get_function().is_err());
    assert_eq!(number.to_text(), None);
    assert_eq!(text.to_text(), Some("s".to_string()));
    assert_eq!(flag.to_text(), Some("true".to_string()));
    assert_eq!(Literal::Nil.to_text(), Some("nil".to_string()));
}
