use reqsmith::binary64::Binary64;
use reqsmith::error::ValidationError;
use reqsmith::greeting::greet;
use reqsmith::model::{AttributeValue, DatatypeDefinition, EnumValue, ValueKind};
use reqsmith::preserved::PreservedContent;
use reqsmith::value::validate_value;

fn s(text: &str) -> String {
    text.to_string()
}

fn number(value: f64) -> Binary64 {
    Binary64::from_bits(value.to_bits())
}

fn integer_type(min: Option<i64>, max: Option<i64>) -> DatatypeDefinition {
    DatatypeDefinition::Integer { identifier: s("dt-int"), long_name: None, min, max }
}

fn real_type(min: Option<f64>, max: Option<f64>) -> DatatypeDefinition {
    DatatypeDefinition::Real {
        identifier: s("dt-real"),
        long_name: None,
        min: min.map(number),
        max: max.map(number),
        accuracy: Some(2),
    }
}

fn string_type(max_length: Option<u32>) -> DatatypeDefinition {
    DatatypeDefinition::String { identifier: s("dt-str"), long_name: None, max_length }
}

fn status_type() -> DatatypeDefinition {
    DatatypeDefinition::Enumeration {
        identifier: s("dt-1"),
        long_name: None,
        values: vec![
            EnumValue { identifier: s("ev-open"), long_name: None, properties: None },
            EnumValue { identifier: s("ev-closed"), long_name: None, properties: None },
        ],
    }
}

fn int_value(value: i64) -> AttributeValue {
    AttributeValue::Integer { definition: s("ad-1"), value }
}

fn real_value(value: f64) -> AttributeValue {
    AttributeValue::Real { definition: s("ad-1"), value: number(value) }
}

fn text_value(value: &str) -> AttributeValue {
    AttributeValue::String { definition: s("ad-1"), value: s(value) }
}

fn choice(value: &str) -> AttributeValue {
    AttributeValue::Enumeration { definition: s("ad-1"), value: s(value) }
}

#[test]
fn greet_builds_the_welcome_line() {
    assert_eq!(greet("Ada"), "Hello, Ada! Welcome to ReqSmith.");
    assert_eq!(greet(""), "Hello, ! Welcome to ReqSmith.");
}

#[test]
fn binary64_keeps_its_bits() {
    let held = number(1.5);
    assert_eq!(held.to_bits(), 1.5f64.to_bits());
    assert_eq!(f64::from_bits(held.to_bits()), 1.5);
    assert_eq!(Binary64::from_bits(7).bits, 7);
}

#[test]
fn binary64_order_is_the_order_of_the_numbers() {
    let samples: Vec<f64> = vec![
        f64::NEG_INFINITY,
        f64::MIN,
        -1.0e300,
        -2.5,
        -1.0,
        -f64::MIN_POSITIVE,
        -5.0e-324,
        -0.0,
        0.0,
        5.0e-324,
        f64::MIN_POSITIVE,
        0.1,
        1.0,
        1.0000000000000002,
        2.5,
        100.0,
        1.0e300,
        f64::MAX,
        f64::INFINITY,
        f64::NAN,
        -f64::NAN,
    ];
    for a in samples.iter() {
        for b in samples.iter() {
            assert_eq!(number(*a).is_le(number(*b)), a <= b);
        }
        assert_eq!(number(*a).is_nan(), a.is_nan());
    }
}

#[test]
fn binary64_is_within_present_bounds() {
    assert!(number(0.5).is_within(Some(number(0.0)), Some(number(1.0))));
    assert!(number(0.0).is_within(Some(number(0.0)), Some(number(1.0))));
    assert!(number(1.0).is_within(Some(number(0.0)), Some(number(1.0))));
    assert!(!number(1.5).is_within(Some(number(0.0)), Some(number(1.0))));
    assert!(!number(-0.5).is_within(Some(number(0.0)), None));
    assert!(number(1.0e9).is_within(Some(number(0.0)), None));
    assert!(number(-1.0e9).is_within(None, Some(number(1.0))));
    assert!(number(f64::NAN).is_within(None, None));
    assert!(!number(f64::NAN).is_within(Some(number(0.0)), None));
    assert!(number(-0.0).is_within(Some(number(0.0)), Some(number(0.0))));
}

#[test]
fn kinds_of_datatypes_and_values() {
    assert_eq!(integer_type(None, None).kind(), ValueKind::Integer);
    assert_eq!(real_type(None, None).kind(), ValueKind::Real);
    assert_eq!(string_type(None).kind(), ValueKind::String);
    assert_eq!(status_type().kind(), ValueKind::Enumeration);
    let boolean = DatatypeDefinition::Boolean { identifier: s("b"), long_name: None };
    let xhtml = DatatypeDefinition::XHTML { identifier: s("x"), long_name: None };
    assert_eq!(boolean.kind(), ValueKind::Boolean);
    assert_eq!(xhtml.kind(), ValueKind::XHTML);
    assert_eq!(int_value(1).kind(), ValueKind::Integer);
    assert_eq!(real_value(1.0).kind(), ValueKind::Real);
    assert_eq!(text_value("a").kind(), ValueKind::String);
    assert_eq!(choice("a").kind(), ValueKind::Enumeration);
    let flag = AttributeValue::Boolean { definition: s("ad-7"), value: true };
    let markup = AttributeValue::XHTML { definition: s("ad-8"), value: s("<p/>") };
    assert_eq!(flag.kind(), ValueKind::Boolean);
    assert_eq!(markup.kind(), ValueKind::XHTML);
    assert_eq!(flag.definition(), "ad-7");
    assert_eq!(markup.definition(), "ad-8");
    assert_eq!(int_value(1).definition(), "ad-1");
}

#[test]
fn integer_against_string_is_a_kind_mismatch() {
    assert_eq!(validate_value(&string_type(None), &int_value(5)), Err(ValidationError::KindMismatch));
    assert_eq!(
        validate_value(&string_type(Some(1)), &int_value(5)),
        Err(ValidationError::KindMismatch)
    );
}

#[test]
fn every_pair_of_unlike_kinds_is_a_kind_mismatch() {
    let datatypes = vec![
        DatatypeDefinition::Boolean { identifier: s("b"), long_name: None },
        integer_type(None, None),
        real_type(None, None),
        string_type(None),
        status_type(),
        DatatypeDefinition::XHTML { identifier: s("x"), long_name: None },
    ];
    let values = vec![
        AttributeValue::Boolean { definition: s("ad-1"), value: false },
        int_value(0),
        real_value(0.0),
        text_value(""),
        choice("ev-open"),
        AttributeValue::XHTML { definition: s("ad-1"), value: s("") },
    ];
    for (i, datatype) in datatypes.iter().enumerate() {
        for (j, value) in values.iter().enumerate() {
            let outcome = validate_value(datatype, value);
            if i == j {
                assert_eq!(outcome, Ok(()));
            } else {
                assert_eq!(outcome, Err(ValidationError::KindMismatch));
            }
        }
    }
}

#[test]
fn integer_150_against_max_100_is_out_of_range() {
    assert_eq!(
        validate_value(&integer_type(None, Some(100)), &int_value(150)),
        Err(ValidationError::OutOfRange)
    );
}

#[test]
fn integer_bounds_are_inclusive() {
    let bounded = integer_type(Some(-10), Some(100));
    assert_eq!(validate_value(&bounded, &int_value(-10)), Ok(()));
    assert_eq!(validate_value(&bounded, &int_value(100)), Ok(()));
    assert_eq!(validate_value(&bounded, &int_value(0)), Ok(()));
    assert_eq!(validate_value(&bounded, &int_value(-11)), Err(ValidationError::OutOfRange));
    assert_eq!(validate_value(&bounded, &int_value(101)), Err(ValidationError::OutOfRange));
    assert_eq!(validate_value(&integer_type(None, None), &int_value(i64::MIN)), Ok(()));
    assert_eq!(validate_value(&integer_type(None, None), &int_value(i64::MAX)), Ok(()));
    assert_eq!(
        validate_value(&integer_type(Some(0), None), &int_value(-1)),
        Err(ValidationError::OutOfRange)
    );
    assert_eq!(validate_value(&integer_type(Some(0), None), &int_value(i64::MAX)), Ok(()));
}

#[test]
fn real_bounds_are_checked_and_accuracy_is_not() {
    let bounded = real_type(Some(-1.5), Some(2.25));
    assert_eq!(validate_value(&bounded, &real_value(-1.5)), Ok(()));
    assert_eq!(validate_value(&bounded, &real_value(2.25)), Ok(()));
    assert_eq!(validate_value(&bounded, &real_value(0.123456789)), Ok(()));
    assert_eq!(validate_value(&bounded, &real_value(2.2500001)), Err(ValidationError::OutOfRange));
    assert_eq!(validate_value(&bounded, &real_value(-1.6)), Err(ValidationError::OutOfRange));
    assert_eq!(validate_value(&bounded, &real_value(f64::NAN)), Err(ValidationError::OutOfRange));
    assert_eq!(validate_value(&real_type(None, None), &real_value(f64::NAN)), Ok(()));
    assert_eq!(validate_value(&real_type(None, None), &real_value(f64::INFINITY)), Ok(()));
}

#[test]
fn string_length_is_counted_in_characters() {
    assert_eq!(validate_value(&string_type(Some(5)), &text_value("hello")), Ok(()));
    assert_eq!(
        validate_value(&string_type(Some(5)), &text_value("hello!")),
        Err(ValidationError::LengthExceeded)
    );
    assert_eq!(validate_value(&string_type(Some(0)), &text_value("")), Ok(()));
    assert_eq!(
        validate_value(&string_type(Some(0)), &text_value("a")),
        Err(ValidationError::LengthExceeded)
    );
    assert_eq!(validate_value(&string_type(Some(3)), &text_value("äöü")), Ok(()));
    assert_eq!(
        validate_value(&string_type(Some(2)), &text_value("äöü")),
        Err(ValidationError::LengthExceeded)
    );
    assert_eq!(validate_value(&string_type(None), &text_value("any length at all")), Ok(()));
}

#[test]
fn enumeration_value_must_be_declared() {
    assert_eq!(validate_value(&status_type(), &choice("ev-open")), Ok(()));
    assert_eq!(validate_value(&status_type(), &choice("ev-closed")), Ok(()));
    assert_eq!(
        validate_value(&status_type(), &choice("ev-missing")),
        Err(ValidationError::UnknownEnumValue)
    );
    assert_eq!(validate_value(&status_type(), &choice("")), Err(ValidationError::UnknownEnumValue));
}

#[test]
fn preserved_content_keeps_the_order_of_first_insertion() {
    let mut kept = PreservedContent::new();
    assert!(kept.is_empty());
    assert_eq!(kept.len(), 0);
    assert!(!kept.insert(s("vendor:colour"), s("<c>red</c>")));
    assert!(!kept.insert(s("vendor:rank"), s("7")));
    assert!(kept.insert(s("vendor:colour"), s("<c>blue</c>")));
    assert_eq!(kept.len(), 2);
    assert!(!kept.is_empty());
    assert_eq!(kept.entry(0).unwrap().key, "vendor:colour");
    assert_eq!(kept.entry(0).unwrap().raw, "<c>blue</c>");
    assert_eq!(kept.entry(1).unwrap().key, "vendor:rank");
    assert_eq!(kept.entry(1).unwrap().raw, "7");
    assert!(kept.entry(2).is_none());
    assert_eq!(kept.get(&s("vendor:rank")), Some(&s("7")));
    assert_eq!(kept.get(&s("vendor:colour")), Some(&s("<c>blue</c>")));
    assert_eq!(kept.get(&s("vendor:none")), None);
    assert!(kept.contains_key(&s("vendor:rank")));
    assert!(!kept.contains_key(&s("rank")));
}
