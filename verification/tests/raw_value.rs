use ayaka::raw_value::{RawValue, ValueType};

#[test]
fn raw_value_get_bool() {
    assert!(!RawValue::Unit.get_bool());
    assert!(RawValue::Num(123).get_bool());
    assert!(!RawValue::Num(0).get_bool());
    assert!(RawValue::Bool(true).get_bool());
    assert!(!RawValue::Bool(false).get_bool());
    assert!(RawValue::Str("hello".to_string()).get_bool());
    assert!(!RawValue::Str(String::default()).get_bool());
}

#[test]
fn raw_value_get_num() {
    assert_eq!(RawValue::Unit.get_num(), 0);
    assert_eq!(RawValue::Bool(true).get_num(), 1);
    assert_eq!(RawValue::Bool(false).get_num(), 0);
    assert_eq!(RawValue::Num(-7).get_num(), -7);
    assert_eq!(RawValue::Str("hello".to_string()).get_num(), 5);
    assert_eq!(RawValue::Str("日本".to_string()).get_num(), 6);
}

#[test]
fn raw_value_get_str() {
    assert_eq!(RawValue::Unit.get_str(), "");
    assert_eq!(RawValue::Bool(true).get_str(), "true");
    assert_eq!(RawValue::Bool(false).get_str(), "false");
    assert_eq!(RawValue::Num(123).get_str(), "123");
    assert_eq!(RawValue::Num(-45).get_str(), "-45");
    assert_eq!(RawValue::Num(i64::MIN).get_str(), i64::MIN.to_string());
    assert_eq!(RawValue::Str("hi".to_string()).get_str(), "hi");
    for v in [
        RawValue::Unit,
        RawValue::Bool(true),
        RawValue::Num(0),
        RawValue::Num(9876543210),
        RawValue::Str("x y".to_string()),
    ] {
        assert_eq!(v.get_str().into_owned(), v.clone().into_str());
    }
}

#[test]
fn raw_value_types_and_default() {
    assert_eq!(RawValue::Unit.get_type(), ValueType::Unit);
    assert_eq!(RawValue::Bool(false).get_type(), ValueType::Bool);
    assert_eq!(RawValue::Num(1).get_type(), ValueType::Num);
    assert_eq!(RawValue::Str(String::new()).get_type(), ValueType::Str);
    assert_eq!(RawValue::default(), RawValue::Unit);
}

#[test]
fn raw_value_bool_is_nonzero_num() {
    for v in [
        RawValue::Unit,
        RawValue::Bool(true),
        RawValue::Bool(false),
        RawValue::Num(0),
        RawValue::Num(-1),
        RawValue::Str(String::new()),
        RawValue::Str("é".to_string()),
    ] {
        assert_eq!(v.get_bool(), v.get_num() != 0);
    }
}
