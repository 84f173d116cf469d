use finch::convert::{compare_vals, RawObject, RawValue};
use finch::error::FinchError;
use finch::memory::Memory;
use std::cmp::Ordering;

fn s(text: &str) -> RawValue {
    RawValue::Str(text.to_string())
}

fn n(text: &str) -> RawValue {
    RawValue::Num(text.to_string())
}

#[test]
fn falsiness_follows_the_value_kind() {
    // falsy: "", 0, false, null, undefined
    assert!(s("").is_falsey());
    assert!(n("0").is_falsey());
    assert!(RawValue::Bool(false).is_falsey());
    assert!(RawValue::Null.is_falsey());
    assert!(RawValue::Undefined.is_falsey());
    // truthy: "0", 1, an empty list, an object handle
    assert!(!s("0").is_falsey());
    assert!(!n("1").is_falsey());
    assert!(!RawValue::List(vec![]).is_falsey());
    assert!(!RawValue::Object(RawObject(3)).is_falsey());
    assert!(!RawValue::Function(RawObject(3)).is_falsey());
}

#[test]
fn stringification_by_kind() {
    assert_eq!(s("hi").into_string(), "hi");
    assert_eq!(n("1000.5").into_string(), "1000.5");
    assert_eq!(RawValue::Bool(true).into_string(), "true");
    assert_eq!(RawValue::Bool(false).into_string(), "false");
    assert_eq!(RawValue::Null.into_string(), "null");
    assert_eq!(RawValue::Undefined.into_string(), "undefined");
    assert_eq!(RawValue::Object(RawObject(0)).into_string(), "[object Object]");
    assert_eq!(RawValue::Function(RawObject(0)).into_string(), "[function]");
}

#[test]
fn lists_stringify_joined_by_comma_space() {
    let v = RawValue::List(vec![n("1"), s("a"), RawValue::List(vec![n("2"), n("3")])]);
    assert_eq!(v.into_string(), "1, a, 2, 3");
    assert_eq!(RawValue::List(vec![]).into_string(), "");
}

#[test]
fn equality_is_by_content_for_primitives() {
    assert!(s("a").equals(&s("a")));
    assert!(!s("a").equals(&s("b")));
    assert!(n("1.5").equals(&n("1.5")));
    assert!(RawValue::Bool(true).equals(&RawValue::Bool(true)));
    assert!(RawValue::Null.equals(&RawValue::Null));
    assert!(RawValue::Undefined.equals(&RawValue::Undefined));
    // no cross-kind coercion
    assert!(!s("1").equals(&n("1")));
    assert!(!RawValue::Null.equals(&RawValue::Undefined));
}

#[test]
fn handles_never_compare_equal() {
    let a = RawValue::Object(RawObject(5));
    let b = RawValue::Object(RawObject(5));
    assert!(!a.equals(&b));
    assert!(!a.equals(&a.clone()));
    let f = RawValue::Function(RawObject(5));
    assert!(!f.equals(&f.clone()));
}

#[test]
fn lists_compare_element_by_element() {
    let a = RawValue::List(vec![n("1"), s("x")]);
    let b = RawValue::List(vec![n("1"), s("x")]);
    let c = RawValue::List(vec![n("1"), s("y")]);
    let d = RawValue::List(vec![n("1")]);
    assert!(a.equals(&b));
    assert!(!a.equals(&c));
    assert!(!a.equals(&d));
    // a list holding a handle is never equal to anything, itself included
    let e = RawValue::List(vec![RawValue::Object(RawObject(1))]);
    assert!(!e.equals(&e.clone()));
}

#[test]
fn numeric_ordering_is_by_value() {
    let cases = [
        ("1", "2", Ordering::Less),
        ("10", "9", Ordering::Greater),
        ("3", "3", Ordering::Equal),
        ("1.45", "1.5", Ordering::Less),
        ("0.25", "0.3", Ordering::Less),
        ("-2", "1", Ordering::Less),
        ("-1", "-2", Ordering::Greater),
        ("100", "99", Ordering::Greater),
    ];
    for (a, b, want) in cases {
        let r = compare_vals(&n(a), &n(b)).unwrap();
        assert_eq!(r, want, "{a} versus {b}");
    }
}

#[test]
fn ordering_anything_but_numbers_fails() {
    assert!(matches!(compare_vals(&s("1"), &n("1")), Err(FinchError::NotNumbers)));
    assert!(matches!(compare_vals(&RawValue::Null, &RawValue::Null), Err(FinchError::NotNumbers)));
}

#[test]
fn memory_innermost_binding_wins() {
    let mut m = Memory::new();
    m.set("x".to_string(), s("outer"));
    m.extend();
    m.set("x".to_string(), s("inner"));
    assert!(matches!(m.get(&"x".to_string()), Some(RawValue::Str(v)) if v == "inner"));
    m.destroy();
    assert!(matches!(m.get(&"x".to_string()), Some(RawValue::Str(v)) if v == "outer"));
}

#[test]
fn memory_latest_write_wins_within_a_frame() {
    let mut m = Memory::new();
    m.set("x".to_string(), s("one"));
    m.set("x".to_string(), s("two"));
    assert!(matches!(m.get(&"x".to_string()), Some(RawValue::Str(v)) if v == "two"));
    assert!(m.get(&"y".to_string()).is_none());
}

#[test]
fn memory_popped_frames_drop_their_bindings() {
    let mut m = Memory::new();
    m.extend();
    m.set("x".to_string(), s("gone"));
    m.destroy();
    assert!(m.get(&"x".to_string()).is_none());
}
