//! Message priority derivation.

use covalue_core::covalue::{CoValueHeader, CoValueUniqueness, Ruleset};
use covalue_core::ids::{RawAccountID, RawCoID};
use covalue_core::json::JsonValue;
use covalue_core::CoValuePriority;

fn header(value_type: &str, ruleset: Ruleset, meta: Option<JsonValue>) -> CoValueHeader {
    CoValueHeader::new(
        value_type.as_bytes().to_vec(),
        ruleset,
        meta,
        CoValueUniqueness::new(b"u1".to_vec(), b"2024-01-01T00:00:00Z".to_vec()),
    )
}

fn meta_type(tag: &str) -> Option<JsonValue> {
    Some(JsonValue::Obj(vec![(
        b"type".to_vec(),
        JsonValue::Text(tag.as_bytes().to_vec()),
    )]))
}

#[test]
fn account_meta_is_high_priority() {
    let h = header("comap", Ruleset::UnsafeAllowAll, meta_type("account"));
    assert_eq!(h.priority(), CoValuePriority::High);
}

#[test]
fn group_ruleset_is_high_priority() {
    let h = header(
        "comap",
        Ruleset::Group { initial_admin: RawAccountID::new(RawCoID::new(vec![1u8; 19])) },
        None,
    );
    assert_eq!(h.priority(), CoValuePriority::High);
}

#[test]
fn binary_costream_is_low_priority() {
    let h = header("costream", Ruleset::UnsafeAllowAll, meta_type("binary"));
    assert_eq!(h.priority(), CoValuePriority::Low);
}

#[test]
fn everything_else_is_medium_priority() {
    assert_eq!(
        header("comap", Ruleset::UnsafeAllowAll, None).priority(),
        CoValuePriority::Medium
    );
    assert_eq!(
        header("costream", Ruleset::UnsafeAllowAll, None).priority(),
        CoValuePriority::Medium
    );
    assert_eq!(
        header("comap", Ruleset::UnsafeAllowAll, meta_type("binary")).priority(),
        CoValuePriority::Medium
    );
    let owned = header(
        "comap",
        Ruleset::OwnedByGroup { group: RawCoID::new(vec![2u8; 19]) },
        None,
    );
    assert_eq!(owned.priority(), CoValuePriority::Medium);
}

#[test]
fn priority_is_a_pure_function_of_the_header() {
    let a = header("costream", Ruleset::UnsafeAllowAll, meta_type("binary"));
    let b = header("costream", Ruleset::UnsafeAllowAll, meta_type("binary"));
    assert_eq!(a.priority(), b.priority());
    assert_eq!(a.priority(), a.priority());
}

#[test]
fn priority_levels_round_trip() {
    let all = [
        CoValuePriority::High,
        CoValuePriority::One,
        CoValuePriority::Two,
        CoValuePriority::Medium,
        CoValuePriority::Four,
        CoValuePriority::Five,
        CoValuePriority::Low,
        CoValuePriority::Seven,
    ];
    for (i, p) in all.iter().enumerate() {
        assert_eq!(p.level() as usize, i);
        assert_eq!(CoValuePriority::from_level(p.level()), Some(*p));
    }
    assert_eq!(CoValuePriority::from_level(8), None);
}

#[test]
fn known_flag_defaults_to_medium() {
    assert_eq!(covalue_core::covalue::priority_for_known_flag(true), CoValuePriority::Medium);
    assert_eq!(covalue_core::covalue::priority_for_known_flag(false), CoValuePriority::Medium);
    assert_eq!(covalue_core::covalue::priority_of_optional(&None), CoValuePriority::Medium);
    let h = header("comap", Ruleset::UnsafeAllowAll, meta_type("account"));
    assert_eq!(covalue_core::covalue::priority_of_optional(&Some(h)), CoValuePriority::High);
}
