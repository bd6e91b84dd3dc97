use valcore::kinds::ErrorKind;
use valcore::line_error::ValError;
use valcore::value::AttrEntry;
use valcore::value::Dec;
use valcore::value::MapEntry;
use valcore::value::Value;

fn err_kind(e: &ValError) -> ErrorKind {
    match e {
        ValError::LineErrors(v) => {
            assert_eq!(v.len(), 1);
            v[0].kind
        }
        ValError::InternalErr(_) => panic!("unexpected internal error"),
    }
}

fn err_message(e: &ValError) -> Option<String> {
    match e {
        ValError::LineErrors(v) => v[0].message.clone(),
        ValError::InternalErr(_) => panic!("unexpected internal error"),
    }
}

fn err_input(e: &ValError) -> &Value {
    match e {
        ValError::LineErrors(v) => &v[0].input_value,
        ValError::InternalErr(_) => panic!("unexpected internal error"),
    }
}

fn dec(neg: bool, int_part: u64, frac: &[u8]) -> Dec {
    Dec { neg, int_part, frac: frac.to_vec() }
}

#[test]
fn strict_str_exact_match() {
    let v = Value::Str("hello".to_string());
    assert_eq!(v.strict_str().unwrap(), "hello");
}

#[test]
fn strict_str_rejects_everything_else() {
    for v in [
        Value::Null,
        Value::Bool(true),
        Value::Int(3),
        Value::Float(dec(false, 1, &[5])),
        Value::Bytes(vec![104, 105]),
        Value::List(vec![]),
    ] {
        let e = v.strict_str().unwrap_err();
        assert_eq!(err_kind(&e), ErrorKind::StrType);
    }
}

#[test]
fn lax_str_of_int_and_float() {
    assert_eq!(Value::Int(42).lax_str().unwrap(), "42");
    assert_eq!(Value::Int(-7).lax_str().unwrap(), "-7");
    assert_eq!(Value::Float(dec(false, 1, &[5])).lax_str().unwrap(), "1.5");
    assert_eq!(Value::Float(dec(true, 0, &[2, 5])).lax_str().unwrap(), "-0.25");
    assert_eq!(Value::Float(dec(false, 42, &[])).lax_str().unwrap(), "42");
}

#[test]
fn lax_str_rejects_booleans_before_numbers() {
    let e = Value::Bool(true).lax_str().unwrap_err();
    assert_eq!(err_kind(&e), ErrorKind::StrType);
    let e = Value::Bool(false).lax_str().unwrap_err();
    assert_eq!(err_kind(&e), ErrorKind::StrType);
}

#[test]
fn lax_str_decodes_bytes() {
    assert_eq!(Value::Bytes(b"hello".to_vec()).lax_str().unwrap(), "hello");
    let e = Value::Bytes(vec![0xff, 0xfe]).lax_str().unwrap_err();
    assert_eq!(err_kind(&e), ErrorKind::StrUnicode);
}

#[test]
fn strict_bool_exact_match() {
    assert!(Value::Bool(true).strict_bool().unwrap());
    assert!(!Value::Bool(false).strict_bool().unwrap());
    let e = Value::Int(1).strict_bool().unwrap_err();
    assert_eq!(err_kind(&e), ErrorKind::BoolType);
}

#[test]
fn lax_bool_words_and_integers() {
    assert!(Value::Str("yes".to_string()).lax_bool().unwrap());
    assert!(Value::Str("TRUE".to_string()).lax_bool().unwrap());
    assert!(Value::Str("On".to_string()).lax_bool().unwrap());
    assert!(!Value::Str("No".to_string()).lax_bool().unwrap());
    assert!(!Value::Str("off".to_string()).lax_bool().unwrap());
    assert!(!Value::Str("0".to_string()).lax_bool().unwrap());
    assert!(!Value::Int(0).lax_bool().unwrap());
    assert!(Value::Int(1).lax_bool().unwrap());
    assert!(Value::Bytes(b"true".to_vec()).lax_bool().unwrap());
    let e = Value::Str("maybe".to_string()).lax_bool().unwrap_err();
    assert_eq!(err_kind(&e), ErrorKind::BoolParsing);
    let e = Value::Int(2).lax_bool().unwrap_err();
    assert_eq!(err_kind(&e), ErrorKind::BoolParsing);
    let e = Value::Null.lax_bool().unwrap_err();
    assert_eq!(err_kind(&e), ErrorKind::BoolType);
}

#[test]
fn booleans_never_coerce_to_int() {
    let e = Value::Bool(true).strict_int().unwrap_err();
    assert_eq!(err_kind(&e), ErrorKind::IntType);
    let e = Value::Bool(true).lax_int().unwrap_err();
    assert_eq!(err_kind(&e), ErrorKind::IntType);
}

#[test]
fn booleans_never_coerce_to_float() {
    let e = Value::Bool(true).strict_float().unwrap_err();
    assert_eq!(err_kind(&e), ErrorKind::FloatType);
    let e = Value::Bool(true).lax_float().unwrap_err();
    assert_eq!(err_kind(&e), ErrorKind::FloatType);
}

#[test]
fn strict_int_exact_match() {
    assert_eq!(Value::Int(-12).strict_int().unwrap(), -12);
    let e = Value::Str("12".to_string()).strict_int().unwrap_err();
    assert_eq!(err_kind(&e), ErrorKind::IntType);
}

#[test]
fn lax_int_from_text_and_float() {
    assert_eq!(Value::Str("42".to_string()).lax_int().unwrap(), 42);
    assert_eq!(Value::Str("-42".to_string()).lax_int().unwrap(), -42);
    assert_eq!(Value::Str("007".to_string()).lax_int().unwrap(), 7);
    assert_eq!(Value::Bytes(b"5".to_vec()).lax_int().unwrap(), 5);
    let e = Value::Str("42.0".to_string()).lax_int().unwrap_err();
    assert_eq!(err_kind(&e), ErrorKind::IntParsing);
    let e = Value::Str("wrong".to_string()).lax_int().unwrap_err();
    assert_eq!(err_kind(&e), ErrorKind::IntParsing);
    assert_eq!(Value::Float(dec(false, 42, &[])).lax_int().unwrap(), 42);
    assert_eq!(Value::Float(dec(true, 9, &[])).lax_int().unwrap(), -9);
    let e = Value::Float(dec(false, 42, &[5])).lax_int().unwrap_err();
    assert_eq!(err_kind(&e), ErrorKind::IntParsing);
    let e = Value::Null.lax_int().unwrap_err();
    assert_eq!(err_kind(&e), ErrorKind::IntType);
}

#[test]
fn lax_int_range_limits() {
    assert_eq!(
        Value::Str("9223372036854775807".to_string()).lax_int().unwrap(),
        i64::MAX
    );
    assert_eq!(
        Value::Str("-9223372036854775808".to_string()).lax_int().unwrap(),
        i64::MIN
    );
    let e = Value::Str("9223372036854775808".to_string()).lax_int().unwrap_err();
    assert_eq!(err_kind(&e), ErrorKind::IntParsing);
}

#[test]
fn strict_float_exact_match() {
    let got = Value::Float(dec(false, 2, &[7, 5])).strict_float().unwrap();
    assert_eq!(got, dec(false, 2, &[7, 5]));
    let e = Value::Int(2).strict_float().unwrap_err();
    assert_eq!(err_kind(&e), ErrorKind::FloatType);
}

#[test]
fn lax_float_parses_and_canonicalizes() {
    assert_eq!(
        Value::Str("3.25".to_string()).lax_float().unwrap(),
        dec(false, 3, &[2, 5])
    );
    assert_eq!(
        Value::Str("1.50".to_string()).lax_float().unwrap(),
        dec(false, 1, &[5])
    );
    assert_eq!(
        Value::Str("-10".to_string()).lax_float().unwrap(),
        dec(true, 10, &[])
    );
    assert_eq!(Value::Int(-7).lax_float().unwrap(), dec(true, 7, &[]));
    let e = Value::Str("1.".to_string()).lax_float().unwrap_err();
    assert_eq!(err_kind(&e), ErrorKind::FloatParsing);
    let e = Value::Str("abc".to_string()).lax_float().unwrap_err();
    assert_eq!(err_kind(&e), ErrorKind::FloatParsing);
    let e = Value::Null.lax_float().unwrap_err();
    assert_eq!(err_kind(&e), ErrorKind::FloatType);
}

#[test]
fn strict_dict_exact_match() {
    let v = Value::Dict(vec![(Value::Str("a".to_string()), Value::Int(1))]);
    let pairs = v.strict_dict().unwrap();
    assert_eq!(pairs.len(), 1);
    assert_eq!(pairs[0], (Value::Str("a".to_string()), Value::Int(1)));
    let e = Value::List(vec![]).strict_dict().unwrap_err();
    assert_eq!(err_kind(&e), ErrorKind::DictType);
}

#[test]
fn lax_dict_reads_a_mapping() {
    let v = Value::Mapping(vec![
        MapEntry::Pair(Value::Str("k".to_string()), Value::Int(9)),
        MapEntry::Pair(Value::Str("m".to_string()), Value::Bool(true)),
    ]);
    let pairs = v.lax_dict(false).unwrap();
    assert_eq!(pairs.len(), 2);
    assert_eq!(pairs[0].0, Value::Str("k".to_string()));
    assert_eq!(pairs[1].1, Value::Bool(true));
}

#[test]
fn mapping_fault_gives_no_partial_result() {
    let v = Value::Mapping(vec![
        MapEntry::Pair(Value::Str("k".to_string()), Value::Int(9)),
        MapEntry::Fault("iteration failed".to_string()),
        MapEntry::Pair(Value::Str("m".to_string()), Value::Int(10)),
    ]);
    let e = v.lax_dict(true).unwrap_err();
    assert_eq!(err_kind(&e), ErrorKind::DictFromMapping);
    assert_eq!(err_message(&e), Some("iteration failed".to_string()));
    assert_eq!(err_input(&e), &v);
}

#[test]
fn reflection_needs_to_be_enabled() {
    let v = Value::Instance(vec![AttrEntry::Attr("a".to_string(), Value::Int(1))]);
    let e = v.lax_dict(false).unwrap_err();
    assert_eq!(err_kind(&e), ErrorKind::DictType);
}

#[test]
fn reflection_filters_private_names() {
    let v = Value::Instance(vec![
        AttrEntry::Attr("_hidden".to_string(), Value::Int(0)),
        AttrEntry::Attr("shown".to_string(), Value::Int(5)),
        AttrEntry::Attr("_also_hidden".to_string(), Value::Int(1)),
    ]);
    let pairs = v.lax_dict(true).unwrap();
    assert_eq!(pairs.len(), 1);
    assert_eq!(pairs[0], (Value::Str("shown".to_string()), Value::Int(5)));
}

#[test]
fn reflection_stops_after_one_level() {
    let inner = Value::Instance(vec![AttrEntry::Attr("deep".to_string(), Value::Int(1))]);
    let v = Value::Instance(vec![AttrEntry::Attr("child".to_string(), inner.clone())]);
    let pairs = v.lax_dict(true).unwrap();
    assert_eq!(pairs.len(), 1);
    // the reflectable child value is kept as it is, not itself reflected
    assert_eq!(pairs[0], (Value::Str("child".to_string()), inner));
}

#[test]
fn reflection_fault_reports_dict_from_object() {
    let v = Value::Instance(vec![
        AttrEntry::Attr("ok".to_string(), Value::Int(1)),
        AttrEntry::Fault("getattr exploded".to_string()),
    ]);
    let e = v.lax_dict(true).unwrap_err();
    assert_eq!(err_kind(&e), ErrorKind::DictFromObject);
    assert_eq!(err_message(&e), Some("getattr exploded".to_string()));
}

#[test]
fn strict_list_and_set_exact_match() {
    let v = Value::List(vec![Value::Int(1), Value::Int(2)]);
    assert_eq!(v.strict_list().unwrap(), vec![Value::Int(1), Value::Int(2)]);
    let e = Value::Tuple(vec![]).strict_list().unwrap_err();
    assert_eq!(err_kind(&e), ErrorKind::ListType);
    let v = Value::SetVal(vec![Value::Int(3)]);
    assert_eq!(v.strict_set().unwrap(), vec![Value::Int(3)]);
    let e = Value::List(vec![]).strict_set().unwrap_err();
    assert_eq!(err_kind(&e), ErrorKind::SetType);
}

#[test]
fn lax_list_and_set_fallbacks() {
    let items = vec![Value::Int(1), Value::Int(2)];
    assert_eq!(Value::Tuple(items.clone()).lax_list().unwrap(), items);
    assert_eq!(Value::SetVal(items.clone()).lax_list().unwrap(), items);
    assert_eq!(Value::FrozenSet(items.clone()).lax_list().unwrap(), items);
    assert_eq!(Value::List(items.clone()).lax_set().unwrap(), items);
    assert_eq!(Value::Tuple(items.clone()).lax_set().unwrap(), items);
    assert_eq!(Value::FrozenSet(items.clone()).lax_set().unwrap(), items);
    let e = Value::Dict(vec![]).lax_list().unwrap_err();
    assert_eq!(err_kind(&e), ErrorKind::ListType);
    let e = Value::Dict(vec![]).lax_set().unwrap_err();
    assert_eq!(err_kind(&e), ErrorKind::SetType);
}

#[test]
fn failures_echo_the_offending_value() {
    let v = Value::Str("not a number".to_string());
    let e = v.lax_int().unwrap_err();
    assert_eq!(err_input(&e), &Value::Str("not a number".to_string()));
}

#[test]
fn is_none_only_for_null() {
    assert!(Value::Null.is_none());
    assert!(!Value::Int(0).is_none());
}

#[test]
fn kind_identifiers_are_stable_and_distinct() {
    let kinds = [
        (ErrorKind::StrType, "str_type"),
        (ErrorKind::StrUnicode, "str_unicode"),
        (ErrorKind::BoolType, "bool_type"),
        (ErrorKind::BoolParsing, "bool_parsing"),
        (ErrorKind::IntType, "int_type"),
        (ErrorKind::IntParsing, "int_parsing"),
        (ErrorKind::FloatType, "float_type"),
        (ErrorKind::FloatParsing, "float_parsing"),
        (ErrorKind::DictType, "dict_type"),
        (ErrorKind::DictFromMapping, "dict_from_mapping"),
        (ErrorKind::DictFromObject, "dict_from_object"),
        (ErrorKind::ListType, "list_type"),
        (ErrorKind::SetType, "set_type"),
    ];
    for (k, name) in kinds.iter() {
        assert_eq!(k.kind_name(), *name);
    }
    for (i, (_, a)) in kinds.iter().enumerate() {
        for (j, (_, b)) in kinds.iter().enumerate() {
            if i != j {
                assert_ne!(a, b);
            }
        }
    }
}

#[test]
fn numeric_grammar_is_strict() {
    assert_eq!(Value::Str("+42".to_string()).lax_int().unwrap(), 42);
    let e = Value::Str(" 42".to_string()).lax_int().unwrap_err();
    assert_eq!(err_kind(&e), ErrorKind::IntParsing);
    let e = Value::Str("4 2".to_string()).lax_int().unwrap_err();
    assert_eq!(err_kind(&e), ErrorKind::IntParsing);
    let e = Value::Str("".to_string()).lax_int().unwrap_err();
    assert_eq!(err_kind(&e), ErrorKind::IntParsing);
    let e = Value::Str("1e3".to_string()).lax_float().unwrap_err();
    assert_eq!(err_kind(&e), ErrorKind::FloatParsing);
    assert_eq!(
        Value::Bytes(b"2.5".to_vec()).lax_float().unwrap(),
        dec(false, 2, &[5])
    );
}

#[test]
fn strict_dict_rejects_a_duck_typed_mapping() {
    let v = Value::Mapping(vec![MapEntry::Pair(Value::Int(1), Value::Int(2))]);
    let e = v.strict_dict().unwrap_err();
    assert_eq!(err_kind(&e), ErrorKind::DictType);
}

#[test]
fn reflection_of_only_private_attrs_gives_an_empty_dict() {
    let v = Value::Instance(vec![
        AttrEntry::Attr("_a".to_string(), Value::Int(1)),
        AttrEntry::Attr("_b".to_string(), Value::Int(2)),
    ]);
    assert_eq!(v.lax_dict(true).unwrap(), vec![]);
}

#[test]
fn empty_collections_coerce_to_empty() {
    assert_eq!(Value::Mapping(vec![]).lax_dict(false).unwrap(), vec![]);
    assert_eq!(Value::List(vec![]).lax_list().unwrap(), vec![]);
}
