use valcore::kinds::ErrorKind;
use valcore::line_error::Context;
use valcore::line_error::InternalError;
use valcore::line_error::LocItem;
use valcore::line_error::ValError;
use valcore::line_error::ValLineError;
use valcore::validation_error::PyLineError;
use valcore::validation_error::ValidationError;
use valcore::validation_error::as_validation_err;
use valcore::value::Value;

fn plain_line(kind: ErrorKind, value: Value) -> PyLineError {
    PyLineError {
        kind,
        location: vec![],
        message: None,
        input_value: value,
        context: Context { entries: vec![] },
    }
}

#[test]
fn header_is_singular_for_one_error() {
    let ve = ValidationError::new(
        vec![plain_line(ErrorKind::IntType, Value::Null)],
        "X".to_string(),
    );
    let report = ve.render();
    assert!(report.starts_with("1 validation error for X\n"));
}

#[test]
fn header_is_plural_for_two_errors() {
    let ve = ValidationError::new(
        vec![
            plain_line(ErrorKind::IntType, Value::Null),
            plain_line(ErrorKind::StrType, Value::Int(1)),
        ],
        "X".to_string(),
    );
    let report = ve.render();
    assert!(report.starts_with("2 validation errors for X\n"));
}

#[test]
fn render_shows_message_kind_value_and_type() {
    let ve = ValidationError::new(
        vec![plain_line(ErrorKind::IntType, Value::Str("nope".to_string()))],
        "Model".to_string(),
    );
    let report = ve.render();
    assert_eq!(
        report,
        "1 validation error for Model\n  Value must be a valid integer \
         [kind=int_type, input_value='nope', input_type=str]"
    );
}

#[test]
fn render_shows_the_location_path() {
    let line = PyLineError {
        kind: ErrorKind::IntType,
        location: vec![LocItem::Key("field".to_string()), LocItem::Index(2)],
        message: None,
        input_value: Value::Bool(true),
        context: Context { entries: vec![] },
    };
    let ve = ValidationError::new(vec![line], "Model".to_string());
    let report = ve.render();
    assert_eq!(
        report,
        "1 validation error for Model\nfield -> 2\n  Value must be a valid integer \
         [kind=int_type, input_value=True, input_type=bool]"
    );
}

#[test]
fn lines_render_in_supply_order_joined_by_newlines() {
    let ve = ValidationError::new(
        vec![
            plain_line(ErrorKind::IntType, Value::Null),
            plain_line(ErrorKind::StrType, Value::Int(7)),
        ],
        "M".to_string(),
    );
    let report = ve.render();
    let lines: Vec<&str> = report.split('\n').collect();
    assert_eq!(lines.len(), 3);
    assert!(lines[1].contains("kind=int_type"));
    assert!(lines[2].contains("kind=str_type"));
}

#[test]
fn echoed_text_of_51_chars_is_truncated() {
    // a 49-character string echoes as a 51-character quoted text
    let long = "a".repeat(49);
    let ve = ValidationError::new(
        vec![plain_line(ErrorKind::IntType, Value::Str(long.clone()))],
        "M".to_string(),
    );
    let report = ve.render();
    let echoed = format!("'{}'", long);
    let expected = format!("{}...{}", &echoed[0..25], &echoed[echoed.len() - 24..]);
    assert!(report.contains(&format!("input_value={},", expected)));
    assert!(!report.contains(&echoed));
}

#[test]
fn echoed_text_of_50_chars_is_kept_whole() {
    let long = "b".repeat(48);
    let ve = ValidationError::new(
        vec![plain_line(ErrorKind::IntType, Value::Str(long.clone()))],
        "M".to_string(),
    );
    let report = ve.render();
    assert!(report.contains(&format!("input_value='{}',", long)));
    assert!(!report.contains("..."));
}

#[test]
fn error_count_counts_lines() {
    let ve = ValidationError::new(
        vec![
            plain_line(ErrorKind::IntType, Value::Null),
            plain_line(ErrorKind::StrType, Value::Null),
            plain_line(ErrorKind::BoolType, Value::Null),
        ],
        "M".to_string(),
    );
    assert_eq!(ve.error_count(), 3);
    assert_eq!(ve.title(), "M");
}

#[test]
fn errors_keep_the_supply_order() {
    let ve = ValidationError::new(
        vec![
            plain_line(ErrorKind::IntType, Value::Int(0)),
            plain_line(ErrorKind::StrType, Value::Int(1)),
            plain_line(ErrorKind::ListType, Value::Int(2)),
        ],
        "M".to_string(),
    );
    let records = ve.errors();
    assert_eq!(records.len(), 3);
    assert_eq!(records[0].kind, "int_type");
    assert_eq!(records[1].kind, "str_type");
    assert_eq!(records[2].kind, "list_type");
    assert_eq!(records[0].input_value, Value::Int(0));
    assert_eq!(records[1].input_value, Value::Int(1));
    assert_eq!(records[2].input_value, Value::Int(2));
    assert!(records[0].context.is_none());
}

#[test]
fn message_override_is_used_verbatim() {
    let line = PyLineError {
        kind: ErrorKind::IntType,
        location: vec![],
        message: Some("custom words".to_string()),
        input_value: Value::Null,
        context: Context { entries: vec![] },
    };
    assert_eq!(line.message(), "custom words");
    assert_eq!(line.raw_message(), "custom words");
}

#[test]
fn default_template_is_resolved_by_kind() {
    let line = plain_line(ErrorKind::DictType, Value::Null);
    assert_eq!(line.message(), "Value must be a valid dictionary");
}

#[test]
fn context_substitutes_named_placeholders() {
    let line = PyLineError {
        kind: ErrorKind::DictFromMapping,
        location: vec![],
        message: None,
        input_value: Value::Null,
        context: Context { entries: vec![("error".to_string(), "boom".to_string())] },
    };
    assert_eq!(
        line.message(),
        "Unable to convert mapping to a dictionary, error: boom"
    );
}

#[test]
fn unbound_placeholders_stay_as_they_are() {
    let line = PyLineError {
        kind: ErrorKind::DictFromMapping,
        location: vec![],
        message: None,
        input_value: Value::Null,
        context: Context { entries: vec![("other".to_string(), "x".to_string())] },
    };
    assert_eq!(
        line.message(),
        "Unable to convert mapping to a dictionary, error: {error}"
    );
}

#[test]
fn context_appears_in_rendering() {
    let line = PyLineError {
        kind: ErrorKind::IntType,
        location: vec![],
        message: Some("too small".to_string()),
        input_value: Value::Int(1),
        context: Context { entries: vec![("min".to_string(), "5".to_string())] },
    };
    let ve = ValidationError::new(vec![line], "M".to_string());
    let report = ve.render();
    assert!(report.contains(", context=min=5,"));
}

#[test]
fn as_validation_err_builds_the_aggregate() {
    let raw = ValLineError {
        kind: ErrorKind::BoolType,
        location: vec![],
        message: None,
        input_value: Value::Int(3),
        context: Context { entries: vec![] },
    };
    let ve = as_validation_err("Schema", ValError::LineErrors(vec![raw])).unwrap();
    assert_eq!(ve.title(), "Schema");
    assert_eq!(ve.error_count(), 1);
    assert_eq!(ve.errors()[0].kind, "bool_type");
}

#[test]
fn internal_errors_bypass_the_aggregator() {
    let ie = InternalError { message: "formatting broke".to_string() };
    let got = as_validation_err("Schema", ValError::InternalErr(ie)).unwrap_err();
    assert_eq!(got, InternalError { message: "formatting broke".to_string() });
}

#[test]
fn line_error_from_engine_failure_round_trips() {
    let e = Value::Bool(true).lax_int().unwrap_err();
    let ve = as_validation_err("M", e).unwrap();
    let report = ve.render();
    assert_eq!(
        report,
        "1 validation error for M\n  Value must be a valid integer \
         [kind=int_type, input_value=True, input_type=bool]"
    );
}

#[test]
fn bytes_echo_as_hex_escapes() {
    let e = Value::Bytes(vec![0xff]).lax_str().unwrap_err();
    let ve = as_validation_err("M", e).unwrap();
    let report = ve.render();
    assert!(report.contains("input_value=b'\\xff'"));
    assert!(report.contains("input_type=bytes"));
    assert!(report.contains("kind=str_unicode"));
}
