use relaxed_json::from_bytes;
use relaxed_json::from_str;
use relaxed_json::Error;
use relaxed_json::Value;

fn doc(input: &str) -> Value {
    from_str(input).unwrap_or_else(|e| panic!("parse of {:?} failed: {:?}", input, e))
}

fn text(x: &str) -> Value {
    Value::String(x.as_bytes().to_vec())
}

fn obj(entries: Vec<(&str, Value)>) -> Value {
    Value::Object(entries.into_iter().map(|(k, v)| (k.as_bytes().to_vec(), v)).collect())
}

#[test]
fn test_full_parse() {
    assert_eq!(from_str("a = 2"), Ok(obj(vec![("a", Value::Int(2))])));
}

#[test]
fn test_incomplete_parse() {
    assert_eq!(from_str("a ="), Err(Error::ExtraInput(0)));
}

#[test]
fn test_value_extraction() {
    assert_eq!(doc("a = 42").get("a"), Ok(Value::Int(42)));
    assert_eq!(doc("a.b = 42").get("a.b"), Ok(Value::Int(42)));
    assert_eq!(doc("a.b.c = 42").get("a.b.c"), Ok(Value::Int(42)));
    assert_eq!(doc("a = 42").get("b"), Err(Error::NotFound(String::from("b"))));

    assert_eq!(doc("a = true").get_bool("a"), Ok(true));
    assert_eq!(doc("a = false").get_bool("a"), Ok(false));
    assert_eq!(doc("a = \"true\"").get_bool("a"), Ok(true));
    assert_eq!(doc("a = \"yes\"").get_bool("a"), Ok(true));
    assert_eq!(doc("a = \"on\"").get_bool("a"), Ok(true));
    assert_eq!(doc("a = \"false\"").get_bool("a"), Ok(false));
    assert_eq!(doc("a = \"no\"").get_bool("a"), Ok(false));
    assert_eq!(doc("a = \"off\"").get_bool("a"), Ok(false));

    assert_eq!(doc("a = \"true\"").get_bool_or("b", true), true);
}

#[test]
fn test_bool_coercion_rejects_other_values() {
    assert_eq!(doc("a = \"maybe\"").get_bool("a"), Err(Error::IncompatibleType));
    assert_eq!(doc("a = \"True\"").get_bool("a"), Err(Error::IncompatibleType));
    assert_eq!(doc("a = 1").get_bool("a"), Err(Error::IncompatibleType));
    assert_eq!(doc("a = null").get_bool("a"), Err(Error::IncompatibleType));
    assert_eq!(doc("a = [true]").get_bool("a"), Err(Error::IncompatibleType));
    assert_eq!(doc("a = \"maybe\"").get_bool_or("a", true), true);
    assert_eq!(doc("a = \"no\"").get_bool_or("a", true), false);
}

#[test]
fn test_int_extraction() {
    assert_eq!(doc("a = 42").get_int("a"), Ok(42));
    assert_eq!(doc("a = -7").get_int("a"), Ok(-7));
    assert_eq!(doc("a = 9223372036854775807").get_int("a"), Ok(i64::MAX));
    assert_eq!(doc("a = -9223372036854775808").get_int("a"), Ok(i64::MIN));
    assert_eq!(doc("a = \"42\"").get_int("a"), Err(Error::IncompatibleType));
    assert_eq!(doc("a = 42").get_int_or("a", 7), 42);
    assert_eq!(doc("a = 42").get_int_or("b", 7), 7);
    assert_eq!(doc("a = true").get_int_or("a", 7), 7);
}

#[test]
fn test_float_extraction() {
    assert_eq!(doc("a = 4.5").get_float("a"), Ok(Value::Float(b"4.5".to_vec())));
    assert_eq!(doc("a = -4.2e-2").get_float("a"), Ok(Value::Float(b"-4.2e-2".to_vec())));
    assert_eq!(doc("a = 42").get_float("a"), Ok(Value::Int(42)));
    assert_eq!(doc("a = \"4.5\"").get_float("a"), Err(Error::IncompatibleType));
    assert_eq!(
        doc("a = 4.5").get_float_or("b", Value::Float(b"0.0".to_vec())),
        Value::Float(b"0.0".to_vec())
    );
    assert_eq!(
        doc("a = 4.5").get_float_or("a", Value::Float(b"0.0".to_vec())),
        Value::Float(b"4.5".to_vec())
    );
}

#[test]
fn test_integer_overflow_falls_back_to_string() {
    // the integer rule fails on overflow rather than wrapping, and the
    // bare token then parses as an unquoted string
    assert_eq!(
        doc("a = 99999999999999999999").get("a"),
        Ok(text("99999999999999999999"))
    );
}

#[test]
fn test_path_errors() {
    assert_eq!(doc("a = 1").get(""), Err(Error::PathError(String::from(""))));
    assert_eq!(doc("a = 1").get("a..b"), Err(Error::PathError(String::from("a..b"))));
    assert_eq!(doc("a = 1").get("a."), Err(Error::PathError(String::from("a."))));
    assert_eq!(doc("a = 1").get("a b"), Err(Error::PathError(String::from("a b"))));
}

#[test]
fn test_lookup_through_non_object_is_not_found() {
    assert_eq!(doc("a = 1").get("a.b"), Err(Error::NotFound(String::from("a.b"))));
    assert_eq!(doc("a.b = 1").get("a.c"), Err(Error::NotFound(String::from("a.c"))));
}

#[test]
fn test_incomplete_inputs() {
    assert_eq!(from_str("{"), Err(Error::IncompleteInput));
    assert_eq!(from_str("{a = 1"), Err(Error::IncompleteInput));
    assert_eq!(from_str(""), Err(Error::IncompleteInput));
    assert_eq!(from_str("  # only a comment"), Err(Error::IncompleteInput));
}

#[test]
fn test_extra_inputs() {
    assert_eq!(from_str("a = \"x"), Err(Error::ExtraInput(0)));
    assert_eq!(from_str("{a = 1} x"), Err(Error::ExtraInput(8)));
    assert_eq!(from_str("a = nullx"), Err(Error::ExtraInput(8)));
}

#[test]
fn test_from_bytes_matches_from_str() {
    assert_eq!(from_bytes(b"a = 2"), from_str("a = 2"));
    assert_eq!(from_bytes("k = \"\u{e9}t\u{e9}\"".as_bytes()), from_str("k = \"\u{e9}t\u{e9}\""));
}

#[test]
fn test_invalid_utf8_is_rejected() {
    // a quoted string whose bytes are not UTF-8 matches no string form,
    // so the entry fails and the whole input is left over
    assert_eq!(from_bytes(b"a = \"\xff\""), Err(Error::ExtraInput(0)));
}

#[test]
fn test_number_forms() {
    assert_eq!(doc("a = +42").get_int("a"), Ok(42));
    assert_eq!(doc("a = 4.").get("a"), Ok(Value::Float(b"4.".to_vec())));
    assert_eq!(doc("a = .5").get("a"), Ok(Value::Float(b".5".to_vec())));
    // an exponent marker alone routes a number to the floating form
    assert_eq!(doc("a = 4e2").get("a"), Ok(Value::Float(b"4e2".to_vec())));
    assert_eq!(doc("a = -4.2e-2").get("a"), Ok(Value::Float(b"-4.2e-2".to_vec())));
}

#[test]
fn test_string_forms() {
    assert_eq!(doc("a = \"\"").get("a"), Ok(text("")));
    assert_eq!(doc("a = \"\"\"x\"\"\"").get("a"), Ok(text("x")));
    assert_eq!(doc("\"k\\\"ey\" = 1"), obj(vec![("k\"ey", Value::Int(1))]));
}

#[test]
fn test_separator_is_required_between_elements() {
    // bare whitespace alone never separates elements
    assert_eq!(from_str("a = [1 2]"), Err(Error::ExtraInput(0)));
    // a second comma terminates the separator rule and nothing follows it
    assert_eq!(from_str("a = [1,,2]"), Err(Error::ExtraInput(0)));
    assert_eq!(from_str("a = [1, 2]").is_ok(), true);
}

#[test]
fn test_comment_terminates_unquoted_string() {
    assert_eq!(
        doc("a = b//c\nd = e"),
        obj(vec![("a", text("b")), ("d", text("e"))])
    );
}
