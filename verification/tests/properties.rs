use relaxed_json::from_str;
use relaxed_json::Value;

fn doc(input: &str) -> Value {
    from_str(input).unwrap_or_else(|e| panic!("parse of {:?} failed: {:?}", input, e))
}

fn text(x: &str) -> Value {
    Value::String(x.as_bytes().to_vec())
}

fn obj(entries: Vec<(&str, Value)>) -> Value {
    Value::Object(entries.into_iter().map(|(k, v)| (k.as_bytes().to_vec(), v)).collect())
}

#[test]
fn test_whitespace_insensitivity() {
    let plain = doc("a = 1\nb { c: [1,2] }");
    assert_eq!(doc("  a = 1\nb { c: [1,2] }"), plain);
    assert_eq!(doc("# leading comment\na = 1\nb { c: [1,2] }"), plain);
    assert_eq!(doc("// leading comment\n\ta = 1\nb { c: [1,2] }"), plain);
    assert_eq!(doc("a = 1\nb { c: [1,2] }\n\n # trailing\n"), plain);
    assert_eq!(doc("a =   1\n b   {   c :\t[ 1 , 2 ]   }"), plain);
    assert_eq!(doc("a = 1 # note\nb { # note\n c: [1, # note\n 2] }"), plain);
}

#[test]
fn test_separator_equivalence() {
    assert_eq!(doc("a: 1"), doc("a = 1"));
    assert_eq!(doc("a.b: yes"), doc("a.b = yes"));
    assert_eq!(doc("{x: [1,2], y = {z: 3}}"), doc("{x = [1,2], y = {z = 3}}"));
}

#[test]
fn test_newline_acts_as_comma() {
    assert_eq!(doc("a = [1\n2]"), doc("a = [1,2]"));
    assert_eq!(
        doc("a = [1\n2]"),
        obj(vec![("a", Value::Array(vec![Value::Int(1), Value::Int(2)]))])
    );
    assert_eq!(doc("a = 1\nb = 2"), doc("a = 1,b = 2"));
}

#[test]
fn test_merge_union_and_precedence() {
    // union of differing inner keys
    assert_eq!(
        doc("a { b: 1 }\na { c: 2 }"),
        obj(vec![("a", obj(vec![("b", Value::Int(1)), ("c", Value::Int(2))]))])
    );
    // a colliding key takes the later entry's value
    assert_eq!(doc("a = 1\na = 2"), obj(vec![("a", Value::Int(2))]));
    assert_eq!(
        doc("a { b: 1, c: 3 }\na { b: 2 }"),
        obj(vec![("a", obj(vec![("b", Value::Int(2)), ("c", Value::Int(3))]))])
    );
    // a non-object replaces an object outright
    assert_eq!(doc("a { b: 1 }\na = 7"), obj(vec![("a", Value::Int(7))]));
    // an object replaces a scalar outright
    assert_eq!(
        doc("a = 7\na { b: 1 }"),
        obj(vec![("a", obj(vec![("b", Value::Int(1))]))])
    );
}

#[test]
fn test_round_trip_lookup() {
    assert_eq!(doc("key = 17").get("key"), Ok(Value::Int(17)));
    assert_eq!(doc("key = word").get("key"), Ok(text("word")));
    assert_eq!(doc("key = \"a b\"").get("key"), Ok(text("a b")));
    assert_eq!(doc("key = true").get("key"), Ok(Value::Boolean(true)));
    assert_eq!(doc("key = null").get("key"), Ok(Value::Null));
    assert_eq!(doc("x.y.z = 5").get("x.y.z"), Ok(Value::Int(5)));
    assert_eq!(doc("x.\"y.2\".z = 5").get("x.\"y.2\".z"), Ok(Value::Int(5)));
}

#[test]
fn test_equality_ignores_key_order() {
    // an object means a key/value mapping, so entry order is irrelevant
    assert_eq!(
        obj(vec![("a", Value::Int(1)), ("b", Value::Int(2))]),
        obj(vec![("b", Value::Int(2)), ("a", Value::Int(1))])
    );
    assert_ne!(
        obj(vec![("a", Value::Int(1))]),
        obj(vec![("a", Value::Int(2))])
    );
    assert_eq!(
        doc("a { x: 1 }
b = 2"),
        obj(vec![("b", Value::Int(2)), ("a", obj(vec![("x", Value::Int(1))]))])
    );
}

#[test]
fn test_clone_preserves_value() {
    let v = doc("a { x: [1, two, 3.5] }");
    assert_eq!(v.clone(), v);
}

#[test]
fn test_bare_root_object() {
    assert_eq!(doc("a = 2"), obj(vec![("a", Value::Int(2))]));
    assert_eq!(doc("a = 2"), doc("{a = 2}"));
}

#[test]
fn test_multiline_string_verbatim() {
    assert_eq!(doc("a = \"\"\"\nb\n\"\"\"").get("a"), Ok(text("\nb\n")));
    // no escape processing inside the triple-quoted form
    assert_eq!(doc("a = \"\"\"x\\y\"\"\"").get("a"), Ok(text("x\\y")));
}
