use relaxed_json::parser::json_object_path;
use relaxed_json::parser::json_value;
use relaxed_json::parser::json_value_root;
use relaxed_json::parser::ParseStep;
use relaxed_json::parser::PathStep;
use relaxed_json::parser::RootStep;
use relaxed_json::scan::escaped_string;
use relaxed_json::scan::json_whitespace;
use relaxed_json::scan::EscStep;
use relaxed_json::value::Value;

fn parsed(input: &str) -> Value {
    match json_value(input.as_bytes(), 0) {
        ParseStep::Done { next, value } => {
            assert_eq!(next, input.len(), "value did not consume all of {:?}", input);
            value
        },
        ParseStep::Fail => panic!("value failed on {:?}", input),
    }
}

fn rooted(input: &str) -> Value {
    match json_value_root(input.as_bytes()) {
        RootStep::Done { next, value } => {
            assert_eq!(next, input.len(), "root did not consume all of {:?}", input);
            value
        },
        RootStep::Incomplete => panic!("root incomplete on {:?}", input),
    }
}

fn text(x: &str) -> Value {
    Value::String(x.as_bytes().to_vec())
}

fn float_lit(x: &str) -> Value {
    Value::Float(x.as_bytes().to_vec())
}

fn obj(entries: Vec<(&str, Value)>) -> Value {
    Value::Object(entries.into_iter().map(|(k, v)| (k.as_bytes().to_vec(), v)).collect())
}

fn ws_all(input: &str) {
    assert_eq!(json_whitespace(input.as_bytes(), 0), input.len(), "whitespace on {:?}", input);
}

#[test]
fn test_json_null() {
    assert_eq!(parsed("null"), Value::Null);
}

#[test]
fn test_json_boolean() {
    assert_eq!(parsed("true"), Value::Boolean(true));
    assert_eq!(parsed("false"), Value::Boolean(false));
}

#[test]
fn test_json_int() {
    assert_eq!(parsed("0"), Value::Int(0));
    assert_eq!(parsed("1"), Value::Int(1));
    assert_eq!(parsed("-2"), Value::Int(-2));
    assert_eq!(parsed("42"), Value::Int(42));
    assert_eq!(parsed("2834293023"), Value::Int(2834293023));
}

#[test]
fn test_json_float() {
    assert_eq!(parsed("0.0"), float_lit("0.0"));
    assert_eq!(parsed("4.2"), float_lit("4.2"));
    assert_eq!(parsed("-4.2"), float_lit("-4.2"));
    assert_eq!(parsed("-4.2e1"), float_lit("-4.2e1"));
    assert_eq!(parsed("-4.2e-2"), float_lit("-4.2e-2"));
}

#[test]
fn test_json_string() {
    assert_eq!(parsed("\"\""), text(""));
    assert_eq!(parsed("\"a\""), text("a"));
    assert_eq!(parsed("\"ab\""), text("ab"));
    assert_eq!(parsed("\"a b\""), text("a b"));
    assert_eq!(parsed("\"a\\\"b\""), text("a\"b"));
}

#[test]
fn test_json_array() {
    assert_eq!(parsed("[]"), Value::Array(vec![]));
    assert_eq!(parsed("[null]"), Value::Array(vec![Value::Null]));
    assert_eq!(parsed("[1,2]"), Value::Array(vec![Value::Int(1), Value::Int(2)]));
    assert_eq!(
        parsed("[1,[2,3]]"),
        Value::Array(vec![
            Value::Int(1),
            Value::Array(vec![Value::Int(2), Value::Int(3)]),
        ])
    );
}

#[test]
fn test_json_object() {
    assert_eq!(parsed("{}"), obj(vec![]));
    assert_eq!(parsed("{\"a\":42}"), obj(vec![("a", Value::Int(42))]));
    assert_eq!(
        parsed("{\"a\":42,\"b\":43}"),
        obj(vec![("a", Value::Int(42)), ("b", Value::Int(43))])
    );
}

#[test]
fn test_comments() {
    ws_all("");
    ws_all("\n");
    ws_all("\n#");
    ws_all("#\n");
    ws_all(" ");
    ws_all(" #");
    ws_all(" # c");
    ws_all(" # c\n");
    ws_all(" # c\n ");
    ws_all(" # c\n  ");
    ws_all(" # c\n  //");
    ws_all(" # c\n  //\n");
    ws_all(" # c\n  //\n////");

    let a1 = || Value::Array(vec![Value::Int(1)]);
    let a2 = || Value::Array(vec![Value::Int(1), Value::Int(2)]);
    let a3 = || Value::Array(vec![Value::Int(1), Value::Int(2), Value::Int(3)]);
    assert_eq!(parsed("[ ]"), Value::Array(vec![]));
    assert_eq!(parsed("[ 1]"), a1());
    assert_eq!(parsed("[1 ]"), a1());
    assert_eq!(parsed("[ 1 ]"), a1());
    assert_eq!(parsed("[ 1,2 ]"), a2());
    assert_eq!(parsed("[ 1 ,2 ]"), a2());
    assert_eq!(parsed("[ 1, 2 ]"), a2());
    assert_eq!(parsed("[ 1 , 2 ]"), a2());
    assert_eq!(parsed("[ 1 , 2,3 ]"), a3());
    assert_eq!(parsed("[ 1 , 2,3]"), a3());
    assert_eq!(parsed("[ 1 , 2, 3]"), a3());
    assert_eq!(parsed("[ 1 , 2 , 3]"), a3());
    assert_eq!(parsed("[1 , 2 , 3 ]"), a3());
    assert_eq!(parsed("[ 1 , 2 , 3 ]"), a3());
    assert_eq!(parsed("[ 1 , #s\n 2 , 3 ]"), a3());
    assert_eq!(parsed("[ 1 , #s\n\n 2 , 3 ]"), a3());

    let m0 = || obj(vec![]);
    assert_eq!(rooted("{}"), m0());
    assert_eq!(rooted(" {} "), m0());
    assert_eq!(rooted(" { } "), m0());
    assert_eq!(rooted(" { \n} "), m0());
    assert_eq!(rooted(" {\n } "), m0());
    assert_eq!(rooted(" { \n } "), m0());

    let m1 = || obj(vec![("a", Value::Int(1))]);
    assert_eq!(rooted("{\"a\":1}"), m1());
    assert_eq!(rooted(" {\"a\":1} "), m1());
    assert_eq!(rooted(" { \"a\":1} "), m1());
    assert_eq!(rooted(" {\"a\" :1} "), m1());
    assert_eq!(rooted(" {\"a\": 1} "), m1());
    assert_eq!(rooted(" {\"a\":1 } "), m1());
    assert_eq!(rooted(" { \"a\" : 1 } "), m1());
    assert_eq!(rooted("\n{\n\"a\"\n:\n1\n}\n"), m1());
    assert_eq!(rooted("\n\n{\n\n\"a\"\n\n:\n\n1\n\n}\n\n"), m1());
    assert_eq!(rooted("\n{\n\"a\"\n:# cmt \n1\n}\n"), m1());

    let m2 = || obj(vec![("a", Value::Int(1)), ("b", Value::Int(2))]);
    assert_eq!(rooted("{\"a\":1,\"b\":2}"), m2());
    assert_eq!(rooted("{\"a\":1 ,\"b\":2}"), m2());
    assert_eq!(rooted("{\"a\":1, \"b\":2}"), m2());
    assert_eq!(rooted("{\"a\":1 , \"b\":2}"), m2());
    assert_eq!(rooted("{\"a\":1 ,\n \"b\":2}"), m2());
    assert_eq!(rooted("{\"a\":1 ,\n\n \"b\":2}"), m2());
}

#[test]
fn test_comma_inference() {
    let a2 = || Value::Array(vec![Value::Int(1), Value::Int(2)]);
    let a3 = || Value::Array(vec![Value::Int(1), Value::Int(2), Value::Int(3)]);
    assert_eq!(parsed("[1\n2]"), a2());
    assert_eq!(parsed("[1#a\n2]"), a2());
    assert_eq!(parsed("[1 , 2 \n, 3]"), a3());
    assert_eq!(parsed("[1 , 2 \n\n\n, 3]"), a3());
    assert_eq!(parsed("[1 , 2 \n# s\n\n, 3]"), a3());

    let m2 = || obj(vec![("a", Value::Int(1)), ("b", Value::Int(2))]);
    assert_eq!(rooted("{ \"a\":1\n\"b\":2 }"), m2());
    assert_eq!(rooted("{ \"a\":1,\n\"b\":2 }"), m2());
}

#[test]
fn test_equals_instead_of_colon() {
    assert_eq!(parsed("{\"a\" = 42}"), obj(vec![("a", Value::Int(42))]));
    assert_eq!(
        parsed("{\"a\" = 42,\"b\":43}"),
        obj(vec![("a", Value::Int(42)), ("b", Value::Int(43))])
    );
}

#[test]
fn test_skipping_colon_before_object_values() {
    let expected = || obj(vec![("a", obj(vec![("b", Value::Int(43))]))]);
    assert_eq!(parsed("{\"a\" = { \"b\":43 }}"), expected());
    assert_eq!(parsed("{\"a\" { \"b\":43 }}"), expected());
}

#[test]
fn test_dropping_braces_on_root_object() {
    assert_eq!(rooted("\"a\" = 42"), obj(vec![("a", Value::Int(42))]));
    assert_eq!(rooted("\"a\" = 42\n"), obj(vec![("a", Value::Int(42))]));
    assert_eq!(
        rooted("\"a\" = 42,\"b\":43"),
        obj(vec![("a", Value::Int(42)), ("b", Value::Int(43))])
    );
    assert_eq!(
        rooted("\"a\" = 42\n\"b\":43"),
        obj(vec![("a", Value::Int(42)), ("b", Value::Int(43))])
    );
}

#[test]
fn test_object_merging() {
    assert_eq!(
        rooted("\n\"a\" { \"b\": 1 }\n\"a\" { \"c\": 2 }\n"),
        obj(vec![("a", obj(vec![("b", Value::Int(1)), ("c", Value::Int(2))]))])
    );
    assert_eq!(
        rooted("\n\"a\" { \"b\": { \"c\": 1 } }\n\"a\" { \"b\": { \"d\": 2 } }\n"),
        obj(vec![(
            "a",
            obj(vec![("b", obj(vec![("c", Value::Int(1)), ("d", Value::Int(2))]))]),
        )])
    );
    assert_eq!(
        rooted("\n\"a\" { \"b\": { \"c\": 1 }, \"e\": 3 }\n\"a\" { \"b\": { \"d\": 2 } }\n"),
        obj(vec![(
            "a",
            obj(vec![
                ("b", obj(vec![("c", Value::Int(1)), ("d", Value::Int(2))])),
                ("e", Value::Int(3)),
            ]),
        )])
    );
}

#[test]
fn test_unquoted_strings() {
    assert_eq!(parsed("{a = 42}"), obj(vec![("a", Value::Int(42))]));
    assert_eq!(parsed("{a = bc}"), obj(vec![("a", text("bc"))]));
    assert_eq!(parsed("{a = b/c}"), obj(vec![("a", text("b/c"))]));
}

#[test]
fn test_object_paths() {
    let path = |input: &str| -> Vec<Vec<u8>> {
        match json_object_path(input.as_bytes(), 0) {
            PathStep::Done { next, segments } => {
                assert_eq!(next, input.len(), "path did not consume all of {:?}", input);
                segments
            },
            _ => panic!("path failed on {:?}", input),
        }
    };
    assert_eq!(path("ab"), vec![b"ab".to_vec()]);
    assert_eq!(path("a.b"), vec![b"a".to_vec(), b"b".to_vec()]);
    assert_eq!(path("a"), vec![b"a".to_vec()]);

    assert_eq!(
        rooted("a.b = 43"),
        obj(vec![("a", obj(vec![("b", Value::Int(43))]))])
    );
    assert_eq!(
        rooted("a.b.c = 43"),
        obj(vec![("a", obj(vec![("b", obj(vec![("c", Value::Int(43))]))]))])
    );
    assert_eq!(
        rooted("a.\"b\".c = 43"),
        obj(vec![("a", obj(vec![("b", obj(vec![("c", Value::Int(43))]))]))])
    );
    assert_eq!(
        rooted("a.\"b.2\".c = 43"),
        obj(vec![("a", obj(vec![("b.2", obj(vec![("c", Value::Int(43))]))]))])
    );
}

#[test]
fn test_no_newlines_in_normal_strings() {
    assert_eq!(escaped_string(b"a\n", 0), EscStep::Fail);
}

#[test]
fn test_multiline_strings() {
    assert_eq!(
        rooted("\na = \"\"\"\nb\n\"\"\"\n"),
        obj(vec![("a", text("\nb\n"))])
    );
}
