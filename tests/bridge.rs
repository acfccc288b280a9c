use native_bridge::codec::{
    decode_hello_request, decode_hello_response, decode_operation, encode_hello_request,
    encode_hello_response, encode_operation, str_field, HelloRequest, HelloResponse, Operation,
    Request, SchemaError,
};
use native_bridge::error::BridgeError;
use native_bridge::hello::{greet_value, greeting_for, hello};
use native_bridge::ops::run_operations;
use native_bridge::task::{completion_of, Completion, Dispatcher, SuccessTask, TaskState};
use native_bridge::text::{parse_bytes, parse_text, render_bytes, render_text};
use native_bridge::value::{get_field, HostValue, Kind};

fn s(x: &str) -> HostValue {
    HostValue::Str(x.to_string())
}

fn obj(fields: Vec<(&str, HostValue)>) -> HostValue {
    HostValue::Object(fields.into_iter().map(|(k, v)| (k.to_string(), v)).collect())
}

fn op(tag: &str, value: &str) -> HostValue {
    obj(vec![("operator", s(tag)), ("value", s(value))])
}

#[test]
fn greet_world() {
    let req = Request { body: br#"{"name":"World"}"#.to_vec() };
    let out = hello(&req).ok().unwrap();
    assert_eq!(out, br#"{"greeting":"Hello, World!"}"#.to_vec());
}

#[test]
fn greet_ignores_extra_fields() {
    let req = Request { body: br#"{"age":3,"name":"Ada"}"#.to_vec() };
    let out = hello(&req).ok().unwrap();
    assert_eq!(out, br#"{"greeting":"Hello, Ada!"}"#.to_vec());
}

#[test]
fn greet_missing_name() {
    let req = Request { body: br#"{"nom":"World"}"#.to_vec() };
    match hello(&req) {
        Err(e) => {
            assert!(matches!(&e, BridgeError::Schema(SchemaError::MissingField(f)) if f == "name"));
            assert_eq!(e.message(), "missing field `name`");
        }
        Ok(_) => panic!("a request without a name was answered"),
    }
}

#[test]
fn greet_malformed_body() {
    let req = Request { body: b"{\"name\":".to_vec() };
    assert!(matches!(hello(&req), Err(BridgeError::Parse(_))));
}

#[test]
fn greet_name_of_wrong_type() {
    let req = Request { body: br#"{"name":5}"#.to_vec() };
    match hello(&req) {
        Err(e) => {
            assert!(matches!(
                &e,
                BridgeError::Schema(SchemaError::TypeMismatch { field, expected: Kind::Str, found: Kind::Number })
                    if field == "name"
            ));
            assert_eq!(e.message(), "invalid type for field `name`: expected string, found number");
        }
        Ok(_) => panic!("a numeric name was accepted"),
    }
}

#[test]
fn greeting_text_is_exact() {
    assert_eq!(greeting_for("World"), "Hello, World!");
    assert_eq!(greeting_for(""), "Hello, !");
}

#[test]
fn greet_value_builds_response() {
    let out = greet_value(&obj(vec![("name", s("Bo"))])).ok().unwrap();
    let resp = decode_hello_response(&out).ok().unwrap();
    assert_eq!(resp.greeting, "Hello, Bo!");
}

#[test]
fn greet_value_needs_object() {
    match greet_value(&s("World")) {
        Err(SchemaError::NotAnObject(k)) => assert_eq!(k, Kind::Str),
        _ => panic!("a string was taken for a record"),
    }
}

#[test]
fn parse_not_json() {
    match parse_text("not json") {
        Err(e) => {
            assert!(matches!(e, BridgeError::Parse(_)));
            assert!(!e.message().is_empty());
        }
        Ok(_) => panic!("malformed text parsed"),
    }
}

#[test]
fn parse_builds_value() {
    let v = parse_text(r#"{"a":[true,null,"x"],"b":{}}"#).ok().unwrap();
    match &v {
        HostValue::Object(fs) => {
            assert_eq!(fs.len(), 2);
            match get_field(fs, "a") {
                Some(HostValue::Array(items)) => {
                    assert_eq!(items.len(), 3);
                    assert!(matches!(items[0], HostValue::Bool(true)));
                    assert!(matches!(items[1], HostValue::Null));
                    assert!(matches!(&items[2], HostValue::Str(x) if x == "x"));
                }
                _ => panic!("field a is not an array"),
            }
            assert!(matches!(get_field(fs, "b"), Some(HostValue::Object(m)) if m.is_empty()));
        }
        _ => panic!("not an object"),
    }
}

#[test]
fn text_round_trip() {
    let text = r#"{"a":[1,2.5,-3,true,null,"x"],"b":{"c":{}},"d":"é\n"}"#;
    let v = parse_text(text).ok().unwrap();
    let back = render_text(&v).ok().unwrap();
    let before: serde_json::Value = serde_json::from_str(text).unwrap();
    let after: serde_json::Value = serde_json::from_str(&back).unwrap();
    assert_eq!(before, after);
}

#[test]
fn text_round_trip_ignores_whitespace() {
    let v = parse_text(" [ 1 , { \"k\" : [ ] } ] ").ok().unwrap();
    assert_eq!(render_text(&v).ok().unwrap(), r#"[1,{"k":[]}]"#);
}

#[test]
fn bytes_round_trip() {
    let v = parse_bytes(br#"{"greeting":"hi"}"#).ok().unwrap();
    assert_eq!(render_bytes(&v).ok().unwrap(), br#"{"greeting":"hi"}"#.to_vec());
    assert!(matches!(parse_bytes(b"[1,"), Err(BridgeError::Parse(_))));
}

#[test]
fn deep_nesting_is_refused() {
    let text = format!("{}{}", "[".repeat(128), "]".repeat(128));
    assert!(matches!(parse_text(&text), Err(BridgeError::Parse(_))));
}

#[test]
fn later_field_shadows_earlier() {
    let v = obj(vec![("name", s("first")), ("name", s("second"))]);
    assert_eq!(str_field(&v, "name").ok().unwrap(), "second");
    assert_eq!(decode_hello_request(&v).ok().unwrap().name, "second");
}

#[test]
fn hello_request_round_trip() {
    let q = HelloRequest { name: "Zoë".to_string() };
    assert_eq!(decode_hello_request(&encode_hello_request(&q)).ok().unwrap().name, "Zoë");
}

#[test]
fn hello_response_round_trip() {
    let p = HelloResponse { greeting: "Hello, X!".to_string() };
    assert_eq!(decode_hello_response(&encode_hello_response(&p)).ok().unwrap().greeting, "Hello, X!");
}

#[test]
fn operation_round_trip() {
    let o = Operation::Print { value: "text".to_string() };
    match decode_operation(&encode_operation(&o)) {
        Ok(Operation::Print { value }) => assert_eq!(value, "text"),
        Err(_) => panic!("the encoding of an operation did not decode"),
    }
}

#[test]
fn operation_unknown_variant() {
    match decode_operation(&op("bogus", "b")) {
        Err(SchemaError::UnknownVariant(t)) => assert_eq!(t, "bogus"),
        _ => panic!("an unknown tag decoded"),
    }
}

#[test]
fn operation_missing_tag() {
    let v = obj(vec![("value", s("b"))]);
    match decode_operation(&v) {
        Err(SchemaError::MissingField(f)) => assert_eq!(f, "operator"),
        _ => panic!("a descriptor without a tag decoded"),
    }
}

#[test]
fn run_two_prints() {
    let out = run_operations(&vec![op("print", "a"), op("print", "b")]);
    assert_eq!(out.lines, vec!["a".to_string(), "b".to_string()]);
    assert!(out.result.is_ok());
}

#[test]
fn run_stops_at_unsupported_operator() {
    let out = run_operations(&vec![op("print", "a"), op("bogus", "b")]);
    assert_eq!(out.lines, vec!["a".to_string()]);
    match out.result {
        Err(e) => {
            assert!(matches!(&e, BridgeError::UnsupportedOperator(t) if t == "bogus"));
            assert_eq!(e.message(), "Unsupported operator: bogus");
        }
        Ok(()) => panic!("an unsupported operator ran"),
    }
}

#[test]
fn run_empty_batch() {
    let out = run_operations(&vec![]);
    assert!(out.lines.is_empty());
    assert!(out.result.is_ok());
}

#[test]
fn run_stops_at_malformed_descriptor() {
    let out = run_operations(&vec![op("print", "a"), HostValue::Null, op("print", "c")]);
    assert_eq!(out.lines, vec!["a".to_string()]);
    match out.result {
        Err(e) => {
            assert!(matches!(e, BridgeError::Schema(SchemaError::NotAnObject(Kind::Null))));
            assert_eq!(e.message(), "expected object, found null");
        }
        Ok(()) => panic!("a null descriptor ran"),
    }
}

#[test]
fn render_exact_output() {
    let v = HostValue::Array(vec![HostValue::Null, HostValue::Bool(false), s("hi"), obj(vec![])]);
    assert_eq!(render_text(&v).ok().unwrap(), r#"[null,false,"hi",{}]"#);
    assert_eq!(render_text(&obj(vec![("k", s("v"))])).ok().unwrap(), r#"{"k":"v"}"#);
}

#[test]
fn render_merges_repeated_keys() {
    let v = obj(vec![("b", s("1")), ("a", s("2")), ("b", s("3"))]);
    assert_eq!(render_text(&v).ok().unwrap(), r#"{"a":"2","b":"3"}"#);
}

#[test]
fn render_then_parse_keeps_tree() {
    let v = obj(vec![("z", HostValue::Array(vec![s("x"), HostValue::Null])), ("a", HostValue::Bool(true))]);
    let text = render_text(&v).ok().unwrap();
    let back = parse_text(&text).ok().unwrap();
    assert_eq!(render_text(&back).ok().unwrap(), text);
}

#[test]
fn parse_twice_same_result() {
    let text = r#"{"b":[1,{"c":null}],"a":"x"}"#;
    let one = render_text(&parse_text(text).ok().unwrap()).ok().unwrap();
    let two = render_text(&parse_text(text).ok().unwrap()).ok().unwrap();
    assert_eq!(one, two);
    assert_eq!(one, r#"{"a":"x","b":[1,{"c":null}]}"#);
}

#[test]
fn deepest_accepted_nesting_converts() {
    let text = format!("{}{}", "[".repeat(127), "]".repeat(127));
    let v = parse_text(&text).ok().unwrap();
    assert_eq!(render_text(&v).ok().unwrap(), text);
}

#[test]
fn success_task_yields_seventeen() {
    let r = SuccessTask.perform();
    assert_eq!(r, Ok(17));
    assert!(matches!(SuccessTask.complete(r), Completion::Value(17)));
}

#[test]
fn failed_work_reaches_callback_as_error() {
    match completion_of(Err("boom".to_string())) {
        Completion::Failed(m) => assert_eq!(m, "boom"),
        Completion::Value(_) => panic!("an error became a value"),
    }
}

#[test]
fn schedule_delivers_nothing() {
    let mut d = Dispatcher::new();
    let id = d.schedule();
    assert_eq!(id, 0);
    assert_eq!(d.state(id), Some(TaskState::Scheduled));
    assert_eq!(d.waiting(), 0);
    assert!(d.dispatch_next().is_none());
}

#[test]
fn task_delivered_exactly_once() {
    let mut d = Dispatcher::new();
    let id = d.schedule();
    assert!(!d.finish(id, Ok(1)));
    assert!(d.start(id));
    assert!(!d.start(id));
    let result = SuccessTask.perform();
    assert!(d.finish(id, result));
    assert_eq!(d.state(id), Some(TaskState::Finished));
    match d.dispatch_next() {
        Some((got, Completion::Value(17))) => assert_eq!(got, id),
        _ => panic!("the result was not handed over"),
    }
    assert_eq!(d.state(id), Some(TaskState::Delivered));
    assert!(d.dispatch_next().is_none());
    assert!(!d.finish(id, Ok(2)));
}

#[test]
fn many_tasks_each_delivered_once() {
    let mut d = Dispatcher::new();
    let ids: Vec<usize> = (0..4).map(|_| d.schedule()).collect();
    assert_eq!(ids, vec![0, 1, 2, 3]);
    for &i in &[2usize, 0, 3, 1] {
        assert!(d.start(i));
    }
    for &i in &[3usize, 1, 0, 2] {
        assert!(d.finish(i, Ok(i as i32 * 10)));
    }
    let out = d.drain();
    let got: Vec<usize> = out.iter().map(|(i, _)| *i).collect();
    assert_eq!(got, vec![2, 0, 1, 3]);
    for (i, c) in &out {
        assert!(matches!(c, Completion::Value(v) if *v == *i as i32 * 10));
    }
    for i in 0..4 {
        assert_eq!(d.state(i), Some(TaskState::Delivered));
    }
    assert_eq!(d.waiting(), 0);
    assert!(d.drain().is_empty());
}

#[test]
fn unknown_task_cannot_start() {
    let mut d = Dispatcher::new();
    assert!(!d.start(0));
    assert_eq!(d.state(0), None);
}

#[test]
fn parse_error_message_repeats() {
    let one = parse_text("{\"a\":").err().unwrap().message();
    let two = parse_text("{\"a\":").err().unwrap().message();
    assert_eq!(one, two);
    assert!(!one.contains('\n'));
}

#[test]
fn parsed_object_has_each_key_once() {
    match parse_text(r#"{"k":1,"k":2,"j":3}"#).ok().unwrap() {
        HostValue::Object(fs) => {
            assert_eq!(fs.len(), 2);
            assert!(fs[0].0 != fs[1].0);
        }
        _ => panic!("not an object"),
    }
}

#[test]
fn render_keeps_last_of_repeated_key_nested() {
    let inner = obj(vec![("x", s("old")), ("y", HostValue::Null), ("x", s("new"))]);
    let v = HostValue::Array(vec![inner]);
    assert_eq!(render_text(&v).ok().unwrap(), r#"[{"x":"new","y":null}]"#);
}
