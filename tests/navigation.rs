use jmespath_core::{JMESPath, JMESSlice, ParseJMESSliceError, Value};

fn s(text: &str) -> Value {
    Value::String(String::from(text))
}

fn n(k: i64) -> Value {
    Value::Number(serde_json::Number::from(k))
}

fn arr(items: Vec<Value>) -> Value {
    Value::Array(items)
}

fn obj(entries: Vec<(&str, Value)>) -> Value {
    Value::Object(entries.into_iter().map(|(k, v)| (String::from(k), v)).collect())
}

fn parse(text: &str) -> JMESSlice {
    text.parse::<JMESSlice>().unwrap()
}

fn flatmap() -> Value {
    obj(vec![("a", s("foo")), ("b", s("bar")), ("c", s("baz"))])
}

fn nested_map() -> Value {
    obj(vec![("a", obj(vec![("b", obj(vec![("c", obj(vec![("d", s("value"))]))]))]))])
}

#[test]
fn identifier() {
    assert_eq!(flatmap().identify("a"), s("foo"));
    assert_eq!(flatmap().identify("d"), Value::Null);
    assert_eq!(
        nested_map().identify("a").identify("b").identify("c").identify("d"),
        s("value")
    );
}

fn array() -> Value {
    arr(vec![s("a"), s("b"), s("c"), s("d"), s("e"), s("f")])
}

#[test]
fn index() {
    assert_eq!(array().index(1), s("b"));
    assert_eq!(array().index(-1), s("f"));
    assert_eq!(array().index(10), Value::Null);
    assert_eq!(array().index(-10), Value::Null);
}

fn complex() -> Value {
    obj(vec![(
        "a",
        obj(vec![(
            "b",
            obj(vec![(
                "c",
                arr(vec![
                    obj(vec![("d", arr(vec![n(0), arr(vec![n(1), n(2)])]))]),
                    obj(vec![("d", arr(vec![n(3), n(4)]))]),
                ]),
            )]),
        )]),
    )])
}

#[test]
fn combined() {
    assert_eq!(
        complex()
            .identify("a")
            .identify("b")
            .identify("c")
            .index(0)
            .identify("d")
            .index(1)
            .index(0),
        n(1)
    );
}

#[test]
fn parse_jmes_slice() {
    let res = "::".parse::<JMESSlice>();
    assert_eq!(res, Ok(JMESSlice::default()));
    let res = "0:1".parse::<JMESSlice>();
    assert_eq!(res, Ok((0..1).into()));
    let res = "-10:".parse::<JMESSlice>();
    assert_eq!(res, Ok(JMESSlice { start: Some(-10), end: None, step: None }));
    let res = ":100".parse::<JMESSlice>();
    assert_eq!(res, Ok(JMESSlice { start: None, end: Some(100), step: None }));
    let res = "::10".parse::<JMESSlice>();
    assert_eq!(res, Ok(JMESSlice { start: None, end: None, step: Some(10) }));
    let res = "::0".parse::<JMESSlice>();
    assert_eq!(res, Err(ParseJMESSliceError::StepNotAllowedToBeZero));
}

fn slice_example() -> Value {
    arr(vec![n(0), n(1), n(2), n(3)])
}

#[test]
fn slicing() {
    assert_eq!(slice_example().slice(parse("0:4:1")), arr(vec![n(0), n(1), n(2), n(3)]));
    assert_eq!(slice_example().slice(parse("0:4")), arr(vec![n(0), n(1), n(2), n(3)]));
    assert_eq!(slice_example().slice(parse("0:3")), arr(vec![n(0), n(1), n(2)]));
    assert_eq!(slice_example().slice(parse(":2")), arr(vec![n(0), n(1)]));
    assert_eq!(slice_example().slice(parse("::2")), arr(vec![n(0), n(2)]));
    assert_eq!(slice_example().slice(parse("::-1")), arr(vec![n(3), n(2), n(1), n(0)]));
    assert_eq!(slice_example().slice(parse("-2:")), arr(vec![n(2), n(3)]));
    assert_eq!(slice_example().slice(parse("100::-1")), arr(vec![n(3), n(2), n(1), n(0)]));
}

fn person(first: &str, last: &str) -> Value {
    obj(vec![("first", s(first)), ("last", s(last))])
}

fn list_project_example() -> Value {
    obj(vec![
        (
            "people",
            arr(vec![
                person("James", "d"),
                person("Jacob", "e"),
                person("Jayden", "f"),
                obj(vec![("missing", s("different"))]),
            ]),
        ),
        ("foo", obj(vec![("bar", s("baz"))])),
    ])
}

#[test]
fn list_projection() {
    assert_eq!(
        list_project_example().identify("people").list_project(|v| v.identify("first")),
        arr(vec![s("James"), s("Jacob"), s("Jayden")])
    );
}

#[test]
fn slice_projection() {
    assert_eq!(
        list_project_example()
            .identify("people")
            .slice_project(":2".parse::<JMESSlice>().unwrap(), |v| v.identify("first")),
        arr(vec![s("James"), s("Jacob")])
    );
}

fn object_projection_example() -> Value {
    obj(vec![(
        "ops",
        obj(vec![
            ("functionA", obj(vec![("numArgs", n(2))])),
            ("functionB", obj(vec![("numArgs", n(3))])),
            ("functionC", obj(vec![("variadic", Value::Bool(true))])),
        ]),
    )])
}

#[test]
fn object_projection() {
    assert_eq!(
        object_projection_example().identify("ops").object_project(|v| v.identify("numArgs")),
        arr(vec![n(2), n(3)])
    );
}

fn state(text: &str) -> Value {
    obj(vec![("state", s(text))])
}

fn flatten_projection_example() -> Value {
    obj(vec![(
        "reservations",
        arr(vec![
            obj(vec![("instances", arr(vec![state("running"), state("stopped")]))]),
            obj(vec![("instances", arr(vec![state("terminated"), state("running")]))]),
        ]),
    )])
}

#[test]
fn flatten_projection() {
    assert_eq!(
        flatten_projection_example()
            .identify("reservations")
            .list_project(|v| v.identify("instances").list_project(|v| v.identify("state"))),
        arr(vec![arr(vec![s("running"), s("stopped")]), arr(vec![s("terminated"), s("running")])])
    );
}

fn nested_list_example() -> Value {
    arr(vec![arr(vec![n(0), n(1)]), n(2), arr(vec![n(3)]), n(4), arr(vec![n(5), arr(vec![n(6), n(7)])])])
}

#[test]
fn flatten_project_nested_list() {
    assert_eq!(
        nested_list_example().flatten(),
        arr(vec![n(0), n(1), n(2), n(3), n(4), n(5), arr(vec![n(6), n(7)])])
    );
    assert_eq!(
        nested_list_example().flatten().flatten(),
        arr(vec![n(0), n(1), n(2), n(3), n(4), n(5), n(6), n(7)])
    );
}
