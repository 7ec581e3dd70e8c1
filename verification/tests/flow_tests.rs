use varbit::flow::{ChrysaetosBitFlow, CRHRes};
use varbit::json::JsonValue;
use varbit::row::Row;

fn s(text: &str) -> String {
    text.to_string()
}

fn obj(entries: Vec<(&str, JsonValue)>) -> JsonValue {
    JsonValue::Obj(entries.into_iter().map(|(k, v)| (k.to_string(), v)).collect())
}

#[test]
fn property_of_flat_object() {
    let flow = ChrysaetosBitFlow::from_sep(s("_"));
    let r: CRHRes = flow.property(obj(vec![
        ("name", JsonValue::Str(s("ace"))),
        ("age", JsonValue::Int(18)),
        ("ok", JsonValue::Bool(true)),
        ("gone", JsonValue::Null),
    ]));
    assert_eq!(r.name, "");
    assert_eq!(r.property_type, "object");
    assert_eq!(r.props.len(), 4);
    assert_eq!(r.props[0].name, "name");
    assert_eq!(r.props[0].property_type, "string");
    assert_eq!(r.props[1].property_type, "number");
    assert_eq!(r.props[2].property_type, "boolean");
    assert_eq!(r.props[3].property_type, "null");
}

#[test]
fn property_of_nested_values() {
    let flow = ChrysaetosBitFlow::new();
    let r = flow.property(obj(vec![(
        "user",
        obj(vec![("age", JsonValue::Int(1))]),
    )]));
    assert_eq!(r.props.len(), 1);
    assert_eq!(r.props[0].name, "user");
    assert_eq!(r.props[0].property_type, "object");
    assert_eq!(r.props[0].props[0].name, "age");
    assert_eq!(r.props[0].props[0].property_type, "number");

    let r = flow.property(JsonValue::Arr(vec![JsonValue::Str(s("x"))]));
    assert_eq!(r.property_type, "array");
    assert_eq!(r.props.len(), 1);
    assert_eq!(r.props[0].property_type, "string");

    let r = flow.property(JsonValue::Arr(Vec::new()));
    assert_eq!(r.property_type, "array");
    assert_eq!(r.props.len(), 1);
    assert_eq!(r.props[0].property_type, "null");

    let r = flow.property(JsonValue::Int(3));
    assert_eq!(r.property_type, "number");
    assert!(r.props.is_empty());
}

#[test]
fn row_insert_replaces() {
    let mut row = Row::new();
    row.insert(s("a"), JsonValue::Int(1));
    row.insert(s("b"), JsonValue::Int(2));
    assert_eq!(row.len(), 2);
    row.insert(s("a"), JsonValue::Int(9));
    assert_eq!(row.len(), 2);
    match row.get(&s("a")) {
        Some(JsonValue::Int(9)) => {}
        other => panic!("unexpected {:?}", other),
    }
    assert!(row.contains_key(&s("b")));
    assert!(!row.contains_key(&s("c")));
    let copy = row.dup();
    assert_eq!(copy.get(&s("a")), row.get(&s("a")));
}

#[test]
fn json_member_lookup() {
    let v = obj(vec![("a", JsonValue::Int(1)), ("a", JsonValue::Int(2))]);
    match v.get_member(&s("a")) {
        Some(JsonValue::Int(2)) => {}
        other => panic!("unexpected {:?}", other),
    }
    assert!(v.get_member(&s("b")).is_none());
    assert!(JsonValue::Null.get_member(&s("a")).is_none());

    let copy = v.dup();
    assert_eq!(copy, v);
}
