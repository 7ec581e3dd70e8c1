use varbit::flatten::ChrysaetosBit;
use varbit::json::JsonValue;
use varbit::row::Row;

fn s(text: &str) -> String {
    text.to_string()
}

fn obj(entries: Vec<(&str, JsonValue)>) -> JsonValue {
    JsonValue::Obj(entries.into_iter().map(|(k, v)| (k.to_string(), v)).collect())
}

fn get_int(row: &Row, key: &str) -> i64 {
    match row.get(&key.to_string()) {
        Some(JsonValue::Int(i)) => *i,
        other => panic!("expected an integer under {}, got {:?}", key, other),
    }
}

fn get_str(row: &Row, key: &str) -> String {
    match row.get(&key.to_string()) {
        Some(JsonValue::Str(v)) => v.clone(),
        other => panic!("expected a string under {}, got {:?}", key, other),
    }
}

#[test]
fn lib_it_works() {}

#[test]
fn test_parser_with_ignore() {
    let ignore = vec![s("name")];
    let cry = ChrysaetosBit::new_cfg(s("test_parser_with_ignore"), s("_"), -1, Vec::new(), ignore);
    let res = cry.parse(
        &s("test_parser_with_ignore"),
        &obj(vec![
            ("name", JsonValue::Str(s("ace"))),
            (
                "list",
                JsonValue::Arr(vec![JsonValue::Int(1), JsonValue::Int(2), JsonValue::Int(3)]),
            ),
            (
                "user",
                obj(vec![
                    ("age", JsonValue::Int(18)),
                    ("area", JsonValue::Str(s("cantonese"))),
                ]),
            ),
        ]),
    );
    assert_eq!(res.len(), 3);
    println!("len {}", res.len());
    for row in &res {
        assert!(row.get(&s("name")).is_none());
        assert_eq!(get_int(row, "user_age"), 18);
        assert_eq!(get_str(row, "user_area"), "cantonese");
        assert!(row.get(&s("list")).is_some());
    }
}

#[test]
fn task_it_works() {
    let cry = ChrysaetosBit::new(s("test_task"), s("_"), 10);
    let res = cry.parse(&s("test"), &obj(vec![("name", JsonValue::Str(s("ace")))]));
    assert_eq!(res.len(), 1);

    let res = cry.parse(
        &s("test"),
        &JsonValue::Arr(vec![JsonValue::Bool(true), JsonValue::Bool(true)]),
    );
    assert_eq!(res.len(), 2);
    println!("res {:?}", res);
}

#[test]
fn scalar_and_array_mix() {
    let cry = ChrysaetosBit::new(s("t"), s("_"), 32);
    let res = cry.parse(
        &s("g"),
        &obj(vec![
            ("foo", JsonValue::Str(s("baz"))),
            (
                "complex",
                JsonValue::Arr(vec![JsonValue::Int(1), JsonValue::Int(2), JsonValue::Int(3)]),
            ),
        ]),
    );
    assert_eq!(res.len(), 3);
    for (i, row) in res.iter().enumerate() {
        assert_eq!(get_str(row, "foo"), "baz");
        assert_eq!(get_int(row, "complex"), (i + 1) as i64);
    }
}

#[test]
fn root_array_of_scalars() {
    let cry = ChrysaetosBit::new(s("t"), s("_"), 10);
    let res = cry.parse(
        &s("g"),
        &JsonValue::Arr(vec![JsonValue::Bool(true), JsonValue::Bool(true)]),
    );
    assert_eq!(res.len(), 2);
    for row in &res {
        assert_eq!(row.get(&s("")), Some(&JsonValue::Bool(true)));
    }
}

#[test]
fn array_siblings_multiply() {
    let cry = ChrysaetosBit::new(s("t"), s("_"), 32);
    let res = cry.parse(
        &s("g"),
        &obj(vec![
            (
                "a",
                JsonValue::Arr(vec![JsonValue::Int(1), JsonValue::Int(2)]),
            ),
            (
                "b",
                JsonValue::Arr(vec![JsonValue::Int(3), JsonValue::Int(4)]),
            ),
        ]),
    );
    assert_eq!(res.len(), 4);
    let pairs: Vec<(i64, i64)> = res.iter().map(|r| (get_int(r, "a"), get_int(r, "b"))).collect();
    assert_eq!(pairs, vec![(1, 3), (1, 4), (2, 3), (2, 4)]);
}

#[test]
fn nested_array_multiplies() {
    let cry = ChrysaetosBit::new(s("t"), s("_"), 32);
    let res = cry.parse(
        &s("g"),
        &obj(vec![(
            "a",
            JsonValue::Arr(vec![
                JsonValue::Arr(vec![JsonValue::Int(1), JsonValue::Int(2)]),
                JsonValue::Arr(vec![JsonValue::Int(3), JsonValue::Int(4)]),
            ]),
        )]),
    );
    assert_eq!(res.len(), 4);
    for row in &res {
        assert!(row.get(&s("a__")).is_some());
    }
}

#[test]
fn root_scalar_and_null_yield_nothing() {
    let cry = ChrysaetosBit::new(s("t"), s("_"), 32);
    assert_eq!(cry.parse(&s("g"), &JsonValue::Null).len(), 0);
    assert_eq!(cry.parse(&s("g"), &JsonValue::Int(7)).len(), 0);
    assert_eq!(cry.parse(&s("g"), &JsonValue::Str(s("x"))).len(), 0);
    assert_eq!(cry.parse(&s("g"), &JsonValue::Bool(false)).len(), 0);
}

#[test]
fn empty_containers() {
    let cry = ChrysaetosBit::new(s("t"), s("_"), 32);
    let res = cry.parse(&s("g"), &JsonValue::Obj(Vec::new()));
    assert_eq!(res.len(), 1);
    assert_eq!(res[0].get(&s("")), Some(&JsonValue::Obj(Vec::new())));

    let res = cry.parse(&s("g"), &JsonValue::Arr(Vec::new()));
    assert_eq!(res.len(), 1);
    assert_eq!(res[0].len(), 0);
}

#[test]
fn fold_keeps_subtree_unchanged() {
    let fold = vec![s("user")];
    let cry = ChrysaetosBit::new_cfg(s("t"), s("_"), 32, fold, Vec::new());
    let res = cry.parse(
        &s("g"),
        &obj(vec![
            ("name", JsonValue::Str(s("ace"))),
            ("user", obj(vec![("age", JsonValue::Int(18))])),
        ]),
    );
    assert_eq!(res.len(), 1);
    let row = &res[0];
    assert_eq!(
        row.get(&s("user")),
        Some(&obj(vec![("age", JsonValue::Int(18))]))
    );
    assert!(row.get(&s("user_age")).is_none());
    assert_eq!(get_str(row, "name"), "ace");
}

#[test]
fn depth_cap_truncates() {
    let cry = ChrysaetosBit::new(s("t"), s("_"), 0);
    let res = cry.parse(&s("g"), &obj(vec![("a", obj(vec![("b", JsonValue::Int(1))]))]));
    assert_eq!(res.len(), 1);
    assert_eq!(res[0].len(), 0);

    let cry = ChrysaetosBit::new(s("t"), s("_"), 1);
    let res = cry.parse(&s("g"), &obj(vec![("a", obj(vec![("b", JsonValue::Int(1))]))]));
    assert_eq!(res.len(), 1);
    assert_eq!(get_int(&res[0], "a_b"), 1);
}

#[test]
fn deterministic_output() {
    let make = || {
        let cry = ChrysaetosBit::new(s("t"), s("_"), 32);
        cry.parse(
            &s("g"),
            &obj(vec![
                ("x", JsonValue::Arr(vec![JsonValue::Int(1), JsonValue::Int(2)])),
                ("y", JsonValue::Str(s("z"))),
            ]),
        )
    };
    let a = make();
    let b = make();
    assert_eq!(a.len(), b.len());
    for (ra, rb) in a.iter().zip(b.iter()) {
        assert_eq!(ra.get(&s("x")), rb.get(&s("x")));
        assert_eq!(ra.get(&s("y")), rb.get(&s("y")));
    }
}

#[test]
fn ignore_prunes_inside_arrays() {
    let ignore = vec![s("complex")];
    let cry = ChrysaetosBit::new_cfg(s("t"), s("_"), 32, Vec::new(), ignore);
    let res = cry.parse(
        &s("g"),
        &obj(vec![
            ("foo", JsonValue::Str(s("baz"))),
            (
                "complex",
                JsonValue::Arr(vec![JsonValue::Int(1), JsonValue::Int(2)]),
            ),
        ]),
    );
    assert_eq!(res.len(), 1);
    assert!(res[0].get(&s("complex")).is_none());
    assert_eq!(get_str(&res[0], "foo"), "baz");
}

#[test]
fn ignore_of_root_array_parent_drops_rows() {
    let ignore = vec![s("")];
    let cry = ChrysaetosBit::new_cfg(s("t"), s("_"), 32, Vec::new(), ignore);
    let res = cry.parse(&s("g"), &JsonValue::Arr(vec![JsonValue::Int(1), JsonValue::Int(2)]));
    assert_eq!(res.len(), 0);
}

#[test]
fn fold_of_nested_path() {
    let fold = vec![s("user_info")];
    let cry = ChrysaetosBit::new_cfg(s("t"), s("_"), 32, fold, Vec::new());
    let res = cry.parse(
        &s("g"),
        &obj(vec![(
            "user",
            obj(vec![("info", obj(vec![("x", JsonValue::Int(1))]))]),
        )]),
    );
    assert_eq!(res.len(), 1);
    assert_eq!(
        res[0].get(&s("user_info")),
        Some(&obj(vec![("x", JsonValue::Int(1))]))
    );
    assert!(res[0].get(&s("user_info_x")).is_none());
}
