use varbit::api_model::{
    admit_new_task, check_update_task, connect_testing_supported, UpdateTaskRequest,
};
use varbit::flash::Whortleberry;
use varbit::catalog::{clamp_page, clamp_page_size, next_page, page_offset, RUNNING_PAGE_SIZE};
use varbit::config::{
    build_group_id, build_kafka_dst_config, build_kafka_source_config, check_cfg,
    check_chrysaetos_bit_cfg, check_dst_cfg, check_kafka_src, chrysaetos_cfg_of, src_cfg_of,
    DstConfigReq, KafkaDst, KafkaSrc, KafkaSrcCfg,
};
use varbit::json::JsonValue;
use varbit::registry::{TaskRegistry, Tasking};
use varbit::supervisor::{
    plan_dispatch, sink_flattener, source_step, DispatchDecision, Msg, QUEUE_CAPACITY,
};
use varbit::task_model::{Task, TaskStatus};

fn s(text: &str) -> String {
    text.to_string()
}

fn obj(entries: Vec<(&str, JsonValue)>) -> JsonValue {
    JsonValue::Obj(entries.into_iter().map(|(k, v)| (k.to_string(), v)).collect())
}

fn good_src_cfg() -> JsonValue {
    obj(vec![
        ("decoder", JsonValue::Str(s("json"))),
        ("broker", JsonValue::Str(s("localhost:9092"))),
        ("topic", JsonValue::Str(s("in"))),
    ])
}

fn good_dst_cfg() -> JsonValue {
    obj(vec![
        ("broker", JsonValue::Str(s("localhost:9092"))),
        ("topic", JsonValue::Str(s("out"))),
    ])
}

fn good_tasking_cfg() -> JsonValue {
    obj(vec![
        ("sep", JsonValue::Str(s("_"))),
        ("max_depth", JsonValue::Int(32)),
        ("ignore", JsonValue::Arr(vec![JsonValue::Str(s("ts"))])),
        ("fold", JsonValue::Arr(Vec::new())),
    ])
}

fn new_handle() -> Tasking {
    let (_ctx, handle) = tokio_context::context::Context::new();
    Tasking { handle }
}

#[test]
fn registry_insert_is_exclusive() {
    let mut reg = TaskRegistry::new();
    assert!(!reg.contains(&s("t1")));
    assert!(reg.insert(s("t1"), new_handle()));
    assert!(reg.contains(&s("t1")));
    assert!(!reg.insert(s("t1"), new_handle()));
    assert!(reg.contains(&s("t1")));
}

#[test]
fn registry_remove_and_cancel_frees_id() {
    let mut reg = TaskRegistry::new();
    assert!(reg.insert(s("t1"), new_handle()));
    assert!(reg.remove_and_cancel(&s("t1")));
    assert!(!reg.contains(&s("t1")));
    assert!(!reg.remove_and_cancel(&s("t1")));
    assert!(reg.insert(s("t1"), new_handle()));
    assert!(reg.remove(&s("t1")));
    assert!(!reg.contains(&s("t1")));
}

#[test]
fn dispatch_decisions() {
    let mut reg = TaskRegistry::new();
    let d = plan_dispatch(&reg, &s("t1"), &s("kafka"), &s("kafka"));
    assert!(matches!(d, DispatchDecision::Launch));
    let d = plan_dispatch(&reg, &s("t1"), &s("foo"), &s("kafka"));
    assert!(matches!(d, DispatchDecision::UnknownSrcType));
    let d = plan_dispatch(&reg, &s("t1"), &s("kafka"), &s("foo"));
    assert!(matches!(d, DispatchDecision::UnknownDstType));
    assert!(reg.insert(s("t1"), new_handle()));
    let d = plan_dispatch(&reg, &s("t1"), &s("kafka"), &s("kafka"));
    assert!(matches!(d, DispatchDecision::AlreadyRunning));
}

#[test]
fn queue_capacity_is_twenty() {
    assert_eq!(QUEUE_CAPACITY, 20);
}

#[test]
fn source_step_decisions() {
    assert!(source_step(Some(s("k")), None).is_none());
    assert!(source_step(Some(s("k")), Some(JsonValue::Null)).is_none());

    let m = source_step(Some(s("key-1")), Some(JsonValue::Bool(true))).unwrap();
    assert_eq!(m.g_id, "key-1");
    assert_eq!(m.value, JsonValue::Bool(true));

    let m = source_step(None, Some(JsonValue::Int(5))).unwrap();
    assert_eq!(m.g_id.len(), 36);
    let m2 = source_step(Some(s("")), Some(JsonValue::Int(5))).unwrap();
    assert_eq!(m2.g_id.len(), 36);
    assert_ne!(m.g_id, m2.g_id);
}

#[test]
fn msg_new_keeps_fields() {
    let m = Msg::new(s("g"), JsonValue::Int(1));
    assert_eq!(m.g_id, "g");
    assert_eq!(m.value, JsonValue::Int(1));
}

#[test]
fn sink_flattener_defaults_prune_ts() {
    let cry = sink_flattener(s("t"), None);
    let res = cry.parse(
        &s("g"),
        &obj(vec![("ts", JsonValue::Int(1)), ("x", JsonValue::Int(2))]),
    );
    assert_eq!(res.len(), 1);
    assert!(res[0].get(&s("ts")).is_none());
    match res[0].get(&s("x")) {
        Some(JsonValue::Int(2)) => {}
        other => panic!("unexpected value {:?}", other),
    }
}

#[test]
fn sink_flattener_uses_given_cfg() {
    let cfg = chrysaetos_cfg_of(&good_tasking_cfg()).unwrap();
    let cry = sink_flattener(s("t"), Some(cfg));
    let res = cry.parse(
        &s("g"),
        &obj(vec![("ts", JsonValue::Int(1)), ("x", JsonValue::Int(2))]),
    );
    assert_eq!(res.len(), 1);
    assert!(res[0].get(&s("ts")).is_none());
    assert!(res[0].get(&s("x")).is_some());
}

#[test]
fn config_validation_accepts_and_rejects() {
    assert!(src_cfg_of(&good_src_cfg()).is_ok());
    let c = src_cfg_of(&good_src_cfg()).unwrap();
    assert_eq!(c.broker, "localhost:9092");
    assert_eq!(c.topic, "in");
    assert_eq!(c.decoder, "json");

    assert!(src_cfg_of(&obj(vec![("broker", JsonValue::Str(s("b")))])).is_err());
    assert!(src_cfg_of(&obj(vec![
        ("decoder", JsonValue::Int(1)),
        ("broker", JsonValue::Str(s("b"))),
        ("topic", JsonValue::Str(s("t"))),
    ]))
    .is_err());
    assert!(src_cfg_of(&JsonValue::Arr(Vec::new())).is_err());

    assert!(check_dst_cfg(&good_dst_cfg()).is_ok());
    assert!(check_dst_cfg(&obj(vec![("broker", JsonValue::Str(s("b")))])).is_err());
    assert!(check_kafka_src(&good_dst_cfg()).is_ok());
    assert!(check_kafka_src(&obj(vec![("topic", JsonValue::Str(s("t")))])).is_err());

    let full = obj(vec![
        ("broker", JsonValue::Str(s("b"))),
        ("topic", JsonValue::Str(s("t"))),
        ("group_id", JsonValue::Str(s("g"))),
        ("decoder", JsonValue::Str(s("json"))),
        ("meta", obj(vec![("task_id", JsonValue::Str(s("id")))])),
    ]);
    assert!(check_cfg(&full).is_ok());
    assert!(check_cfg(&good_src_cfg()).is_err());
}

#[test]
fn chrysaetos_cfg_validation() {
    assert!(check_chrysaetos_bit_cfg(&good_tasking_cfg()).is_ok());
    let c = chrysaetos_cfg_of(&good_tasking_cfg()).unwrap();
    assert_eq!(c.sep, "_");
    assert_eq!(c.max_depth, 32);
    assert_eq!(c.ignore, vec![s("ts")]);
    assert!(c.fold.is_empty());

    let missing_sep = obj(vec![
        ("max_depth", JsonValue::Int(1)),
        ("ignore", JsonValue::Arr(Vec::new())),
        ("fold", JsonValue::Arr(Vec::new())),
    ]);
    assert!(check_chrysaetos_bit_cfg(&missing_sep).is_err());

    let bad_depth = obj(vec![
        ("sep", JsonValue::Str(s("_"))),
        ("max_depth", JsonValue::Str(s("deep"))),
        ("ignore", JsonValue::Arr(Vec::new())),
        ("fold", JsonValue::Arr(Vec::new())),
    ]);
    assert!(check_chrysaetos_bit_cfg(&bad_depth).is_err());

    let huge_depth = obj(vec![
        ("sep", JsonValue::Str(s("_"))),
        ("max_depth", JsonValue::Int(1i64 << 40)),
        ("ignore", JsonValue::Arr(Vec::new())),
        ("fold", JsonValue::Arr(Vec::new())),
    ]);
    assert!(check_chrysaetos_bit_cfg(&huge_depth).is_err());

    let bad_ignore = obj(vec![
        ("sep", JsonValue::Str(s("_"))),
        ("max_depth", JsonValue::Int(1)),
        ("ignore", JsonValue::Arr(vec![JsonValue::Int(1)])),
        ("fold", JsonValue::Arr(Vec::new())),
    ]);
    assert!(check_chrysaetos_bit_cfg(&bad_ignore).is_err());
}

#[test]
fn admit_new_task_codes() {
    let ok = admit_new_task(
        &s("kafka"),
        &s("kafka"),
        &good_src_cfg(),
        &good_dst_cfg(),
        &good_tasking_cfg(),
    );
    assert!(ok.is_ok());

    let e = admit_new_task(
        &s("pulsar"),
        &s("kafka"),
        &good_src_cfg(),
        &good_dst_cfg(),
        &good_tasking_cfg(),
    )
    .unwrap_err();
    assert_eq!(e.0, 10006);

    let e = admit_new_task(
        &s("kafka"),
        &s("pulsar"),
        &good_src_cfg(),
        &good_dst_cfg(),
        &good_tasking_cfg(),
    )
    .unwrap_err();
    assert_eq!(e.0, 10006);

    let e = admit_new_task(
        &s("kafka"),
        &s("kafka"),
        &JsonValue::Null,
        &good_dst_cfg(),
        &good_tasking_cfg(),
    )
    .unwrap_err();
    assert_eq!(e.0, 400);
}

#[test]
fn check_update_task_codes() {
    let e = check_update_task(true, &good_src_cfg(), &good_dst_cfg(), &good_tasking_cfg())
        .unwrap_err();
    assert_eq!(e.0, 10008);

    let ok = check_update_task(false, &good_src_cfg(), &good_dst_cfg(), &good_tasking_cfg());
    assert!(ok.is_ok());

    let e = check_update_task(false, &good_src_cfg(), &JsonValue::Null, &good_tasking_cfg())
        .unwrap_err();
    assert_eq!(e.0, 400);
}

#[test]
fn group_id_and_worker_configs() {
    assert_eq!(build_group_id(&s("abc")), "verb-abc");
    let src = KafkaSrcCfg { decoder: s("json"), broker: s("b"), topic: s("t") };
    let full = build_kafka_source_config(&src, &s("id1"));
    assert_eq!(full.broker, "b");
    assert_eq!(full.topic, "t");
    assert_eq!(full.decoder, "json");
    assert_eq!(full.group_id, "verb-id1");
    assert_eq!(full.meta.task_id, "id1");

    let dst = DstConfigReq { broker: s("b"), topic: s("t") };
    let full = build_kafka_dst_config(&dst, &s("id1"));
    assert_eq!(full.broker, "b");
    assert_eq!(full.topic, "t");
    assert_eq!(full.encoder, "json");
    assert_eq!(full.meta.task_id, "id1");
}

#[test]
fn plugin_names() {
    assert_eq!((KafkaSrc {}).src_name(), "kafka");
    assert_eq!((KafkaDst {}).dst_name(), "kafka");
}

#[test]
fn paging_rules() {
    assert_eq!(clamp_page_size(0), 100);
    assert_eq!(clamp_page_size(-5), 100);
    assert_eq!(clamp_page_size(150), 100);
    assert_eq!(clamp_page_size(100), 100);
    assert_eq!(clamp_page_size(40), 40);
    assert_eq!(clamp_page(-3), 0);
    assert_eq!(clamp_page(0), 0);
    assert_eq!(clamp_page(7), 7);
    assert_eq!(page_offset(3, 100), 300);
    assert_eq!(page_offset(0, 100), 0);
    assert_eq!(RUNNING_PAGE_SIZE, 100);
    assert_eq!(next_page(0, 100, 100), Some(1));
    assert_eq!(next_page(4, 99, 100), None);
    assert_eq!(next_page(4, 0, 100), None);
}

#[test]
fn task_status_codes() {
    assert_eq!(TaskStatus::Created.get_status(), 1);
    assert_eq!(TaskStatus::Running.get_status(), 2);
    assert_eq!(TaskStatus::Cancel.get_status(), 3);
    assert_eq!(TaskStatus::Error.get_status(), 4);
    assert_eq!(TaskStatus::Deleted.get_status(), 5);
}

#[test]
fn from_task_detail_fills_task() {
    let t = Task::from_task_detail(
        &s("demo"),
        &s("kafka"),
        &s("kafka"),
        &s("{}"),
        &s("{}"),
        &s("{}"),
        &s(""),
        &s(""),
    );
    assert_eq!(t.id.len(), 24);
    assert!(t.id.chars().all(|c| c.is_ascii_hexdigit()));
    assert_eq!(t.name, "demo");
    assert_eq!(t.status, 1);
    assert_eq!(t.deleted_at, 0);
    assert_eq!(t.created_at, t.updated_at);
    assert_eq!(t.last_heartbeat, t.created_at);

    let t2 = Task::from_task_detail(
        &s("demo"),
        &s("kafka"),
        &s("kafka"),
        &s("{}"),
        &s("{}"),
        &s("{}"),
        &s(""),
        &s(""),
    );
    assert_ne!(t.id, t2.id);
}

#[test]
fn update_request_to_task() {
    let req = UpdateTaskRequest {
        id: s("id9"),
        name: s("n"),
        src_type: s("kafka"),
        src_cfg: s("{\"a\":1}"),
        dst_type: s("kafka"),
        dst_cfg: s("{}"),
        tasking_cfg: s("{}"),
        debug_text: s("d"),
        properties: s("p"),
    };
    let t = req.to_task();
    assert_eq!(t.id, "id9");
    assert_eq!(t.name, "n");
    assert_eq!(t.src_cfg, "{\"a\":1}");
    assert_eq!(t.status, 0);
    assert_eq!(t.created_at, 0);
}

#[test]
fn connect_testing_detects_type() {
    assert!(connect_testing_supported(&s("kafka")));
    assert!(!connect_testing_supported(&s("mysql")));
}

#[test]
fn envelope_holds_payload() {
    let w = Whortleberry { err_no: 10000, err_msg: s("success"), data: s("ok") };
    assert_eq!(w.err_no, 10000);
    assert_eq!(w.err_msg, "success");
    assert_eq!(w.data, "ok");
}
