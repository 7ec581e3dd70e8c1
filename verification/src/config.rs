use vstd::prelude::*;

use crate::flatten::ChrysaetosBitConfig;
use crate::json::{json_view, list_views, obj_map, JsonValue, JsonView};

verus! {

/// Whether the document is an object whose member `key` is a string.
pub open spec fn member_is_str(v: JsonView, key: Seq<char>) -> bool {
    v is Obj && obj_map(v->Obj_0).contains_key(key) && obj_map(v->Obj_0)[key] is Str
}

/// The text of the object's string member `key`.
pub open spec fn member_str(v: JsonView, key: Seq<char>) -> Seq<char> {
    obj_map(v->Obj_0)[key]->Str_0
}

/// Whether every element of the list is a JSON string.
pub open spec fn all_strings(l: Seq<JsonView>) -> bool {
    forall|i: int| 0 <= i < l.len() ==> (#[trigger] l[i]) is Str
}

/// The configuration of a Kafka source worker.
pub struct KafkaSourceConfig {
    pub broker: String,
    pub topic: String,
    pub group_id: String,
    pub decoder: String,
    pub meta: KafkaSourceMeta,
}

/// The task a Kafka source works for.
pub struct KafkaSourceMeta {
    pub task_id: String,
}

/// The configuration of a Kafka sink worker.
pub struct KafkaDstConfig {
    pub broker: String,
    pub topic: String,
    pub encoder: String,
    pub meta: KafkaDstMeta,
}

/// The task a Kafka sink works for.
pub struct KafkaDstMeta {
    pub task_id: String,
}

/// The source plugin for Kafka. Its worker loop performs I/O and runs
/// outside the library; the plugin's name, schema and decisions live
/// here.
pub struct KafkaSrc {}

/// The sink plugin for Kafka.
pub struct KafkaDst {}

impl KafkaSrc {
    /// The name under which the source plugin is registered.
    pub fn src_name(&self) -> (r: String)
        ensures
            r@ == "kafka"@,
    {
        String::from_str("kafka")
    }
}

impl KafkaDst {
    /// The name under which the sink plugin is registered.
    pub fn dst_name(&self) -> (r: String)
        ensures
            r@ == "kafka"@,
    {
        String::from_str("kafka")
    }
}

/// A full Kafka source configuration: broker, topic, group id and
/// decoder as strings, and a meta object naming the task.
pub open spec fn valid_kafka_source_cfg(v: JsonView) -> bool {
    &&& member_is_str(v, "broker"@)
    &&& member_is_str(v, "topic"@)
    &&& member_is_str(v, "group_id"@)
    &&& member_is_str(v, "decoder"@)
    &&& v is Obj
    &&& obj_map(v->Obj_0).contains_key("meta"@)
    &&& obj_map(v->Obj_0)["meta"@] is Obj
    &&& member_is_str(obj_map(v->Obj_0)["meta"@], "task_id"@)
}

/// What a task's stored source configuration must provide: decoder,
/// broker and topic as strings.
pub open spec fn valid_kafka_src_req(v: JsonView) -> bool {
    &&& member_is_str(v, "decoder"@)
    &&& member_is_str(v, "broker"@)
    &&& member_is_str(v, "topic"@)
}

/// What a sink configuration must provide: broker and topic as
/// strings.
pub open spec fn valid_kafka_dst_req(v: JsonView) -> bool {
    &&& member_is_str(v, "broker"@)
    &&& member_is_str(v, "topic"@)
}

/// The source fields a task stores: what the admission layer checks
/// and the start path reads.
pub struct KafkaSrcCfg {
    pub decoder: String,
    pub broker: String,
    pub topic: String,
}

/// The sink fields a task stores.
pub struct DstConfigReq {
    pub broker: String,
    pub topic: String,
}

/// Reads and checks a stored source configuration: `Ok` exactly when
/// decoder, broker and topic are present as strings, with those
/// texts.
pub fn src_cfg_of(v: &JsonValue) -> (r: Result<KafkaSrcCfg, String>)
    ensures
        r is Ok <==> valid_kafka_src_req(v@),
        match r {
            Ok(c) => c.decoder@ == member_str(v@, "decoder"@) && c.broker@ == member_str(
                v@,
                "broker"@,
            ) && c.topic@ == member_str(v@, "topic"@),
            Err(_) => true,
        },
{
    let decoder = match v.get_member(&String::from_str("decoder")) {
        Some(d) => {
            if d.is_string() {
                d
            } else {
                return Err(String::from_str("decoder is not a string"));
            }
        }
        None => {
            return Err(String::from_str("missing decoder"));
        }
    };
    let broker = match v.get_member(&String::from_str("broker")) {
        Some(d) => {
            if d.is_string() {
                d
            } else {
                return Err(String::from_str("broker is not a string"));
            }
        }
        None => {
            return Err(String::from_str("missing broker"));
        }
    };
    let topic = match v.get_member(&String::from_str("topic")) {
        Some(d) => {
            if d.is_string() {
                d
            } else {
                return Err(String::from_str("topic is not a string"));
            }
        }
        None => {
            return Err(String::from_str("missing topic"));
        }
    };
    match (decoder, broker, topic) {
        (JsonValue::Str(d), JsonValue::Str(b), JsonValue::Str(t)) => Ok(
            KafkaSrcCfg { decoder: d.clone(), broker: b.clone(), topic: t.clone() },
        ),
        _ => Err(String::from_str("invalid source configuration")),
    }
}

/// Reads and checks a stored sink configuration: `Ok` exactly when
/// broker and topic are present as strings, with those texts.
pub fn check_dst_cfg(v: &JsonValue) -> (r: Result<DstConfigReq, String>)
    ensures
        r is Ok <==> valid_kafka_dst_req(v@),
        match r {
            Ok(c) => c.broker@ == member_str(v@, "broker"@) && c.topic@ == member_str(
                v@,
                "topic"@,
            ),
            Err(_) => true,
        },
{
    let broker = match v.get_member(&String::from_str("broker")) {
        Some(d) => {
            if d.is_string() {
                d
            } else {
                return Err(String::from_str("broker is not a string"));
            }
        }
        None => {
            return Err(String::from_str("missing broker"));
        }
    };
    let topic = match v.get_member(&String::from_str("topic")) {
        Some(d) => {
            if d.is_string() {
                d
            } else {
                return Err(String::from_str("topic is not a string"));
            }
        }
        None => {
            return Err(String::from_str("missing topic"));
        }
    };
    match (broker, topic) {
        (JsonValue::Str(b), JsonValue::Str(t)) => Ok(
            DstConfigReq { broker: b.clone(), topic: t.clone() },
        ),
        _ => Err(String::from_str("invalid sink configuration")),
    }
}

/// Checks a full source configuration document, meta included: `Ok`
/// exactly when every required member is present with the right shape.
pub fn check_cfg(cfg: &JsonValue) -> (r: Result<(), String>)
    ensures
        r is Ok <==> valid_kafka_source_cfg(cfg@),
{
    let broker = match cfg.get_member(&String::from_str("broker")) {
        Some(d) => d,
        None => {
            return Err(String::from_str("missing broker"));
        }
    };
    if !broker.is_string() {
        return Err(String::from_str("broker is not a string"));
    }
    let topic = match cfg.get_member(&String::from_str("topic")) {
        Some(d) => d,
        None => {
            return Err(String::from_str("missing topic"));
        }
    };
    if !topic.is_string() {
        return Err(String::from_str("topic is not a string"));
    }
    let group_id = match cfg.get_member(&String::from_str("group_id")) {
        Some(d) => d,
        None => {
            return Err(String::from_str("missing group_id"));
        }
    };
    if !group_id.is_string() {
        return Err(String::from_str("group_id is not a string"));
    }
    let decoder = match cfg.get_member(&String::from_str("decoder")) {
        Some(d) => d,
        None => {
            return Err(String::from_str("missing decoder"));
        }
    };
    if !decoder.is_string() {
        return Err(String::from_str("decoder is not a string"));
    }
    let meta = match cfg.get_member(&String::from_str("meta")) {
        Some(d) => d,
        None => {
            return Err(String::from_str("missing meta"));
        }
    };
    let task_id = match meta.get_member(&String::from_str("task_id")) {
        Some(d) => d,
        None => {
            return Err(String::from_str("missing meta.task_id"));
        }
    };
    if !task_id.is_string() {
        return Err(String::from_str("meta.task_id is not a string"));
    }
    Ok(())
}

/// Checks a connect-test request: broker and topic as strings, the
/// two fields a transient consumer needs.
pub fn check_kafka_src(cfg: &JsonValue) -> (r: Result<(), String>)
    ensures
        r is Ok <==> valid_kafka_dst_req(cfg@),
{
    match check_dst_cfg(cfg) {
        Ok(_) => Ok(()),
        Err(e) => Err(e),
    }
}

/// The consumer group a task's source subscribes under.
pub fn build_group_id(task_id: &String) -> (r: String)
    ensures
        r@ == "verb-"@ + task_id@,
{
    let mut s = String::from_str("verb-");
    s.append(task_id.as_str());
    s
}

/// The full source configuration handed to a source worker when a
/// task starts: the task's stored fields, the group id derived from
/// the task id, and the task id in the meta object.
pub fn build_kafka_source_config(src: &KafkaSrcCfg, task_id: &String) -> (r: KafkaSourceConfig)
    ensures
        r.broker@ == src.broker@,
        r.topic@ == src.topic@,
        r.decoder@ == src.decoder@,
        r.group_id@ == "verb-"@ + task_id@,
        r.meta.task_id@ == task_id@,
{
    KafkaSourceConfig {
        broker: src.broker.clone(),
        topic: src.topic.clone(),
        group_id: build_group_id(task_id),
        decoder: src.decoder.clone(),
        meta: KafkaSourceMeta { task_id: task_id.clone() },
    }
}

/// The full sink configuration handed to a sink worker when a task
/// starts; the encoder is always JSON.
pub fn build_kafka_dst_config(dst: &DstConfigReq, task_id: &String) -> (r: KafkaDstConfig)
    ensures
        r.broker@ == dst.broker@,
        r.topic@ == dst.topic@,
        r.encoder@ == "json"@,
        r.meta.task_id@ == task_id@,
{
    KafkaDstConfig {
        broker: dst.broker.clone(),
        topic: dst.topic.clone(),
        encoder: String::from_str("json"),
        meta: KafkaDstMeta { task_id: task_id.clone() },
    }
}

/// A flattener configuration document: separator as a string, depth
/// cap as an integer that fits the counter, and the pruned and folded
/// path lists as arrays of strings.
pub open spec fn valid_chrysaetos_cfg(v: JsonView) -> bool {
    &&& member_is_str(v, "sep"@)
    &&& v is Obj
    &&& obj_map(v->Obj_0).contains_key("max_depth"@)
    &&& obj_map(v->Obj_0)["max_depth"@] is Int
    &&& -0x8000_0000 <= obj_map(v->Obj_0)["max_depth"@]->Int_0 < 0x8000_0000
    &&& obj_map(v->Obj_0).contains_key("ignore"@)
    &&& obj_map(v->Obj_0)["ignore"@] is Arr
    &&& all_strings(obj_map(v->Obj_0)["ignore"@]->Arr_0)
    &&& obj_map(v->Obj_0).contains_key("fold"@)
    &&& obj_map(v->Obj_0)["fold"@] is Arr
    &&& all_strings(obj_map(v->Obj_0)["fold"@]->Arr_0)
}

/// The texts of a list of JSON strings, in order.
#[verifier::loop_isolation(false)]
fn str_items(l: &Vec<JsonValue>) -> (r: Option<Vec<String>>)
    ensures
        r is Some <==> all_strings(list_views(l@)),
        match r {
            Some(items) => items@.len() == l@.len() && forall|i: int|
                0 <= i < l@.len() ==> (#[trigger] items@[i])@ == list_views(l@)[i]->Str_0,
            None => true,
        },
{
    let mut out: Vec<String> = Vec::new();
    let mut i: usize = 0;
    while i < l.len()
        invariant
            i <= l@.len(),
            out@.len() == i as int,
            forall|t: int| 0 <= t < i as int ==> (#[trigger] list_views(l@)[t]) is Str,
            forall|t: int|
                0 <= t < i as int ==> (#[trigger] out@[t])@ == list_views(l@)[t]->Str_0,
        decreases l@.len() - i,
    {
        match &l[i] {
            JsonValue::Str(s) => {
                out.push(s.clone());
            }
            _ => {
                proof {
                    let ve = l@[i as int];
                    assert(json_view(ve) is Str ==> ve is Str);
                    assert(!(list_views(l@)[i as int] is Str));
                }
                return None;
            }
        }
        i = i + 1;
    }
    Some(out)
}

/// Reads a flattener configuration document into its parts: `Ok`
/// exactly when the document is valid, with the stated texts, cap and
/// path lists.
pub fn chrysaetos_cfg_of(v: &JsonValue) -> (r: Result<ChrysaetosBitConfig, String>)
    ensures
        r is Ok <==> valid_chrysaetos_cfg(v@),
        match r {
            Ok(c) => {
                &&& c.sep@ == member_str(v@, "sep"@)
                &&& c.max_depth as int == obj_map(v@->Obj_0)["max_depth"@]->Int_0
                &&& c.ignore@.len() == obj_map(v@->Obj_0)["ignore"@]->Arr_0.len()
                &&& forall|i: int|
                    0 <= i < c.ignore@.len() ==> (#[trigger] c.ignore@[i])@ == obj_map(
                        v@->Obj_0,
                    )["ignore"@]->Arr_0[i]->Str_0
                &&& c.fold@.len() == obj_map(v@->Obj_0)["fold"@]->Arr_0.len()
                &&& forall|i: int|
                    0 <= i < c.fold@.len() ==> (#[trigger] c.fold@[i])@ == obj_map(
                        v@->Obj_0,
                    )["fold"@]->Arr_0[i]->Str_0
            },
            Err(_) => true,
        },
{
    let sep = match v.get_member(&String::from_str("sep")) {
        Some(JsonValue::Str(s)) => s.clone(),
        Some(_) => {
            return Err(String::from_str("sep is not a string"));
        }
        None => {
            return Err(String::from_str("missing sep"));
        }
    };
    let max_depth: i32 = match v.get_member(&String::from_str("max_depth")) {
        Some(JsonValue::Int(d)) => {
            let d = *d;
            if d < -0x8000_0000i64 || d >= 0x8000_0000i64 {
                return Err(String::from_str("max_depth is out of range"));
            }
            d as i32
        }
        Some(_) => {
            return Err(String::from_str("max_depth is not an integer"));
        }
        None => {
            return Err(String::from_str("missing max_depth"));
        }
    };
    let ignore = match v.get_member(&String::from_str("ignore")) {
        Some(JsonValue::Arr(l)) => {
            match str_items(l) {
                Some(items) => items,
                None => {
                    return Err(String::from_str("ignore holds a non-string"));
                }
            }
        }
        Some(_) => {
            return Err(String::from_str("ignore is not an array"));
        }
        None => {
            return Err(String::from_str("missing ignore"));
        }
    };
    let fold = match v.get_member(&String::from_str("fold")) {
        Some(JsonValue::Arr(l)) => {
            match str_items(l) {
                Some(items) => items,
                None => {
                    return Err(String::from_str("fold holds a non-string"));
                }
            }
        }
        Some(_) => {
            return Err(String::from_str("fold is not an array"));
        }
        None => {
            return Err(String::from_str("missing fold"));
        }
    };
    Ok(ChrysaetosBitConfig { sep, max_depth, ignore, fold })
}

/// Checks a flattener configuration document.
pub fn check_chrysaetos_bit_cfg(conf: &JsonValue) -> (r: Result<(), String>)
    ensures
        r is Ok <==> valid_chrysaetos_cfg(conf@),
{
    match chrysaetos_cfg_of(conf) {
        Ok(_) => Ok(()),
        Err(e) => Err(e),
    }
}

} // verus!
