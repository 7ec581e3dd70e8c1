use vstd::prelude::*;

use crate::flatten::{str_set, ChrysaetosBit, ChrysaetosBitConfig, FlattenCfg};
use crate::json::JsonValue;
use crate::registry::TaskRegistry;

verus! {

/// How many messages the per-task queue holds before the source
/// worker suspends: the backpressure bound.
pub const QUEUE_CAPACITY: usize = 20;

/// One message handed from a source worker to its sink worker: the
/// group id that links every derived row back to the source record,
/// and the decoded document.
pub struct Msg {
    pub g_id: String,
    pub value: JsonValue,
}

impl Msg {
    /// A message with the given group id and document.
    pub fn new(g_id: String, value: JsonValue) -> (m: Msg)
        ensures
            m.g_id@ == g_id@,
            m.value == value,
    {
        Msg { g_id, value }
    }
}

/// What a dispatch request decides before any worker is launched.
pub enum DispatchDecision {
    AlreadyRunning,
    UnknownDstType,
    UnknownSrcType,
    Launch,
}

/// The checks a dispatch performs under the registry lock, in order:
/// the task must not be registered, and both plugin names must be
/// known. Only `Launch` lets the workers start.
pub fn plan_dispatch(reg: &TaskRegistry, task_id: &String, src_type: &String, dst_type: &String) -> (d:
    DispatchDecision)
    ensures
        d is AlreadyRunning <==> reg.ids().contains(task_id@),
        d is UnknownDstType <==> !reg.ids().contains(task_id@) && dst_type@ != "kafka"@,
        d is UnknownSrcType <==> !reg.ids().contains(task_id@) && dst_type@ == "kafka"@
            && src_type@ != "kafka"@,
        d is Launch <==> !reg.ids().contains(task_id@) && dst_type@ == "kafka"@ && src_type@
            == "kafka"@,
{
    let kafka = String::from_str("kafka");
    if reg.contains(task_id) {
        DispatchDecision::AlreadyRunning
    } else if !(*dst_type == kafka) {
        DispatchDecision::UnknownDstType
    } else if !(*src_type == kafka) {
        DispatchDecision::UnknownSrcType
    } else {
        DispatchDecision::Launch
    }
}

/// Relies on uuid's `Uuid::new_v4` rendered through `Display`: a
/// fresh v4 uuid in hyphenated form, 36 characters. Nothing else is
/// promised: the value is random.
#[verifier::external_body]
fn fresh_uuid() -> (r: String)
    ensures
        r@.len() == 36,
{
    uuid::Uuid::new_v4().to_string()
}

/// What a source worker does with one fetched record, after the edge
/// has read the key and decoded the payload: an undecodable or null
/// document is skipped; anything else is delivered under the record's
/// key, or under a fresh unique id when the key is absent or empty.
pub fn source_step(key: Option<String>, decoded: Option<JsonValue>) -> (r: Option<Msg>)
    ensures
        match decoded {
            None => r is None,
            Some(v) => if v@ is Null {
                r is None
            } else {
                r is Some && r->0.value == v && (match key {
                    Some(k) => if k@.len() > 0 {
                        r->0.g_id@ == k@
                    } else {
                        r->0.g_id@.len() == 36
                    },
                    None => r->0.g_id@.len() == 36,
                })
            },
        },
{
    let value = match decoded {
        None => {
            return None;
        }
        Some(v) => v,
    };
    match &value {
        JsonValue::Null => None,
        _ => {
            let g_id = match key {
                Some(k) => {
                    if k.as_str().is_empty() {
                        fresh_uuid()
                    } else {
                        k
                    }
                }
                None => fresh_uuid(),
            };
            Some(Msg::new(g_id, value))
        }
    }
}

/// The flattener a sink worker runs: the task's own configuration
/// when one is given, else the long-standing defaults (separator
/// `"_"`, depth cap 32, and the `ts` path pruned).
pub fn sink_flattener(task_id: String, cfg: Option<ChrysaetosBitConfig>) -> (r: ChrysaetosBit)
    ensures
        match cfg {
            Some(c) => r@ == (FlattenCfg {
                sep: c.sep@,
                max_depth: c.max_depth as int,
                ignore: str_set(c.ignore@),
                fold: str_set(c.fold@),
            }),
            None => r@ == (FlattenCfg {
                sep: "_"@,
                max_depth: 32,
                ignore: Set::<Seq<char>>::empty().insert("ts"@),
                fold: Set::<Seq<char>>::empty(),
            }),
        },
{
    match cfg {
        Some(c) => ChrysaetosBit::new_cfg(task_id, c.sep, c.max_depth, c.fold, c.ignore),
        None => {
            let mut ignore: Vec<String> = Vec::new();
            ignore.push(String::from_str("ts"));
            let fold: Vec<String> = Vec::new();
            let ghost ig = ignore@;
            let ghost fl = fold@;
            let r = ChrysaetosBit::new_cfg(
                task_id,
                String::from_str("_"),
                32,
                fold,
                ignore,
            );
            proof {
                assert(str_set(ig) =~= Set::<Seq<char>>::empty().insert("ts"@)) by {
                    assert(ig[0]@ == "ts"@);
                }
                assert(str_set(fl) =~= Set::<Seq<char>>::empty());
            }
            r
        }
    }
}

} // verus!
