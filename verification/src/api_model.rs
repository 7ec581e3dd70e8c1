use vstd::prelude::*;

use crate::config::{valid_chrysaetos_cfg, valid_kafka_dst_req, valid_kafka_src_req};
use crate::json::JsonValue;
use crate::task_model::Task;

verus! {

/// The code every successful response carries.
pub const ERR_OK: i64 = 10000;

/// The code for an unsupported source or sink type.
pub const ERR_UNSUPPORTED_PLUGIN: i64 = 10006;

/// The code for a configuration that fails validation.
pub const ERR_INVALID_CONFIG: i64 = 400;

/// The code for an update refused while the task runs.
pub const ERR_ALREADY_RUNNING: i64 = 10008;

/// The code for a catalog write failure.
pub const ERR_SAVE_FAILED: i64 = 10005;

/// The code for a catalog read failure.
pub const ERR_READ_FAILED: i64 = 10003;

/// The code for a task that cannot be found on the start path.
pub const ERR_NOT_FOUND: i64 = 10001;

/// The code for a task that cannot be found on the fetch path.
pub const ERR_FETCH_NOT_FOUND: i64 = 10200;

/// The code for a status write that fails after a dispatch.
pub const ERR_START_STATUS: i64 = 10109;

/// A request to cancel one task.
pub struct CancelTaskReq {
    pub task_id: String,
}

/// A request that names one task.
pub struct NewTaskRequest2 {
    pub task_id: String,
}

/// One key/value pair of a diagnostic response.
pub struct Data {
    pub key: String,
    pub value: String,
}

/// A request for one page of the task list.
pub struct FetchTaskListReq {
    pub status: i32,
    pub page_size: i32,
    pub page: i32,
}

/// A request for one task by id.
pub struct FetchTaskRequest {
    pub task_id: String,
}

/// A request for the number of tasks in one status.
pub struct FetchCountReq {
    pub status: i32,
}

/// A request to start one task.
pub struct StartTaskingRequest {
    pub task_id: String,
}

/// An update of a stored task; the configuration fields carry JSON
/// documents rendered as text.
pub struct UpdateTaskRequest {
    pub id: String,
    pub name: String,
    pub src_type: String,
    pub src_cfg: String,
    pub dst_type: String,
    pub dst_cfg: String,
    pub tasking_cfg: String,
    pub debug_text: String,
    pub properties: String,
}

impl UpdateTaskRequest {
    /// The stored form of the update: the named fields carried over,
    /// every other column left at its zero value for the write to
    /// fill.
    pub fn to_task(&self) -> (t: Task)
        ensures
            t.id@ == self.id@,
            t.name@ == self.name@,
            t.src_type@ == self.src_type@,
            t.src_cfg@ == self.src_cfg@,
            t.dst_type@ == self.dst_type@,
            t.dst_cfg@ == self.dst_cfg@,
            t.tasking_cfg@ == self.tasking_cfg@,
            t.debug_text@ == self.debug_text@,
            t.properties@ == self.properties@,
            t.status == 0,
            t.last_heartbeat == 0,
            t.created_at == 0,
            t.updated_at == 0,
            t.deleted_at == 0,
    {
        Task {
            id: self.id.clone(),
            name: self.name.clone(),
            last_heartbeat: 0,
            src_type: self.src_type.clone(),
            dst_type: self.dst_type.clone(),
            src_cfg: self.src_cfg.clone(),
            dst_cfg: self.dst_cfg.clone(),
            status: 0,
            created_at: 0,
            updated_at: 0,
            deleted_at: 0,
            tasking_cfg: self.tasking_cfg.clone(),
            debug_text: self.debug_text.clone(),
            properties: self.properties.clone(),
        }
    }
}

/// The checks a new task passes before it is persisted, in order:
/// known source type, known sink type, then the three configuration
/// documents. The result is `Ok`, or the first failure's code.
pub fn admit_new_task(
    src_type: &String,
    dst_type: &String,
    src_cfg: &JsonValue,
    dst_cfg: &JsonValue,
    tasking_cfg: &JsonValue,
) -> (r: Result<(), (i64, String)>)
    ensures
        r is Ok <==> src_type@ == "kafka"@ && dst_type@ == "kafka"@ && valid_kafka_src_req(
            src_cfg@,
        ) && valid_kafka_dst_req(dst_cfg@) && valid_chrysaetos_cfg(tasking_cfg@),
        src_type@ != "kafka"@ ==> r is Err && r->Err_0.0 == ERR_UNSUPPORTED_PLUGIN,
        src_type@ == "kafka"@ && dst_type@ != "kafka"@ ==> r is Err && r->Err_0.0
            == ERR_UNSUPPORTED_PLUGIN,
        src_type@ == "kafka"@ && dst_type@ == "kafka"@ && !valid_kafka_src_req(src_cfg@) ==> r is Err
            && r->Err_0.0 == ERR_INVALID_CONFIG,
        src_type@ == "kafka"@ && dst_type@ == "kafka"@ && valid_kafka_src_req(src_cfg@)
            && !valid_kafka_dst_req(dst_cfg@) ==> r is Err && r->Err_0.0 == ERR_INVALID_CONFIG,
        src_type@ == "kafka"@ && dst_type@ == "kafka"@ && valid_kafka_src_req(src_cfg@)
            && valid_kafka_dst_req(dst_cfg@) && !valid_chrysaetos_cfg(tasking_cfg@) ==> r is Err
            && r->Err_0.0 == ERR_INVALID_CONFIG,
{
    let kafka = String::from_str("kafka");
    if !(*src_type == kafka) {
        return Err((ERR_UNSUPPORTED_PLUGIN, String::from_str("unsupported source type")));
    }
    if !(*dst_type == kafka) {
        return Err((ERR_UNSUPPORTED_PLUGIN, String::from_str("unsupported sink type")));
    }
    match crate::config::src_cfg_of(src_cfg) {
        Ok(_) => (),
        Err(e) => {
            return Err((ERR_INVALID_CONFIG, e));
        }
    }
    match crate::config::check_dst_cfg(dst_cfg) {
        Ok(_) => (),
        Err(e) => {
            return Err((ERR_INVALID_CONFIG, e));
        }
    }
    match crate::config::check_chrysaetos_bit_cfg(tasking_cfg) {
        Ok(_) => (),
        Err(e) => {
            return Err((ERR_INVALID_CONFIG, e));
        }
    }
    Ok(())
}

/// The checks an update passes, in order: the task must not be
/// running, then its three configuration documents must be valid.
pub fn check_update_task(
    running: bool,
    src_cfg: &JsonValue,
    dst_cfg: &JsonValue,
    tasking_cfg: &JsonValue,
) -> (r: Result<(), (i64, String)>)
    ensures
        r is Ok <==> !running && valid_kafka_src_req(src_cfg@) && valid_kafka_dst_req(dst_cfg@)
            && valid_chrysaetos_cfg(tasking_cfg@),
        running ==> r is Err && r->Err_0.0 == ERR_ALREADY_RUNNING,
        !running && !valid_kafka_src_req(src_cfg@) ==> r is Err && r->Err_0.0
            == ERR_INVALID_CONFIG,
        !running && valid_kafka_src_req(src_cfg@) && !valid_kafka_dst_req(dst_cfg@) ==> r is Err
            && r->Err_0.0 == ERR_INVALID_CONFIG,
        !running && valid_kafka_src_req(src_cfg@) && valid_kafka_dst_req(dst_cfg@)
            && !valid_chrysaetos_cfg(tasking_cfg@) ==> r is Err && r->Err_0.0
            == ERR_INVALID_CONFIG,
{
    if running {
        return Err((ERR_ALREADY_RUNNING, String::from_str("task is running")));
    }
    match crate::config::src_cfg_of(src_cfg) {
        Ok(_) => (),
        Err(e) => {
            return Err((ERR_INVALID_CONFIG, e));
        }
    }
    match crate::config::check_dst_cfg(dst_cfg) {
        Ok(_) => (),
        Err(e) => {
            return Err((ERR_INVALID_CONFIG, e));
        }
    }
    match crate::config::check_chrysaetos_bit_cfg(tasking_cfg) {
        Ok(_) => (),
        Err(e) => {
            return Err((ERR_INVALID_CONFIG, e));
        }
    }
    Ok(())
}

/// Whether a connect test supports the requested system.
pub fn connect_testing_supported(detect_type: &String) -> (r: bool)
    ensures
        r == (detect_type@ == "kafka"@),
{
    let kafka = String::from_str("kafka");
    *detect_type == kafka
}

} // verus!
