use vstd::prelude::*;

verus! {

/// The lifecycle states of a task, persisted as small integers.
pub enum TaskStatus {
    Created,
    Running,
    Cancel,
    Error,
    Deleted,
}

impl TaskStatus {
    /// The code under which this status is persisted.
    pub open spec fn status_code(self) -> int {
        match self {
            TaskStatus::Created => 1,
            TaskStatus::Running => 2,
            TaskStatus::Cancel => 3,
            TaskStatus::Error => 4,
            TaskStatus::Deleted => 5,
        }
    }

    /// The persisted code of this status.
    pub fn get_status(&self) -> (code: i32)
        ensures
            code == self.status_code(),
    {
        match self {
            TaskStatus::Created => 1,
            TaskStatus::Running => 2,
            TaskStatus::Cancel => 3,
            TaskStatus::Error => 4,
            TaskStatus::Deleted => 5,
        }
    }
}

/// A task definition as the catalog persists it. The configuration
/// fields carry JSON documents rendered as text.
pub struct Task {
    pub id: String,
    pub name: String,
    pub last_heartbeat: i64,
    pub src_type: String,
    pub dst_type: String,
    pub src_cfg: String,
    pub dst_cfg: String,
    pub status: i32,
    pub created_at: i64,
    pub updated_at: i64,
    pub deleted_at: i64,
    pub tasking_cfg: String,
    pub debug_text: String,
    pub properties: String,
}

/// Relies on bson's ObjectId (through mongodb): `ObjectId::new()`
/// draws a fresh twelve-byte id and `to_hex` renders it as exactly
/// twenty-four hex characters.
#[verifier::external_body]
fn new_object_id() -> (r: String)
    ensures
        r@.len() == 24,
{
    mongodb::bson::oid::ObjectId::new().to_hex()
}

/// Relies on chrono's `Utc::now`, read as whole seconds since the
/// Unix epoch. Nothing is promised of the value: it is the clock's.
#[verifier::external_body]
fn now_unix_seconds() -> (r: i64) {
    chrono::Utc::now().timestamp()
}

impl Task {
    /// A freshly created task: a new 24-hex id, status `Created`, no
    /// deletion mark, and creation, update and heartbeat stamps all
    /// set to the same current time.
    pub fn from_task_detail(
        name: &String,
        src_type: &String,
        dst_type: &String,
        src_cfg: &String,
        dst_cfg: &String,
        tasking_cfg: &String,
        debug_text: &String,
        properties: &String,
    ) -> (t: Task)
        ensures
            t.id@.len() == 24,
            t.name@ == name@,
            t.src_type@ == src_type@,
            t.dst_type@ == dst_type@,
            t.src_cfg@ == src_cfg@,
            t.dst_cfg@ == dst_cfg@,
            t.tasking_cfg@ == tasking_cfg@,
            t.debug_text@ == debug_text@,
            t.properties@ == properties@,
            t.status == TaskStatus::Created.status_code(),
            t.deleted_at == 0,
            t.created_at == t.updated_at,
            t.last_heartbeat == t.created_at,
    {
        let now = now_unix_seconds();
        Task {
            id: new_object_id(),
            name: name.clone(),
            last_heartbeat: now,
            src_type: src_type.clone(),
            dst_type: dst_type.clone(),
            src_cfg: src_cfg.clone(),
            dst_cfg: dst_cfg.clone(),
            status: TaskStatus::Created.get_status(),
            created_at: now,
            updated_at: now,
            deleted_at: 0,
            tasking_cfg: tasking_cfg.clone(),
            debug_text: debug_text.clone(),
            properties: properties.clone(),
        }
    }
}

} // verus!
