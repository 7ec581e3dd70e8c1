use vstd::prelude::*;

verus! {

/// The response envelope every endpoint answers with: a numeric
/// outcome code, a message, and the payload.
pub struct Whortleberry<T> {
    pub err_no: i64,
    pub err_msg: String,
    pub data: T,
}

/// The brief form of a task that status answers carry.
pub struct Task {
    pub id: String,
    pub name: String,
    pub last_heartbeat: i64,
}

} // verus!
