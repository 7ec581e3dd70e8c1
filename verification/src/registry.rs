use vstd::prelude::*;

verus! {

#[verifier::external_type_specification]
#[verifier::external_body]
pub struct ExContextHandle(tokio_context::context::Handle);

/// The in-memory handle of one running task: the cancellation handle
/// of the context its workers run under. Dropping or cancelling it
/// fires the context's done signal.
pub struct Tasking {
    pub handle: tokio_context::context::Handle,
}

/// Relies on tokio_context's Handle::cancel: consuming the handle
/// closes the cancel channel, so every context spawned from it reports
/// done at its next wait.
#[verifier::external_body]
fn cancel_handle(h: tokio_context::context::Handle) {
    h.cancel()
}

/// The set of task ids that a sequence of registry entries holds.
pub open spec fn reg_ids(s: Seq<(String, Tasking)>) -> Set<Seq<char>> {
    Set::new(|k: Seq<char>| exists|j: int| 0 <= j < s.len() && (#[trigger] s[j]).0@ == k)
}

/// The process-wide registry of running tasks: task id to task handle,
/// one entry per id. The caller serializes access (one lock around the
/// registry); each operation is a single atomic step of the model.
pub struct TaskRegistry {
    pub entries: Vec<(String, Tasking)>,
}

impl TaskRegistry {
    /// The ids of the registered tasks: the registry's model.
    pub open spec fn ids(self) -> Set<Seq<char>> {
        reg_ids(self.entries@)
    }

    /// One entry per task id.
    pub open spec fn wf(self) -> bool {
        forall|i: int, j: int|
            0 <= i < j < self.entries@.len() ==> self.entries@[i].0@ != self.entries@[j].0@
    }

    /// An empty registry.
    pub fn new() -> (r: TaskRegistry)
        ensures
            r.ids() == Set::<Seq<char>>::empty(),
            r.wf(),
    {
        let r = TaskRegistry { entries: Vec::new() };
        proof {
            assert(r.ids() =~= Set::<Seq<char>>::empty());
        }
        r
    }

    /// Whether a task with this id is registered.
    #[verifier::loop_isolation(false)]
    pub fn contains(&self, task_id: &String) -> (r: bool)
        ensures
            r == self.ids().contains(task_id@),
    {
        let mut i: usize = 0;
        while i < self.entries.len()
            invariant
                i <= self.entries@.len(),
                forall|t: int| 0 <= t < i as int ==> (#[trigger] self.entries@[t]).0@ != task_id@,
            decreases self.entries@.len() - i,
        {
            if self.entries[i].0 == *task_id {
                return true;
            }
            i = i + 1;
        }
        false
    }

    /// Registers a handle under `task_id` unless the id is already
    /// held: the compare-and-set that makes a start exclusive.
    pub fn insert(&mut self, task_id: String, t: Tasking) -> (ok: bool)
        requires
            old(self).wf(),
        ensures
            final(self).wf(),
            ok == !old(self).ids().contains(task_id@),
            ok ==> final(self).ids() == old(self).ids().insert(task_id@),
            !ok ==> final(self).entries@ == old(self).entries@,
    {
        if self.contains(&task_id) {
            return false;
        }
        let ghost s0 = self.entries@;
        self.entries.push((task_id, t));
        proof {
            let s1 = self.entries@;
            assert forall|k: Seq<char>| reg_ids(s1).contains(k) implies reg_ids(s0).insert(
                s1.last().0@,
            ).contains(k) by {
                let j = choose|j: int| 0 <= j < s1.len() && (#[trigger] s1[j]).0@ == k;
                if j < s0.len() {
                    assert((s0[j]).0@ == k);
                }
            }
            assert forall|k: Seq<char>|
                reg_ids(s0).insert(s1.last().0@).contains(k) implies reg_ids(s1).contains(k) by {
                if k == s1.last().0@ {
                    assert((s1[s1.len() - 1]).0@ == k);
                } else {
                    let j = choose|j: int| 0 <= j < s0.len() && (#[trigger] s0[j]).0@ == k;
                    assert((s1[j]).0@ == k);
                }
            }
            assert(reg_ids(s1) =~= reg_ids(s0).insert(s1.last().0@));
        }
        true
    }

    /// Removes the task's entry, cancelling its workers' context: the
    /// cancel signal fires, the source worker is aborted by the
    /// watcher, and the id is free for a new dispatch.
    #[verifier::loop_isolation(false)]
    pub fn remove_and_cancel(&mut self, task_id: &String) -> (ok: bool)
        requires
            old(self).wf(),
        ensures
            final(self).wf(),
            ok == old(self).ids().contains(task_id@),
            final(self).ids() == old(self).ids().remove(task_id@),
    {
        let ghost s0 = self.entries@;
        let mut i: usize = 0;
        while i < self.entries.len()
            invariant
                i <= self.entries@.len(),
                self.entries@ == s0,
                forall|t: int| 0 <= t < i as int ==> (#[trigger] self.entries@[t]).0@ != task_id@,
            decreases self.entries@.len() - i,
        {
            if self.entries[i].0 == *task_id {
                let e = self.entries.remove(i);
                cancel_handle(e.1.handle);
                proof {
                    lemma_reg_ids_remove(s0, i as int);
                    assert((s0[i as int]).0@ == task_id@);
                }
                return true;
            }
            i = i + 1;
        }
        proof {
            assert(!self.ids().contains(task_id@));
            assert(self.ids() =~= self.ids().remove(task_id@));
        }
        false
    }

    /// Removes the task's entry without firing the cancel signal
    /// explicitly; the handle is dropped, which closes the context all
    /// the same.
    #[verifier::loop_isolation(false)]
    pub fn remove(&mut self, task_id: &String) -> (ok: bool)
        requires
            old(self).wf(),
        ensures
            final(self).wf(),
            ok == old(self).ids().contains(task_id@),
            final(self).ids() == old(self).ids().remove(task_id@),
    {
        let ghost s0 = self.entries@;
        let mut i: usize = 0;
        while i < self.entries.len()
            invariant
                i <= self.entries@.len(),
                self.entries@ == s0,
                forall|t: int| 0 <= t < i as int ==> (#[trigger] self.entries@[t]).0@ != task_id@,
            decreases self.entries@.len() - i,
        {
            if self.entries[i].0 == *task_id {
                let _ = self.entries.remove(i);
                proof {
                    lemma_reg_ids_remove(s0, i as int);
                    assert((s0[i as int]).0@ == task_id@);
                }
                return true;
            }
            i = i + 1;
        }
        proof {
            assert(!self.ids().contains(task_id@));
            assert(self.ids() =~= self.ids().remove(task_id@));
        }
        false
    }
}

/// Removing the entry at `i` removes exactly its id from the model.
proof fn lemma_reg_ids_remove(s: Seq<(String, Tasking)>, i: int)
    requires
        0 <= i < s.len(),
        forall|a: int, b: int| 0 <= a < b < s.len() ==> (s[a]).0@ != (s[b]).0@,
    ensures
        reg_ids(s.remove(i)) == reg_ids(s).remove((s[i]).0@),
{
    let t = s.remove(i);
    assert forall|k: Seq<char>| reg_ids(t).contains(k) implies reg_ids(s).remove(
        (s[i]).0@,
    ).contains(k) by {
        let j = choose|j: int| 0 <= j < t.len() && (#[trigger] t[j]).0@ == k;
        if j < i {
            assert((s[j]).0@ == k);
        } else {
            assert((s[j + 1]).0@ == k);
        }
    }
    assert forall|k: Seq<char>|
        reg_ids(s).remove((s[i]).0@).contains(k) implies reg_ids(t).contains(k) by {
        let j = choose|j: int| 0 <= j < s.len() && (#[trigger] s[j]).0@ == k;
        if j < i {
            assert((t[j]).0@ == k);
        } else {
            assert(j != i);
            assert((t[j - 1]).0@ == k);
        }
    }
    assert(reg_ids(t) =~= reg_ids(s).remove((s[i]).0@));
}

/// One dispatch attempt for `id` as the registry sees it: it succeeds
/// exactly when the id is free, and then holds the id.
pub open spec fn dispatch_step(
    pre: Set<Seq<char>>,
    post: Set<Seq<char>>,
    id: Seq<char>,
    ok: bool,
) -> bool {
    ok == !pre.contains(id) && post == (if ok {
        pre.insert(id)
    } else {
        pre
    })
}

/// Law: dispatch is exclusive. Of two dispatch attempts for the same
/// id, serialized by the registry lock with no removal between them,
/// at most one succeeds; and when the id was free, exactly the first
/// one does.
pub proof fn lemma_exclusive_start(
    pre: Set<Seq<char>>,
    mid: Set<Seq<char>>,
    post: Set<Seq<char>>,
    id: Seq<char>,
    ok1: bool,
    ok2: bool,
)
    requires
        dispatch_step(pre, mid, id, ok1),
        dispatch_step(mid, post, id, ok2),
    ensures
        ok1 ==> !ok2,
        !pre.contains(id) ==> ok1 && !ok2,
{
}

/// Law: registry liveness. A successful dispatch leaves `contains`
/// true for the id, and a completed removal leaves it false.
pub proof fn lemma_registry_liveness(ids: Set<Seq<char>>, id: Seq<char>)
    ensures
        ids.insert(id).contains(id),
        !ids.remove(id).contains(id),
{
}

} // verus!
