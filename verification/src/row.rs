use vstd::prelude::*;

use crate::json::{json_view, JsonValue, JsonView};

verus! {

/// The model of one flat output row: a map from a dotted path to the
/// JSON subtree stored under it.
pub type RowModel = Map<Seq<char>, JsonView>;

/// The map described by a sequence of key/value entries, a later entry
/// overriding an earlier one with the same key.
pub open spec fn entries_map(s: Seq<(String, JsonValue)>) -> RowModel
    decreases s.len(),
{
    if s.len() == 0 {
        Map::empty()
    } else {
        entries_map(s.drop_last()).insert(s.last().0@, json_view(s.last().1))
    }
}

/// One flat row produced by the flattener: path/value pairs with
/// pairwise distinct paths, modelled as a map.
#[derive(Debug)]
pub struct Row {
    pub entries: Vec<(String, JsonValue)>,
}

impl View for Row {
    type V = RowModel;

    open spec fn view(&self) -> RowModel {
        entries_map(self.entries@)
    }
}

impl Row {
    /// The paths stored in the row are pairwise distinct.
    pub open spec fn wf(self) -> bool {
        forall|i: int, j: int|
            0 <= i < j < self.entries@.len() ==> self.entries@[i].0@ != self.entries@[j].0@
    }

    /// An empty row.
    pub fn new() -> (r: Row)
        ensures
            r@ == Map::<Seq<char>, JsonView>::empty(),
            r.wf(),
            r.entries@.len() == 0,
    {
        Row { entries: Vec::new() }
    }

    /// Maps `key` to `value`, replacing any earlier binding of `key`,
    /// as a map insertion does.
    #[verifier::loop_isolation(false)]
    pub fn insert(&mut self, key: String, value: JsonValue)
        requires
            old(self).wf(),
        ensures
            final(self)@ == old(self)@.insert(key@, json_view(value)),
            final(self).wf(),
    {
        let ghost s0 = self.entries@;
        let mut i: usize = 0;
        while i < self.entries.len()
            invariant
                i <= self.entries@.len(),
                self.entries@ == s0,
                forall|t: int| 0 <= t < i as int ==> self.entries@[t].0@ != key@,
            decreases self.entries@.len() - i,
        {
            if self.entries[i].0 == key {
                self.entries[i] = (key, value);
                proof {
                    lemma_entries_map_update(s0, i as int, self.entries@[i as int]);
                }
                return ;
            }
            i = i + 1;
        }
        self.entries.push((key, value));
        proof {
            assert(self.entries@.drop_last() =~= s0);
        }
    }

    /// The value stored under `key`, if the row holds that path.
    #[verifier::loop_isolation(false)]
    pub fn get(&self, key: &String) -> (r: Option<&JsonValue>)
        requires
            self.wf(),
        ensures
            match r {
                Some(v) => self@.contains_key(key@) && json_view(*v) == self@[key@],
                None => !self@.contains_key(key@),
            },
    {
        let mut i: usize = 0;
        while i < self.entries.len()
            invariant
                i <= self.entries@.len(),
                forall|t: int| 0 <= t < i as int ==> self.entries@[t].0@ != key@,
            decreases self.entries@.len() - i,
        {
            if self.entries[i].0 == *key {
                proof {
                    lemma_entries_map_lookup(self.entries@, i as int);
                }
                return Some(&self.entries[i].1);
            }
            i = i + 1;
        }
        proof {
            lemma_entries_map_contains(self.entries@, key@);
        }
        None
    }

    /// Whether the row holds the path `key`.
    pub fn contains_key(&self, key: &String) -> (r: bool)
        requires
            self.wf(),
        ensures
            r == self@.contains_key(key@),
    {
        self.get(key).is_some()
    }

    /// The number of paths in the row.
    #[verifier::loop_isolation(false)]
    pub fn len(&self) -> (n: usize)
        requires
            self.wf(),
        ensures
            n == self@.dom().len(),
    {
        proof {
            lemma_entries_map_len(self.entries@);
        }
        self.entries.len()
    }

    /// A copy of the row with the same model.
    #[verifier::loop_isolation(false)]
    pub fn dup(&self) -> (r: Row)
        ensures
            r@ == self@,
            r.wf() <==> self.wf(),
            r.entries@.len() == self.entries@.len(),
            forall|i: int| #![all_triggers]
                0 <= i < self.entries@.len() ==> r.entries@[i].0@ == self.entries@[i].0@
                    && json_view(r.entries@[i].1) == json_view(self.entries@[i].1),
    {
        let mut out: Vec<(String, JsonValue)> = Vec::new();
        let mut i: usize = 0;
        while i < self.entries.len()
            invariant
                i <= self.entries@.len(),
                out@.len() == i as int,
                forall|j: int| #![all_triggers]
                    0 <= j < i as int ==> out@[j].0@ == self.entries@[j].0@ && json_view(
                        out@[j].1,
                    ) == json_view(self.entries@[j].1),
            decreases self.entries@.len() - i,
        {
            let e = &self.entries[i];
            out.push((e.0.clone(), e.1.dup()));
            i = i + 1;
        }
        proof {
            lemma_entries_map_congruent(out@, self.entries@);
        }
        Row { entries: out }
    }
}

/// Two entry sequences with the same key and value models describe the
/// same map.
pub proof fn lemma_entries_map_congruent(a: Seq<(String, JsonValue)>, b: Seq<(String, JsonValue)>)
    requires
        a.len() == b.len(),
        forall|i: int| #![all_triggers]
            0 <= i < a.len() ==> a[i].0@ == b[i].0@ && json_view(a[i].1) == json_view(b[i].1),
    ensures
        entries_map(a) == entries_map(b),
    decreases a.len(),
{
    if a.len() > 0 {
        lemma_entries_map_congruent(a.drop_last(), b.drop_last());
        assert(entries_map(a) =~= entries_map(b));
    } else {
        assert(entries_map(a) =~= entries_map(b));
    }
}

/// Overwriting the one entry that holds a key acts on the map as an
/// insertion of that key.
pub proof fn lemma_entries_map_update(s: Seq<(String, JsonValue)>, j: int, e: (String, JsonValue))
    requires
        0 <= j < s.len(),
        s[j].0@ == e.0@,
        forall|i: int| 0 <= i < s.len() && i != j ==> s[i].0@ != e.0@,
    ensures
        entries_map(s.update(j, e)) == entries_map(s).insert(e.0@, json_view(e.1)),
    decreases s.len(),
{
    let t = s.update(j, e);
    if j == s.len() - 1 {
        assert(t.drop_last() =~= s.drop_last());
        assert(t.last() == e);
        assert(entries_map(t) =~= entries_map(s).insert(e.0@, json_view(e.1)));
    } else {
        lemma_entries_map_update(s.drop_last(), j, e);
        assert(t.drop_last() =~= s.drop_last().update(j, e));
        assert(t.last() == s.last());
        assert(entries_map(t) =~= entries_map(s).insert(e.0@, json_view(e.1)));
    }
}

/// The entry at the last occurrence of a key gives the map's value for
/// that key.
pub proof fn lemma_entries_map_lookup(s: Seq<(String, JsonValue)>, j: int)
    requires
        0 <= j < s.len(),
        forall|i: int| j < i < s.len() ==> s[i].0@ != s[j].0@,
    ensures
        entries_map(s).contains_key(s[j].0@),
        entries_map(s)[s[j].0@] == json_view(s[j].1),
    decreases s.len(),
{
    if j == s.len() - 1 {
    } else {
        lemma_entries_map_lookup(s.drop_last(), j);
    }
}

/// A key is in the map exactly when some entry holds it.
pub proof fn lemma_entries_map_contains(s: Seq<(String, JsonValue)>, k: Seq<char>)
    requires
        forall|i: int| 0 <= i < s.len() ==> s[i].0@ != k,
    ensures
        !entries_map(s).contains_key(k),
    decreases s.len(),
{
    if s.len() > 0 {
        lemma_entries_map_contains(s.drop_last(), k);
    }
}

/// With pairwise distinct keys, the map has exactly one binding per
/// entry.
pub proof fn lemma_entries_map_len(s: Seq<(String, JsonValue)>)
    requires
        forall|i: int, j: int| 0 <= i < j < s.len() ==> s[i].0@ != s[j].0@,
    ensures
        entries_map(s).dom().finite(),
        entries_map(s).dom().len() == s.len(),
    decreases s.len(),
{
    if s.len() > 0 {
        lemma_entries_map_len(s.drop_last());
        lemma_entries_map_contains(s.drop_last(), s.last().0@);
    }
}

/// The models of a list of rows, in order.
pub open spec fn rows_view(s: Seq<Row>) -> Seq<RowModel> {
    Seq::new(s.len(), |i: int| if 0 <= i < s.len() { s[i]@ } else { Map::empty() })
}

/// Every row in a list of rows has pairwise distinct paths.
pub open spec fn rows_wf(s: Seq<Row>) -> bool {
    forall|i: int| 0 <= i < s.len() ==> (#[trigger] s[i]).wf()
}

} // verus!
