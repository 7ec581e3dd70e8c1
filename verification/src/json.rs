use vstd::prelude::*;

verus! {

/// Mathematical model of a JSON document. Object entries keep their
/// order, since the flattener walks them in that order.
#[verifier::ext_equal]
pub enum JsonView {
    Null,
    Bool(bool),
    Int(int),
    Num(Seq<char>),
    Str(Seq<char>),
    Arr(Seq<JsonView>),
    Obj(Seq<(Seq<char>, JsonView)>),
}

impl JsonView {
    /// A scalar is anything that is not a container: null, booleans,
    /// numbers and strings.
    pub open spec fn is_scalar(self) -> bool {
        !(self is Arr || self is Obj)
    }
}

/// A JSON document as the library holds it at run time. Numbers with an
/// exact 64-bit signed value use `Int`; any other number is carried as its
/// decimal rendering in `Num`.
#[derive(Debug, PartialEq, Eq)]
pub enum JsonValue {
    Null,
    Bool(bool),
    Int(i64),
    Num(String),
    Str(String),
    Arr(Vec<JsonValue>),
    Obj(Vec<(String, JsonValue)>),
}

/// The models of the elements of a JSON array.
pub open spec fn list_views(l: Seq<JsonValue>) -> Seq<JsonView>
    decreases l, 0int,
    via list_views_decreases
{
    Seq::new(
        l.len(),
        |i: int|
            if 0 <= i < l.len() {
                json_view(l[i])
            } else {
                JsonView::Null
            },
    )
}

/// The models of the entries of a JSON object, keys rendered as
/// character sequences, order kept.
pub open spec fn entry_views(o: Seq<(String, JsonValue)>) -> Seq<(Seq<char>, JsonView)>
    decreases o, 0int,
    via entry_views_decreases
{
    Seq::new(
        o.len(),
        |i: int|
            if 0 <= i < o.len() {
                (o[i].0@, json_view(o[i].1))
            } else {
                (Seq::empty(), JsonView::Null)
            },
    )
}

/// The model of a JSON document.
pub open spec fn json_view(v: JsonValue) -> JsonView
    decreases v, 1int,
    via json_view_decreases
{
    match v {
        JsonValue::Null => JsonView::Null,
        JsonValue::Bool(b) => JsonView::Bool(b),
        JsonValue::Int(i) => JsonView::Int(i as int),
        JsonValue::Num(s) => JsonView::Num(s@),
        JsonValue::Str(s) => JsonView::Str(s@),
        JsonValue::Arr(l) => JsonView::Arr(list_views(l@)),
        JsonValue::Obj(o) => JsonView::Obj(entry_views(o@)),
    }
}

#[via_fn]
proof fn list_views_decreases(l: Seq<JsonValue>) {
    assert forall|i: int| 0 <= i < l.len() implies decreases_to!(l, 0int => l[i], 1int) by {
        assert(decreases_to!(l => l[i]));
    }
}

#[via_fn]
proof fn entry_views_decreases(o: Seq<(String, JsonValue)>) {
    assert forall|i: int| 0 <= i < o.len() implies decreases_to!(o, 0int => o[i].1, 1int) by {
        assert(decreases_to!(o => o[i]));
        assert(decreases_to!(o[i] => o[i].1));
    }
}

#[via_fn]
proof fn json_view_decreases(v: JsonValue) {
    match v {
        JsonValue::Arr(l) => {
            assert(decreases_to!(v => v->Arr_0));
            assert(decreases_to!(v->Arr_0 => v->Arr_0@));
        }
        JsonValue::Obj(o) => {
            assert(decreases_to!(v => v->Obj_0));
            assert(decreases_to!(v->Obj_0 => v->Obj_0@));
        }
        _ => {}
    }
}

impl View for JsonValue {
    type V = JsonView;

    open spec fn view(&self) -> JsonView {
        json_view(*self)
    }
}

impl JsonValue {
    /// A deep copy whose model is the same as the original's.
    #[verifier::loop_isolation(false)]
    pub fn dup(&self) -> (r: JsonValue)
        ensures
            r@ == self@,
        decreases self,
    {
        broadcast use vstd::std_specs::vec::axiom_vec_index_decreases;

        match self {
            JsonValue::Null => JsonValue::Null,
            JsonValue::Bool(b) => JsonValue::Bool(*b),
            JsonValue::Int(i) => JsonValue::Int(*i),
            JsonValue::Num(s) => JsonValue::Num(s.clone()),
            JsonValue::Str(s) => JsonValue::Str(s.clone()),
            JsonValue::Arr(l) => {
                let mut out: Vec<JsonValue> = Vec::new();
                let mut i: usize = 0;
                while i < l.len()
                    invariant
                        i <= l.len(),
                        out@.len() == i as int,
                        forall|j: int| 0 <= j < i as int ==> out@[j]@ == l@[j]@,
                    decreases l.len() - i,
                {
                    proof {
                        let v = *self;
                        assert(decreases_to!(v => v->Arr_0));
                        assert(decreases_to!(v->Arr_0 => v->Arr_0@));
                        assert(decreases_to!(v->Arr_0@ => v->Arr_0@[i as int]));
                    }
                    let e = &l[i];
                    out.push(e.dup());
                    i = i + 1;
                }
                proof {
                    assert(list_views(out@) =~= list_views(l@));
                }
                JsonValue::Arr(out)
            }
            JsonValue::Obj(o) => {
                let mut out: Vec<(String, JsonValue)> = Vec::new();
                let mut i: usize = 0;
                while i < o.len()
                    invariant
                        i <= o.len(),
                        out@.len() == i as int,
                        forall|j: int| #![all_triggers]
                            0 <= j < i as int ==> out@[j].0@ == o@[j].0@ && out@[j].1@ == o@[j].1@,
                    decreases o.len() - i,
                {
                    proof {
                        let v = *self;
                        assert(decreases_to!(v => v->Obj_0));
                        assert(decreases_to!(v->Obj_0 => v->Obj_0@));
                        assert(decreases_to!(v->Obj_0@ => v->Obj_0@[i as int]));
                        assert(decreases_to!(v->Obj_0@[i as int] => v->Obj_0@[i as int].1));
                    }
                    let e = &o[i];
                    out.push((e.0.clone(), e.1.dup()));
                    i = i + 1;
                }
                proof {
                    assert(entry_views(out@) =~= entry_views(o@));
                }
                JsonValue::Obj(out)
            }
        }
    }
}

/// The lookup map of a JSON object's entries, a later entry with the
/// same key overriding an earlier one, as JSON parsers keep the last
/// duplicate.
pub open spec fn obj_map(entries: Seq<(Seq<char>, JsonView)>) -> Map<Seq<char>, JsonView>
    decreases entries.len(),
{
    if entries.len() == 0 {
        Map::empty()
    } else {
        obj_map(entries.drop_last()).insert(entries.last().0, entries.last().1)
    }
}

/// The entry at the last occurrence of a key gives the object's value
/// for that key.
pub proof fn lemma_obj_map_lookup(entries: Seq<(Seq<char>, JsonView)>, j: int)
    requires
        0 <= j < entries.len(),
        forall|i: int| j < i < entries.len() ==> entries[i].0 != entries[j].0,
    ensures
        obj_map(entries).contains_key(entries[j].0),
        obj_map(entries)[entries[j].0] == entries[j].1,
    decreases entries.len(),
{
    if j < entries.len() - 1 {
        lemma_obj_map_lookup(entries.drop_last(), j);
    }
}

/// A key held by no entry is not in the object's map.
pub proof fn lemma_obj_map_absent(entries: Seq<(Seq<char>, JsonView)>, k: Seq<char>)
    requires
        forall|i: int| 0 <= i < entries.len() ==> entries[i].0 != k,
    ensures
        !obj_map(entries).contains_key(k),
    decreases entries.len(),
{
    if entries.len() > 0 {
        lemma_obj_map_absent(entries.drop_last(), k);
    }
}

impl JsonValue {
    /// The value of an object member, the last entry with the key
    /// winning; `None` when the document is not an object or has no
    /// such member.
    #[verifier::loop_isolation(false)]
    pub fn get_member<'a>(&'a self, key: &String) -> (r: Option<&'a JsonValue>)
        ensures
            match r {
                Some(v) => self@ is Obj && obj_map(self@->Obj_0).contains_key(key@) && v@
                    == obj_map(self@->Obj_0)[key@],
                None => self@ is Obj ==> !obj_map(self@->Obj_0).contains_key(key@),
            },
    {
        match self {
            JsonValue::Obj(o) => {
                let ghost es = entry_views(o@);
                let mut i: usize = o.len();
                while i > 0
                    invariant
                        i <= o@.len(),
                        forall|t: int| i as int <= t < es.len() ==> (#[trigger] es[t]).0 != key@,
                    decreases i,
                {
                    i = i - 1;
                    if o[i].0 == *key {
                        proof {
                            lemma_obj_map_lookup(es, i as int);
                        }
                        return Some(&o[i].1);
                    }
                }
                proof {
                    lemma_obj_map_absent(es, key@);
                }
                None
            }
            _ => None,
        }
    }

    /// Whether the document is a JSON string.
    pub fn is_string(&self) -> (r: bool)
        ensures
            r == (self@ is Str),
    {
        match self {
            JsonValue::Str(_) => true,
            _ => false,
        }
    }
}

} // verus!
