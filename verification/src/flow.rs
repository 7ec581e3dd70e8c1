use vstd::prelude::*;

use crate::json::{entry_views, json_view, list_views, JsonValue, JsonView};

verus! {

/// The model of a schema-preview node: a field name, a type label and
/// the child nodes.
#[verifier::ext_equal]
pub struct CRHView {
    pub name: Seq<char>,
    pub ptype: Seq<char>,
    pub props: Seq<CRHView>,
}

/// A schema-preview node: describes the shape of a JSON document
/// without its values.
#[derive(Debug)]
pub struct CRHRes {
    pub name: String,
    pub property_type: String,
    pub props: Vec<CRHRes>,
}

/// The model of a preview node.
pub open spec fn crh_view(r: CRHRes) -> CRHView
    decreases r, 1int,
    via crh_view_decreases
{
    CRHView { name: r.name@, ptype: r.property_type@, props: crh_views(r.props@) }
}

/// The models of a list of preview nodes.
pub open spec fn crh_views(s: Seq<CRHRes>) -> Seq<CRHView>
    decreases s, 0int,
    via crh_views_decreases
{
    Seq::new(
        s.len(),
        |i: int|
            if 0 <= i < s.len() {
                crh_view(s[i])
            } else {
                CRHView { name: Seq::empty(), ptype: Seq::empty(), props: Seq::empty() }
            },
    )
}

#[via_fn]
proof fn crh_view_decreases(r: CRHRes) {
    assert(decreases_to!(r => r.props));
    assert(decreases_to!(r.props => r.props@));
}

#[via_fn]
proof fn crh_views_decreases(s: Seq<CRHRes>) {
    assert forall|i: int| 0 <= i < s.len() implies decreases_to!(s, 0int => s[i], 1int) by {
        assert(decreases_to!(s => s[i]));
    }
}

impl View for CRHRes {
    type V = CRHView;

    open spec fn view(&self) -> CRHView {
        crh_view(*self)
    }
}

/// The preview node of one named value: containers carry their
/// children, every other value only its type label.
pub open spec fn spec_property_entry(name: Seq<char>, v: JsonView) -> CRHView
    decreases v, 2int,
{
    match v {
        JsonView::Obj(o) => CRHView { name, ptype: "object"@, props: spec_property_object(o) },
        JsonView::Arr(l) => CRHView { name, ptype: "array"@, props: spec_property_list(l) },
        JsonView::Str(_) => CRHView { name, ptype: "string"@, props: Seq::empty() },
        JsonView::Bool(_) => CRHView { name, ptype: "boolean"@, props: Seq::empty() },
        JsonView::Null => CRHView { name, ptype: "null"@, props: Seq::empty() },
        _ => CRHView { name, ptype: "number"@, props: Seq::empty() },
    }
}

/// The preview nodes of an object's entries, in entry order.
pub open spec fn spec_property_object(o: Seq<(Seq<char>, JsonView)>) -> Seq<CRHView>
    decreases o, 1int,
    via spec_property_object_decreases
{
    Seq::new(
        o.len(),
        |i: int|
            if 0 <= i < o.len() {
                spec_property_entry(o[i].0, o[i].1)
            } else {
                CRHView { name: Seq::empty(), ptype: Seq::empty(), props: Seq::empty() }
            },
    )
}

/// The preview nodes of an array: an empty array previews as one null
/// node, otherwise the first element stands for all of them.
pub open spec fn spec_property_list(l: Seq<JsonView>) -> Seq<CRHView>
    decreases l, 1int,
    via spec_property_list_decreases
{
    if l.len() == 0 {
        seq![CRHView { name: Seq::empty(), ptype: "null"@, props: Seq::empty() }]
    } else {
        match l[0] {
            JsonView::Obj(o) => spec_property_object(o),
            JsonView::Arr(a) => spec_property_list(a),
            JsonView::Str(_) => seq![
                CRHView { name: Seq::empty(), ptype: "string"@, props: Seq::empty() },
            ],
            JsonView::Bool(_) => seq![
                CRHView { name: Seq::empty(), ptype: "boolean"@, props: Seq::empty() },
            ],
            JsonView::Null => seq![
                CRHView { name: Seq::empty(), ptype: "null"@, props: Seq::empty() },
            ],
            _ => seq![CRHView { name: Seq::empty(), ptype: "number"@, props: Seq::empty() }],
        }
    }
}

#[via_fn]
proof fn spec_property_object_decreases(o: Seq<(Seq<char>, JsonView)>) {
    assert forall|i: int| 0 <= i < o.len() implies decreases_to!(o, 1int => o[i].1, 2int) by {
        assert(decreases_to!(o => o[i]));
        assert(decreases_to!(o[i] => o[i].1));
    }
}

#[via_fn]
proof fn spec_property_list_decreases(l: Seq<JsonView>) {
    if l.len() > 0 {
        assert(decreases_to!(l => l[0]));
        match l[0] {
            JsonView::Obj(o) => {
                assert(decreases_to!(l[0] => l[0]->Obj_0));
            }
            JsonView::Arr(a) => {
                assert(decreases_to!(l[0] => l[0]->Arr_0));
            }
            _ => {}
        }
    }
}

/// The preview of a whole document: an unnamed node for the root.
pub open spec fn spec_property(v: JsonView) -> CRHView {
    spec_property_entry(Seq::empty(), v)
}

/// Builds schema previews of JSON documents.
pub struct ChrysaetosBitFlow {
    pub sep: String,
}

impl ChrysaetosBitFlow {
    /// A preview builder with an empty separator.
    pub fn new() -> (r: ChrysaetosBitFlow)
        ensures
            r.sep@ == Seq::<char>::empty(),
    {
        ChrysaetosBitFlow::from_sep(String::new())
    }

    /// A preview builder with the given separator.
    pub fn from_sep(sep: String) -> (r: ChrysaetosBitFlow)
        ensures
            r.sep@ == sep@,
    {
        ChrysaetosBitFlow { sep }
    }

    /// The schema preview of one document.
    pub fn property(&self, obj: JsonValue) -> (r: CRHRes)
        ensures
            r@ == spec_property(obj@),
    {
        let r = match &obj {
            JsonValue::Obj(o) => CRHRes {
                name: String::new(),
                property_type: String::from_str("object"),
                props: self.property_object(o),
            },
            JsonValue::Arr(l) => CRHRes {
                name: String::new(),
                property_type: String::from_str("array"),
                props: self.property_list(l),
            },
            JsonValue::Str(_) => CRHRes {
                name: String::new(),
                property_type: String::from_str("string"),
                props: Vec::new(),
            },
            JsonValue::Bool(_) => CRHRes {
                name: String::new(),
                property_type: String::from_str("boolean"),
                props: Vec::new(),
            },
            JsonValue::Null => CRHRes {
                name: String::new(),
                property_type: String::from_str("null"),
                props: Vec::new(),
            },
            _ => CRHRes {
                name: String::new(),
                property_type: String::from_str("number"),
                props: Vec::new(),
            },
        };
        proof {
            let g = obj@;
            assert(crh_views(Seq::<CRHRes>::empty()) =~= Seq::<CRHView>::empty());
            assert(r@ == spec_property(g));
        }
        r
    }

    /// The preview nodes of an object's entries.
    #[verifier::loop_isolation(false)]
    fn property_object(&self, obj: &Vec<(String, JsonValue)>) -> (r: Vec<CRHRes>)
        ensures
            crh_views(r@) == spec_property_object(entry_views(obj@)),
        decreases obj@, 1int,
    {
        let mut out: Vec<CRHRes> = Vec::new();
        let mut i: usize = 0;
        while i < obj.len()
            invariant
                i <= obj@.len(),
                out@.len() == i as int,
                forall|t: int| #![all_triggers]
                    0 <= t < i as int ==> crh_view(out@[t]) == spec_property_entry(
                        obj@[t].0@,
                        obj@[t].1@,
                    ),
            decreases obj@.len() - i,
        {
            let e = &obj[i];
            let key = &e.0;
            let value = &e.1;
            proof {
                let ve = obj@[i as int];
                assert(decreases_to!(obj@ => ve));
                assert(decreases_to!(ve => ve.1));
            }
            let data = match value {
                JsonValue::Obj(m) => {
                    proof {
                        let ve = obj@[i as int];
                        assert(decreases_to!(ve.1 => ve.1->Obj_0));
                        assert(decreases_to!(ve.1->Obj_0 => ve.1->Obj_0@));
                    }
                    CRHRes {
                        name: key.clone(),
                        property_type: String::from_str("object"),
                        props: self.property_object(m),
                    }
                }
                JsonValue::Arr(l) => {
                    proof {
                        let ve = obj@[i as int];
                        assert(decreases_to!(ve.1 => ve.1->Arr_0));
                        assert(decreases_to!(ve.1->Arr_0 => ve.1->Arr_0@));
                    }
                    CRHRes {
                        name: key.clone(),
                        property_type: String::from_str("array"),
                        props: self.property_list(l),
                    }
                }
                JsonValue::Str(_) => CRHRes {
                    name: key.clone(),
                    property_type: String::from_str("string"),
                    props: Vec::new(),
                },
                JsonValue::Bool(_) => CRHRes {
                    name: key.clone(),
                    property_type: String::from_str("boolean"),
                    props: Vec::new(),
                },
                JsonValue::Null => CRHRes {
                    name: key.clone(),
                    property_type: String::from_str("null"),
                    props: Vec::new(),
                },
                _ => CRHRes {
                    name: key.clone(),
                    property_type: String::from_str("number"),
                    props: Vec::new(),
                },
            };
            out.push(data);
            proof {
                let t = i as int;
                assert(crh_views(Seq::<CRHRes>::empty()) =~= Seq::<CRHView>::empty());
                assert(crh_view(out@[t]) == spec_property_entry(obj@[t].0@, json_view(obj@[t].1)));
            }
            i = i + 1;
        }
        proof {
            assert(crh_views(out@) =~~= spec_property_object(entry_views(obj@)));
        }
        out
    }

    /// The preview nodes of an array.
    fn property_list(&self, list: &Vec<JsonValue>) -> (r: Vec<CRHRes>)
        ensures
            crh_views(r@) == spec_property_list(list_views(list@)),
        decreases list@, 1int,
    {
        if list.len() == 0 {
            let mut out: Vec<CRHRes> = Vec::new();
            out.push(
                CRHRes {
                    name: String::new(),
                    property_type: String::from_str("null"),
                    props: Vec::new(),
                },
            );
            proof {
                assert(crh_views(Seq::<CRHRes>::empty()) =~= Seq::<CRHView>::empty());
                assert(crh_views(out@) =~= spec_property_list(list_views(list@)));
            }
            return out;
        }
        let first = &list[0];
        proof {
            let ve = list@[0];
            assert(decreases_to!(list@ => ve));
        }
        let out = match first {
            JsonValue::Obj(m) => {
                proof {
                    let ve = list@[0];
                    assert(decreases_to!(ve => ve->Obj_0));
                    assert(decreases_to!(ve->Obj_0 => ve->Obj_0@));
                }
                self.property_object(m)
            }
            JsonValue::Arr(l) => {
                proof {
                    let ve = list@[0];
                    assert(decreases_to!(ve => ve->Arr_0));
                    assert(decreases_to!(ve->Arr_0 => ve->Arr_0@));
                }
                self.property_list(l)
            }
            JsonValue::Str(_) => {
                let mut v: Vec<CRHRes> = Vec::new();
                v.push(
                    CRHRes {
                        name: String::new(),
                        property_type: String::from_str("string"),
                        props: Vec::new(),
                    },
                );
                v
            }
            JsonValue::Bool(_) => {
                let mut v: Vec<CRHRes> = Vec::new();
                v.push(
                    CRHRes {
                        name: String::new(),
                        property_type: String::from_str("boolean"),
                        props: Vec::new(),
                    },
                );
                v
            }
            JsonValue::Null => {
                let mut v: Vec<CRHRes> = Vec::new();
                v.push(
                    CRHRes {
                        name: String::new(),
                        property_type: String::from_str("null"),
                        props: Vec::new(),
                    },
                );
                v
            }
            _ => {
                let mut v: Vec<CRHRes> = Vec::new();
                v.push(
                    CRHRes {
                        name: String::new(),
                        property_type: String::from_str("number"),
                        props: Vec::new(),
                    },
                );
                v
            }
        };
        proof {
            assert(crh_views(Seq::<CRHRes>::empty()) =~= Seq::<CRHView>::empty());
            assert(crh_views(out@) =~= spec_property_list(list_views(list@)));
        }
        out
    }
}

} // verus!
