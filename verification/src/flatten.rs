use vstd::prelude::*;

use crate::json::{entry_views, json_view, list_views, JsonValue, JsonView};
use crate::row::{rows_view, rows_wf, Row, RowModel};

verus! {

/// The model of a flattener configuration: separator, depth cap
/// (-1 meaning unbounded), pruned paths and folded paths.
pub struct FlattenCfg {
    pub sep: Seq<char>,
    pub max_depth: int,
    pub ignore: Set<Seq<char>>,
    pub fold: Set<Seq<char>>,
}

/// The set of path strings held by a list.
pub open spec fn str_set(s: Seq<String>) -> Set<Seq<char>> {
    Set::new(|k: Seq<char>| exists|i: int| 0 <= i < s.len() && s[i]@ == k)
}

/// How an emitted key is formed: root-level keys stand alone, deeper
/// keys append the child key to the parent key with the separator
/// between them.
pub open spec fn spec_format_key(sep: Seq<char>, pre: Seq<char>, key: Seq<char>, depth: int) -> Seq<
    char,
> {
    if pre.len() == 0 && key.len() == 0 {
        Seq::empty()
    } else if depth == 0 {
        key
    } else {
        pre + sep + key
    }
}

/// The depth counter of the walk; it saturates instead of growing past
/// the largest count the walker can carry.
pub open spec fn spec_next_depth(depth: int) -> int {
    if depth < 0x7fff_ffff {
        depth + 1
    } else {
        depth
    }
}

/// Whether the walk must stop at this depth and keep the row as it is.
pub open spec fn depth_exceeded(cfg: FlattenCfg, depth: int) -> bool {
    depth > cfg.max_depth && cfg.max_depth != -1
}

/// The rows produced by walking the elements of an array under parent
/// key `pre`: each element contributes its own rows, in element order.
pub open spec fn spec_parse_list(
    cfg: FlattenCfg,
    elems: Seq<JsonView>,
    pre: Seq<char>,
    curr: RowModel,
    depth: int,
) -> Seq<RowModel>
    decreases elems, 2int,
{
    if depth_exceeded(cfg, depth) {
        seq![curr]
    } else if elems.len() == 0 {
        seq![curr]
    } else {
        list_elem_rows(cfg, elems, pre, curr, depth).flatten()
    }
}

/// The rows of each array element, element by element.
pub open spec fn list_elem_rows(
    cfg: FlattenCfg,
    elems: Seq<JsonView>,
    pre: Seq<char>,
    curr: RowModel,
    depth: int,
) -> Seq<Seq<RowModel>>
    decreases elems, 1int,
    via list_elem_rows_decreases
{
    Seq::new(
        elems.len(),
        |i: int|
            if 0 <= i < elems.len() {
                spec_parse_list_elem(cfg, elems[i], pre, curr, depth)
            } else {
                Seq::empty()
            },
    )
}

/// The rows of one array element: objects and nested arrays recurse
/// one level deeper (a nested array uses the separator as its
/// pseudo-key), and a scalar extends the current row under the parent
/// key unless that key is pruned.
pub open spec fn spec_parse_list_elem(
    cfg: FlattenCfg,
    v: JsonView,
    pre: Seq<char>,
    curr: RowModel,
    depth: int,
) -> Seq<RowModel>
    decreases v, 3int,
{
    match v {
        JsonView::Obj(o) => spec_parse_object(cfg, o, pre, curr, spec_next_depth(depth)),
        JsonView::Arr(a) => spec_parse_list(
            cfg,
            a,
            spec_format_key(cfg.sep, pre, cfg.sep, depth),
            curr,
            spec_next_depth(depth),
        ),
        _ => if cfg.ignore.contains(pre) {
            Seq::empty()
        } else {
            seq![curr.insert(pre, v)]
        },
    }
}

/// The rows produced by walking an object: an empty object records
/// itself under the parent key; otherwise its entries are applied in
/// order to the single current row.
pub open spec fn spec_parse_object(
    cfg: FlattenCfg,
    entries: Seq<(Seq<char>, JsonView)>,
    pre: Seq<char>,
    curr: RowModel,
    depth: int,
) -> Seq<RowModel>
    decreases entries, 2int,
{
    if depth_exceeded(cfg, depth) {
        seq![curr]
    } else if entries.len() == 0 {
        seq![curr.insert(pre, JsonView::Obj(Seq::empty()))]
    } else {
        spec_object_step(cfg, entries, pre, seq![curr], depth)
    }
}

/// Every row in `rows`, extended with `key` mapped to `v`.
pub open spec fn map_insert_rows(rows: Seq<RowModel>, key: Seq<char>, v: JsonView) -> Seq<
    RowModel,
> {
    Seq::new(
        rows.len(),
        |j: int|
            if 0 <= j < rows.len() {
                rows[j].insert(key, v)
            } else {
                Map::empty()
            },
    )
}

/// The rows each current row yields under the same child object.
pub open spec fn object_across_parts(
    cfg: FlattenCfg,
    o: Seq<(Seq<char>, JsonView)>,
    pre: Seq<char>,
    rows: Seq<RowModel>,
    depth: int,
) -> Seq<Seq<RowModel>>
    decreases o, 3int,
{
    Seq::new(
        rows.len(),
        |j: int|
            if 0 <= j < rows.len() {
                spec_parse_object(cfg, o, pre, rows[j], depth)
            } else {
                Seq::empty()
            },
    )
}

/// Each current row walked through the same child object; the results
/// are appended in row order.
pub open spec fn object_across(
    cfg: FlattenCfg,
    o: Seq<(Seq<char>, JsonView)>,
    pre: Seq<char>,
    rows: Seq<RowModel>,
    depth: int,
) -> Seq<RowModel>
    decreases o, 4int,
{
    object_across_parts(cfg, o, pre, rows, depth).flatten()
}

/// The rows each current row yields under the same child array.
pub open spec fn list_across_parts(
    cfg: FlattenCfg,
    a: Seq<JsonView>,
    pre: Seq<char>,
    rows: Seq<RowModel>,
    depth: int,
) -> Seq<Seq<RowModel>>
    decreases a, 3int,
{
    Seq::new(
        rows.len(),
        |j: int|
            if 0 <= j < rows.len() {
                spec_parse_list(cfg, a, pre, rows[j], depth)
            } else {
                Seq::empty()
            },
    )
}

/// Each current row walked through the same child array; the results
/// are appended in row order.
pub open spec fn list_across(
    cfg: FlattenCfg,
    a: Seq<JsonView>,
    pre: Seq<char>,
    rows: Seq<RowModel>,
    depth: int,
) -> Seq<RowModel>
    decreases a, 4int,
{
    list_across_parts(cfg, a, pre, rows, depth).flatten()
}

/// One object entry applied to the current rows, then the rest of the
/// entries: a pruned key leaves the rows unchanged, a folded key stores
/// the subtree as it is in every row, containers recurse one level
/// deeper, and a scalar extends every row.
pub open spec fn spec_object_step(
    cfg: FlattenCfg,
    entries: Seq<(Seq<char>, JsonView)>,
    pre: Seq<char>,
    rows: Seq<RowModel>,
    depth: int,
) -> Seq<RowModel>
    decreases entries, 1int,
    via spec_object_step_decreases
{
    if entries.len() == 0 {
        rows
    } else {
        let key = entries[0].0;
        let v = entries[0].1;
        let full = spec_format_key(cfg.sep, pre, key, depth);
        let rows2 = if cfg.ignore.contains(full) {
            rows
        } else if cfg.fold.contains(full) {
            map_insert_rows(rows, full, v)
        } else {
            match v {
                JsonView::Obj(o) => object_across(cfg, o, full, rows, spec_next_depth(depth)),
                JsonView::Arr(a) => list_across(cfg, a, full, rows, spec_next_depth(depth)),
                _ => map_insert_rows(rows, full, v),
            }
        };
        spec_object_step(cfg, entries.drop_first(), pre, rows2, depth)
    }
}

#[via_fn]
proof fn list_elem_rows_decreases(
    cfg: FlattenCfg,
    elems: Seq<JsonView>,
    pre: Seq<char>,
    curr: RowModel,
    depth: int,
) {
    assert forall|i: int| 0 <= i < elems.len() implies decreases_to!(
        elems, 1int => elems[i], 3int) by {
        assert(decreases_to!(elems => elems[i]));
    }
}

#[via_fn]
proof fn spec_object_step_decreases(
    cfg: FlattenCfg,
    entries: Seq<(Seq<char>, JsonView)>,
    pre: Seq<char>,
    rows: Seq<RowModel>,
    depth: int,
) {
    if entries.len() > 0 {
        let e = entries[0];
        assert(decreases_to!(entries => entries[0]));
        assert(decreases_to!(entries[0] => entries[0].1));
        match e.1 {
            JsonView::Obj(o) => {
                assert(decreases_to!(entries[0].1 => entries[0].1->Obj_0));
            }
            JsonView::Arr(a) => {
                assert(decreases_to!(entries[0].1 => entries[0].1->Arr_0));
            }
            _ => {}
        }
        assert(entries.drop_first() == entries.subrange(1, entries.len() as int));
        assert(decreases_to!(entries => entries.subrange(1, entries.len() as int)));
    }
}

/// The rows produced for a whole document: a root object or array is
/// walked with an empty parent key, an empty current row and depth
/// zero; any other root yields no rows at all.
pub open spec fn spec_parse(cfg: FlattenCfg, v: JsonView) -> Seq<RowModel> {
    match v {
        JsonView::Arr(l) => spec_parse_list(cfg, l, Seq::empty(), Map::empty(), 0),
        JsonView::Obj(o) => spec_object_rows(cfg, o),
        _ => Seq::empty(),
    }
}

/// The rows of a root object.
pub open spec fn spec_object_rows(cfg: FlattenCfg, o: Seq<(Seq<char>, JsonView)>) -> Seq<
    RowModel,
> {
    spec_parse_object(cfg, o, Seq::empty(), Map::empty(), 0)
}

/// Whether a list of strings holds `key`.
#[verifier::loop_isolation(false)]
fn contains_str(v: &Vec<String>, key: &String) -> (r: bool)
    ensures
        r == str_set(v@).contains(key@),
{
    let mut i: usize = 0;
    while i < v.len()
        invariant
            i <= v@.len(),
            forall|t: int| 0 <= t < i as int ==> v@[t]@ != key@,
        decreases v@.len() - i,
    {
        if v[i] == *key {
            return true;
        }
        i = i + 1;
    }
    false
}

/// The saturating successor of the depth counter.
fn next_depth(depth: i32) -> (r: i32)
    ensures
        r as int == spec_next_depth(depth as int),
{
    if depth < i32::MAX {
        depth + 1
    } else {
        depth
    }
}

/// Every row of `rows` copied and extended with `key` mapped to a copy
/// of `value`.
#[verifier::loop_isolation(false)]
fn rows_with(rows: &Vec<Row>, key: &String, value: &JsonValue) -> (r: Vec<Row>)
    requires
        rows_wf(rows@),
    ensures
        rows_view(r@) == map_insert_rows(rows_view(rows@), key@, json_view(*value)),
        rows_wf(r@),
{
    let mut out: Vec<Row> = Vec::new();
    let mut j: usize = 0;
    while j < rows.len()
        invariant
            j <= rows@.len(),
            out@.len() == j as int,
            rows_wf(out@),
            forall|t: int| #![all_triggers]
                0 <= t < j as int ==> out@[t]@ == rows@[t]@.insert(key@, json_view(*value)),
        decreases rows@.len() - j,
    {
        let mut m = rows[j].dup();
        m.insert(key.clone(), value.dup());
        out.push(m);
        j = j + 1;
    }
    proof {
        assert(rows_view(out@) =~= map_insert_rows(rows_view(rows@), key@, json_view(*value)));
    }
    out
}

/// A flattener configuration as documents carry it: separator, depth
/// cap, pruned paths and folded paths.
pub struct ChrysaetosBitConfig {
    pub sep: String,
    pub max_depth: i32,
    pub ignore: Vec<String>,
    pub fold: Vec<String>,
}

/// The JSON flattening engine: walks a document depth first and turns
/// it into flat rows under the configured separator, depth cap, pruned
/// paths and folded paths.
pub struct ChrysaetosBit {
    pub sep: String,
    pub max_depth: i32,
    pub ignore: Vec<String>,
    pub fold: Vec<String>,
    pub task_id: String,
}

impl View for ChrysaetosBit {
    type V = FlattenCfg;

    open spec fn view(&self) -> FlattenCfg {
        FlattenCfg {
            sep: self.sep@,
            max_depth: self.max_depth as int,
            ignore: str_set(self.ignore@),
            fold: str_set(self.fold@),
        }
    }
}

impl ChrysaetosBit {
    /// A flattener with no pruned and no folded paths.
    pub fn new(task_id: String, sep: String, max_depth: i32) -> (r: ChrysaetosBit)
        ensures
            r@ == (FlattenCfg {
                sep: sep@,
                max_depth: max_depth as int,
                ignore: Set::empty(),
                fold: Set::empty(),
            }),
            r.task_id@ == task_id@,
    {
        let r = ChrysaetosBit {
            sep,
            max_depth,
            ignore: Vec::new(),
            fold: Vec::new(),
            task_id,
        };
        proof {
            assert(str_set(r.ignore@) =~= Set::<Seq<char>>::empty());
            assert(str_set(r.fold@) =~= Set::<Seq<char>>::empty());
        }
        r
    }

    /// A flattener with the full configuration.
    pub fn new_cfg(
        task_id: String,
        sep: String,
        max_depth: i32,
        fold: Vec<String>,
        ignore: Vec<String>,
    ) -> (r: ChrysaetosBit)
        ensures
            r@ == (FlattenCfg {
                sep: sep@,
                max_depth: max_depth as int,
                ignore: str_set(ignore@),
                fold: str_set(fold@),
            }),
            r.task_id@ == task_id@,
    {
        ChrysaetosBit { sep, max_depth, ignore, fold, task_id }
    }

    /// The configured separator.
    fn get_sep(&self) -> (r: &String)
        ensures
            r@ == self@.sep,
    {
        &self.sep
    }

    /// The emitted key for a child of `pre_key` named `key` at `depth`.
    fn format_key(&self, pre_key: &String, key: &String, depth: i32) -> (r: String)
        ensures
            r@ == spec_format_key(self@.sep, pre_key@, key@, depth as int),
    {
        if pre_key.as_str().is_empty() && key.as_str().is_empty() {
            return String::new();
        }
        if depth == 0 {
            return key.clone();
        }
        let mut s = pre_key.clone();
        s.append(self.sep.as_str());
        s.append(key.as_str());
        s
    }

    /// Flattens one document into rows. A root that is neither an
    /// object nor an array (null included) yields no rows.
    pub fn parse(&self, _g_id: &String, obj: &JsonValue) -> (res: Vec<Row>)
        ensures
            rows_view(res@) == spec_parse(self@, obj@),
            rows_wf(res@),
    {
        match obj {
            JsonValue::Arr(l) => {
                let empty_key = String::new();
                let start = Row::new();
                let res = self.parse_list(l, &empty_key, &start, 0);
                res
            }
            JsonValue::Obj(o) => {
                let empty_key = String::new();
                let start = Row::new();
                let res = self.parse_object(o, &empty_key, &start, 0);
                res
            }
            _ => {
                let res: Vec<Row> = Vec::new();
                proof {
                    assert(rows_view(res@) =~= Seq::<RowModel>::empty());
                }
                res
            }
        }
    }

    /// Walks the elements of an array under `pre_key`.
    #[verifier::loop_isolation(false)]
    fn parse_list(&self, obj: &Vec<JsonValue>, pre_key: &String, curr: &Row, depth: i32) -> (res:
        Vec<Row>)
        requires
            curr.wf(),
        ensures
            rows_view(res@) == spec_parse_list(
                self@,
                list_views(obj@),
                pre_key@,
                curr@,
                depth as int,
            ),
            rows_wf(res@),
        decreases obj@, 1int,
    {
        let ghost cfg = self@;
        let ghost elems = list_views(obj@);
        if self.max_depth != -1 && depth > self.max_depth {
            let mut out: Vec<Row> = Vec::new();
            out.push(curr.dup());
            proof {
                assert(rows_view(out@) =~= seq![curr@]);
            }
            return out;
        }
        let mut out: Vec<Row> = Vec::new();
        if obj.len() == 0 {
            out.push(curr.dup());
            proof {
                assert(rows_view(out@) =~= seq![curr@]);
            }
            return out;
        }
        let ghost er = list_elem_rows(cfg, elems, pre_key@, curr@, depth as int);
        let mut i: usize = 0;
        proof {
            assert(rows_view(out@) =~= er.subrange(0, 0).flatten());
        }
        while i < obj.len()
            invariant
                i <= obj@.len(),
                rows_wf(out@),
                rows_view(out@) == er.subrange(0, i as int).flatten(),
            decreases obj@.len() - i,
        {
            let ghost rows_before = rows_view(out@);
            let e = &obj[i];
            proof {
                let ve = obj@[i as int];
                assert(decreases_to!(obj@ => ve));
            }
            match e {
                JsonValue::Obj(o) => {
                    proof {
                        let ve = obj@[i as int];
                        assert(decreases_to!(ve => ve->Obj_0));
                        assert(decreases_to!(ve->Obj_0 => ve->Obj_0@));
                    }
                    let mut part = self.parse_object(o, pre_key, curr, next_depth(depth));
                    proof {
                        assert(rows_view((out@ + part@)) =~= rows_view(out@) + rows_view(part@));
                    }
                    out.append(&mut part);
                }
                JsonValue::Arr(a) => {
                    proof {
                        let ve = obj@[i as int];
                        assert(decreases_to!(ve => ve->Arr_0));
                        assert(decreases_to!(ve->Arr_0 => ve->Arr_0@));
                    }
                    let nk = self.format_key(pre_key, self.get_sep(), depth);
                    let mut part = self.parse_list(a, &nk, curr, next_depth(depth));
                    proof {
                        assert(rows_view((out@ + part@)) =~= rows_view(out@) + rows_view(part@));
                    }
                    out.append(&mut part);
                }
                _ => {
                    if !contains_str(&self.ignore, pre_key) {
                        let mut m = curr.dup();
                        m.insert(pre_key.clone(), e.dup());
                        out.push(m);
                    }
                }
            }
            proof {
                let i1 = i as int;
                assert(elems[i1] == obj@[i1]@);
                assert(er[i1] == spec_parse_list_elem(cfg, elems[i1], pre_key@, curr@, depth as int));
                assert(rows_view(out@) =~= rows_before + er[i1]);
                assert(er.subrange(0, i1 + 1) =~= er.subrange(0, i1).push(er[i1]));
                er.subrange(0, i1).lemma_flatten_push(er[i1]);
            }
            i = i + 1;
        }
        proof {
            assert(er.subrange(0, obj@.len() as int) =~= er);
        }
        out
    }

    /// Walks the entries of an object under `pre_key`.
    #[verifier::loop_isolation(false)]
    fn parse_object(
        &self,
        obj: &Vec<(String, JsonValue)>,
        pre_key: &String,
        curr: &Row,
        depth: i32,
    ) -> (res: Vec<Row>)
        requires
            curr.wf(),
        ensures
            rows_view(res@) == spec_parse_object(
                self@,
                entry_views(obj@),
                pre_key@,
                curr@,
                depth as int,
            ),
            rows_wf(res@),
        decreases obj@, 1int,
    {
        let ghost cfg = self@;
        let ghost eviews = entry_views(obj@);
        if self.max_depth != -1 && depth > self.max_depth {
            let mut out: Vec<Row> = Vec::new();
            out.push(curr.dup());
            proof {
                assert(rows_view(out@) =~= seq![curr@]);
            }
            return out;
        }
        if obj.len() == 0 {
            let mut tmp = curr.dup();
            tmp.insert(pre_key.clone(), JsonValue::Obj(Vec::new()));
            let mut out: Vec<Row> = Vec::new();
            out.push(tmp);
            proof {
                assert(entry_views(Seq::<(String, JsonValue)>::empty()) =~= Seq::<(
                    Seq<char>,
                    JsonView,
                )>::empty());
                assert(rows_view(out@) =~= seq![
                    curr@.insert(pre_key@, JsonView::Obj(Seq::empty())),
                ]);
            }
            return out;
        }
        let mut rows: Vec<Row> = Vec::new();
        rows.push(curr.dup());
        proof {
            assert(rows_view(rows@) =~= seq![curr@]);
            assert(eviews.skip(0) =~= eviews);
        }
        let mut i: usize = 0;
        while i < obj.len()
            invariant
                i <= obj@.len(),
                rows_wf(rows@),
                spec_object_step(cfg, eviews.skip(i as int), pre_key@, rows_view(rows@), depth as int)
                    == spec_object_step(cfg, eviews, pre_key@, seq![curr@], depth as int),
            decreases obj@.len() - i,
        {
            let ghost rows_before = rows_view(rows@);
            let e = &obj[i];
            let key = &e.0;
            let value = &e.1;
            proof {
                let ve = obj@[i as int];
                assert(decreases_to!(obj@ => ve));
                assert(decreases_to!(ve => ve.1));
            }
            let curr_key = self.format_key(pre_key, key, depth);
            let ghost full = curr_key@;
            let ghost rows_after_spec: Seq<RowModel>;
            if contains_str(&self.ignore, &curr_key) {
                proof {
                    rows_after_spec = rows_before;
                }
            } else if contains_str(&self.fold, &curr_key) {
                let nr = rows_with(&rows, &curr_key, value);
                rows = nr;
                proof {
                    rows_after_spec = map_insert_rows(rows_before, full, json_view(*value));
                }
            } else {
                match value {
                    JsonValue::Obj(o) => {
                        proof {
                            let ve = obj@[i as int];
                            assert(decreases_to!(ve.1 => ve.1->Obj_0));
                            assert(decreases_to!(ve.1->Obj_0 => ve.1->Obj_0@));
                        }
                        let nd = next_depth(depth);
                        let ghost across = object_across_parts(
                            cfg,
                            entry_views(o@),
                            full,
                            rows_before,
                            nd as int,
                        );
                        let mut nr: Vec<Row> = Vec::new();
                        let mut j: usize = 0;
                        proof {
                            assert(rows_view(nr@) =~= across.subrange(0, 0).flatten());
                        }
                        while j < rows.len()
                            invariant
                                j <= rows@.len(),
                                rows_wf(nr@),
                                rows_view(nr@) == across.subrange(0, j as int).flatten(),
                            decreases rows@.len() - j,
                        {
                            let mut part = self.parse_object(o, &curr_key, &rows[j], nd);
                            proof {
                                let j1 = j as int;
                                assert(rows_view((nr@ + part@)) =~= rows_view(nr@) + rows_view(
                                    part@,
                                ));
                                assert(across.subrange(0, j1 + 1) =~= across.subrange(0, j1).push(
                                    across[j1],
                                ));
                                across.subrange(0, j1).lemma_flatten_push(across[j1]);
                            }
                            nr.append(&mut part);
                            j = j + 1;
                        }
                        rows = nr;
                        proof {
                            assert(across.subrange(0, rows_before.len() as int) =~= across);
                            rows_after_spec = object_across(
                                cfg,
                                entry_views(o@),
                                full,
                                rows_before,
                                nd as int,
                            );
                            assert(rows_view(rows@) == rows_after_spec);
                        }
                    }
                    JsonValue::Arr(a) => {
                        proof {
                            let ve = obj@[i as int];
                            assert(decreases_to!(ve.1 => ve.1->Arr_0));
                            assert(decreases_to!(ve.1->Arr_0 => ve.1->Arr_0@));
                        }
                        let nd = next_depth(depth);
                        let ghost across = list_across_parts(
                            cfg,
                            list_views(a@),
                            full,
                            rows_before,
                            nd as int,
                        );
                        let mut nr: Vec<Row> = Vec::new();
                        let mut j: usize = 0;
                        proof {
                            assert(rows_view(nr@) =~= across.subrange(0, 0).flatten());
                        }
                        while j < rows.len()
                            invariant
                                j <= rows@.len(),
                                rows_wf(nr@),
                                rows_view(nr@) == across.subrange(0, j as int).flatten(),
                            decreases rows@.len() - j,
                        {
                            let mut part = self.parse_list(a, &curr_key, &rows[j], nd);
                            proof {
                                let j1 = j as int;
                                assert(rows_view((nr@ + part@)) =~= rows_view(nr@) + rows_view(
                                    part@,
                                ));
                                assert(across.subrange(0, j1 + 1) =~= across.subrange(0, j1).push(
                                    across[j1],
                                ));
                                across.subrange(0, j1).lemma_flatten_push(across[j1]);
                            }
                            nr.append(&mut part);
                            j = j + 1;
                        }
                        rows = nr;
                        proof {
                            assert(across.subrange(0, rows_before.len() as int) =~= across);
                            rows_after_spec = list_across(
                                cfg,
                                list_views(a@),
                                full,
                                rows_before,
                                nd as int,
                            );
                            assert(rows_view(rows@) == rows_after_spec);
                        }
                    }
                    _ => {
                        let nr = rows_with(&rows, &curr_key, value);
                        rows = nr;
                        proof {
                            rows_after_spec = map_insert_rows(rows_before, full, json_view(*value));
                        }
                    }
                }
            }
            proof {
                let i1 = i as int;
                assert(eviews[i1] == (obj@[i1].0@, json_view(obj@[i1].1)));
                assert(rows_view(rows@) == rows_after_spec);
                assert(eviews.skip(i1)[0] == eviews[i1]);
                assert(eviews.skip(i1).drop_first() =~= eviews.skip(i1 + 1));
                assert(spec_object_step(cfg, eviews.skip(i1), pre_key@, rows_before, depth as int)
                    == spec_object_step(
                    cfg,
                    eviews.skip(i1 + 1),
                    pre_key@,
                    rows_after_spec,
                    depth as int,
                ));
            }
            i = i + 1;
        }
        proof {
            assert(eviews.skip(obj@.len() as int) =~= Seq::<(Seq<char>, JsonView)>::empty());
        }
        rows
    }
}

} // verus!
