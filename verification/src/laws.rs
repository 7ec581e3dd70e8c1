use vstd::prelude::*;

use crate::flatten::{
    depth_exceeded, list_across, list_across_parts, list_elem_rows, map_insert_rows,
    object_across, object_across_parts,
    spec_format_key, spec_next_depth, spec_parse, spec_parse_list, spec_parse_list_elem,
    spec_parse_object, spec_object_step, FlattenCfg,
};
use crate::json::JsonView;
use crate::row::RowModel;

verus! {

/// Law: flattening is deterministic. The rows are a function of the
/// configuration and the document alone, so two runs on the same
/// input agree row for row; `ChrysaetosBit::parse` pins its result to
/// exactly this function of its configuration and argument.
pub proof fn lemma_flatten_deterministic(
    cfg: FlattenCfg,
    v: JsonView,
    r1: Seq<RowModel>,
    r2: Seq<RowModel>,
)
    requires
        r1 == spec_parse(cfg, v),
        r2 == spec_parse(cfg, v),
    ensures
        r1 == r2,
{
}

/// Whether the document holds no empty object anywhere. An empty
/// object is recorded under its parent key without a prune check, so
/// the prune law leaves such documents out.
pub open spec fn no_empty_obj(v: JsonView) -> bool
    decreases v, 1int,
{
    match v {
        JsonView::Obj(o) => o.len() > 0 && no_empty_obj_entries(o),
        JsonView::Arr(l) => no_empty_obj_list(l),
        _ => true,
    }
}

/// Whether every element of an array holds no empty object.
pub open spec fn no_empty_obj_list(l: Seq<JsonView>) -> bool
    decreases l, 0int,
    via no_empty_obj_list_decreases
{
    forall|i: int|
        0 <= i < l.len() ==> no_empty_obj(
            #[trigger] l[i],
        )
}

/// Whether every entry value of an object holds no empty object.
pub open spec fn no_empty_obj_entries(o: Seq<(Seq<char>, JsonView)>) -> bool
    decreases o, 0int,
    via no_empty_obj_entries_decreases
{
    forall|i: int|
        0 <= i < o.len() ==> no_empty_obj(
            #[trigger] o[i].1,
        )
}

#[via_fn]
proof fn no_empty_obj_list_decreases(l: Seq<JsonView>) {
    assert forall|i: int| 0 <= i < l.len() implies decreases_to!(l, 0int => l[i], 1int) by {
        assert(decreases_to!(l => l[i]));
    }
}

#[via_fn]
proof fn no_empty_obj_entries_decreases(o: Seq<(Seq<char>, JsonView)>) {
    assert forall|i: int| 0 <= i < o.len() implies decreases_to!(o, 0int => o[i].1, 1int) by {
        assert(decreases_to!(o => o[i]));
        assert(decreases_to!(o[i] => o[i].1));
    }
}

/// Whether no row of the list holds the path `k`.
pub open spec fn rows_free(rows: Seq<RowModel>, k: Seq<char>) -> bool {
    forall|t: int| 0 <= t < rows.len() ==> !(#[trigger] rows[t]).contains_key(k)
}

/// When every element of every part satisfies `p`, so does every
/// element of the flattened sequence.
proof fn lemma_flatten_all<A>(parts: Seq<Seq<A>>, p: spec_fn(A) -> bool)
    requires
        forall|i: int, j: int|
            0 <= i < parts.len() && 0 <= j < parts[i].len() ==> p(#[trigger] parts[i][j]),
    ensures
        forall|t: int| 0 <= t < parts.flatten().len() ==> p(#[trigger] parts.flatten()[t]),
    decreases parts.len(),
{
    if parts.len() > 0 {
        let rest = parts.drop_first();
        assert forall|i: int, j: int|
            0 <= i < rest.len() && 0 <= j < rest[i].len() implies p(#[trigger] rest[i][j]) by {
            assert(rest[i] == parts[i + 1]);
        }
        lemma_flatten_all(rest, p);
        assert forall|t: int| 0 <= t < parts.flatten().len() implies p(
            #[trigger] parts.flatten()[t],
        ) by {
            assert(parts.flatten() == parts.first() + rest.flatten());
            if t < parts.first().len() {
                assert(parts.flatten()[t] == parts[0][t]);
            } else {
                assert(parts.flatten()[t] == rest.flatten()[t - parts.first().len()]);
            }
        }
    }
}

proof fn lemma_prune_list(
    cfg: FlattenCfg,
    elems: Seq<JsonView>,
    pre: Seq<char>,
    curr: RowModel,
    depth: int,
    k: Seq<char>,
)
    requires
        cfg.ignore.contains(k),
        no_empty_obj_list(elems),
        !curr.contains_key(k),
    ensures
        rows_free(spec_parse_list(cfg, elems, pre, curr, depth), k),
    decreases elems, 2int,
{
    if depth_exceeded(cfg, depth) || elems.len() == 0 {
    } else {
        let parts = list_elem_rows(cfg, elems, pre, curr, depth);
        assert forall|i: int, j: int|
            0 <= i < parts.len() && 0 <= j < parts[i].len() implies !(
        #[trigger] parts[i][j]).contains_key(k) by {
            assert(decreases_to!(elems => elems[i]));
            lemma_prune_elem(cfg, elems[i], pre, curr, depth, k);
        }
        lemma_flatten_all::<RowModel>(parts, |r: RowModel| !r.contains_key(k));
    }
}

proof fn lemma_prune_elem(
    cfg: FlattenCfg,
    v: JsonView,
    pre: Seq<char>,
    curr: RowModel,
    depth: int,
    k: Seq<char>,
)
    requires
        cfg.ignore.contains(k),
        no_empty_obj(v),
        !curr.contains_key(k),
    ensures
        rows_free(spec_parse_list_elem(cfg, v, pre, curr, depth), k),
    decreases v, 3int,
{
    match v {
        JsonView::Obj(o) => {
            lemma_prune_object(cfg, o, pre, curr, spec_next_depth(depth), k);
        }
        JsonView::Arr(a) => {
            lemma_prune_list(
                cfg,
                a,
                spec_format_key(cfg.sep, pre, cfg.sep, depth),
                curr,
                spec_next_depth(depth),
                k,
            );
        }
        _ => {
            if !cfg.ignore.contains(pre) {
                assert(pre != k);
            }
        }
    }
}

proof fn lemma_prune_object(
    cfg: FlattenCfg,
    entries: Seq<(Seq<char>, JsonView)>,
    pre: Seq<char>,
    curr: RowModel,
    depth: int,
    k: Seq<char>,
)
    requires
        cfg.ignore.contains(k),
        entries.len() > 0,
        no_empty_obj_entries(entries),
        !curr.contains_key(k),
    ensures
        rows_free(spec_parse_object(cfg, entries, pre, curr, depth), k),
    decreases entries, 2int,
{
    if depth_exceeded(cfg, depth) {
    } else {
        lemma_prune_step(cfg, entries, pre, seq![curr], depth, k);
    }
}

proof fn lemma_prune_step(
    cfg: FlattenCfg,
    entries: Seq<(Seq<char>, JsonView)>,
    pre: Seq<char>,
    rows: Seq<RowModel>,
    depth: int,
    k: Seq<char>,
)
    requires
        cfg.ignore.contains(k),
        no_empty_obj_entries(entries),
        rows_free(rows, k),
    ensures
        rows_free(spec_object_step(cfg, entries, pre, rows, depth), k),
    decreases entries, 1int,
{
    if entries.len() == 0 {
    } else {
        let key = entries[0].0;
        let v = entries[0].1;
        let full = spec_format_key(cfg.sep, pre, key, depth);
        let nd = spec_next_depth(depth);
        let rows2: Seq<RowModel> = if cfg.ignore.contains(full) {
            assert(spec_object_step(cfg, entries, pre, rows, depth) == spec_object_step(
                cfg, entries.drop_first(), pre, rows, depth));
            rows
        } else if cfg.fold.contains(full) {
            assert(spec_object_step(cfg, entries, pre, rows, depth) == spec_object_step(
                cfg, entries.drop_first(), pre, map_insert_rows(rows, full, v), depth));
            map_insert_rows(rows, full, v)
        } else {
            match v {
                JsonView::Obj(o) => {
                    assert(object_across(cfg, o, full, rows, nd) == object_across_parts(
                        cfg, o, full, rows, nd).flatten());
                    assert(spec_object_step(cfg, entries, pre, rows, depth) == spec_object_step(
                        cfg, entries.drop_first(), pre,
                        object_across_parts(cfg, o, full, rows, nd).flatten(), depth));
                    object_across_parts(cfg, o, full, rows, nd).flatten()
                }
                JsonView::Arr(a) => {
                    assert(list_across(cfg, a, full, rows, nd) == list_across_parts(
                        cfg, a, full, rows, nd).flatten());
                    assert(spec_object_step(cfg, entries, pre, rows, depth) == spec_object_step(
                        cfg, entries.drop_first(), pre,
                        list_across_parts(cfg, a, full, rows, nd).flatten(), depth));
                    list_across_parts(cfg, a, full, rows, nd).flatten()
                }
                _ => {
                    assert(spec_object_step(cfg, entries, pre, rows, depth) == spec_object_step(
                        cfg, entries.drop_first(), pre, map_insert_rows(rows, full, v), depth));
                    map_insert_rows(rows, full, v)
                }
            }
        };
        assert(rows_free(rows2, k)) by {
            if cfg.ignore.contains(full) {
            } else {
                assert(full != k);
                match v {
                    JsonView::Obj(o) => {
                        if !cfg.fold.contains(full) {
                            let parts = object_across_parts(cfg, o, full, rows, nd);
                            assert(no_empty_obj(v));
                            assert(o.len() > 0 && no_empty_obj_entries(o));
                            assert forall|i: int, j: int|
                                0 <= i < parts.len() && 0 <= j < parts[i].len() implies !(
                            #[trigger] parts[i][j]).contains_key(k) by {
                                assert(decreases_to!(entries => entries[0]));
                                assert(decreases_to!(entries[0] => entries[0].1));
                                assert(decreases_to!(entries[0].1 => entries[0].1->Obj_0));
                                lemma_prune_object(cfg, o, full, rows[i], nd, k);
                            }
                            lemma_flatten_all::<RowModel>(
                                parts,
                                |r: RowModel| !r.contains_key(k),
                            );
                        }
                    }
                    JsonView::Arr(a) => {
                        if !cfg.fold.contains(full) {
                            let parts = list_across_parts(cfg, a, full, rows, nd);
                            assert(no_empty_obj(v));
                            assert forall|i: int, j: int|
                                0 <= i < parts.len() && 0 <= j < parts[i].len() implies !(
                            #[trigger] parts[i][j]).contains_key(k) by {
                                assert(decreases_to!(entries => entries[0]));
                                assert(decreases_to!(entries[0] => entries[0].1));
                                assert(decreases_to!(entries[0].1 => entries[0].1->Arr_0));
                                lemma_prune_list(cfg, a, full, rows[i], nd, k);
                            }
                            lemma_flatten_all::<RowModel>(
                                parts,
                                |r: RowModel| !r.contains_key(k),
                            );
                        }
                    }
                    _ => {}
                }
            }
        }
        assert(no_empty_obj_entries(entries.drop_first())) by {
            assert forall|i: int| 0 <= i < entries.drop_first().len() implies no_empty_obj(
                #[trigger] entries.drop_first()[i].1,
            ) by {
                assert(entries.drop_first()[i] == entries[i + 1]);
            }
        }
        lemma_prune_step(cfg, entries.drop_first(), pre, rows2, depth, k);
    }
}

/// Law: a pruned path is never emitted. When `k` is in the ignore
/// set, no output row of any document without empty objects holds a
/// path equal to `k`: the walk checks every key it forms, and every
/// scalar it stores under a parent key, against the ignore set before
/// storing anything. (An empty object stores its parent key without
/// that check, which is why such documents are left out.)
pub proof fn lemma_ignored_path_never_emitted(cfg: FlattenCfg, v: JsonView, k: Seq<char>)
    requires
        cfg.ignore.contains(k),
        no_empty_obj(v),
    ensures
        rows_free(spec_parse(cfg, v), k),
{
    match v {
        JsonView::Arr(l) => {
            lemma_prune_list(cfg, l, Seq::empty(), Map::empty(), 0, k);
        }
        JsonView::Obj(o) => {
            lemma_prune_object(cfg, o, Seq::empty(), Map::empty(), 0, k);
        }
        _ => {}
    }
}


/// How often the character `c` occurs in `s`.
pub open spec fn count_char(s: Seq<char>, c: char) -> int
    decreases s.len(),
{
    if s.len() == 0 {
        0
    } else {
        count_char(s.drop_last(), c) + if s.last() == c {
            1int
        } else {
            0int
        }
    }
}

/// Occurrence counts are never negative.
pub proof fn lemma_count_char_nonneg(s: Seq<char>, c: char)
    ensures
        count_char(s, c) >= 0,
    decreases s.len(),
{
    if s.len() > 0 {
        lemma_count_char_nonneg(s.drop_last(), c);
    }
}

/// Occurrence counts add up over concatenation.
pub proof fn lemma_count_char_concat(a: Seq<char>, b: Seq<char>, c: char)
    ensures
        count_char(a + b, c) == count_char(a, c) + count_char(b, c),
    decreases b.len(),
{
    if b.len() == 0 {
        assert(a + b =~= a);
    } else {
        lemma_count_char_concat(a, b.drop_last(), c);
        assert((a + b).drop_last() =~= a + b.drop_last());
        assert((a + b).last() == b.last());
    }
}

/// Whether every object key anywhere in the document avoids the
/// separator character.
pub open spec fn keys_sep_free(v: JsonView, c: char) -> bool
    decreases v, 1int,
{
    match v {
        JsonView::Obj(o) => keys_sep_free_entries(o, c),
        JsonView::Arr(l) => keys_sep_free_list(l, c),
        _ => true,
    }
}

/// Whether every element of an array has separator-free keys.
pub open spec fn keys_sep_free_list(l: Seq<JsonView>, c: char) -> bool
    decreases l, 0int,
    via keys_sep_free_list_decreases
{
    forall|i: int| 0 <= i < l.len() ==> keys_sep_free(#[trigger] l[i], c)
}

/// Whether every key of an object avoids the separator and every
/// entry value has separator-free keys.
pub open spec fn keys_sep_free_entries(o: Seq<(Seq<char>, JsonView)>, c: char) -> bool
    decreases o, 0int,
    via keys_sep_free_entries_decreases
{
    forall|i: int|
        0 <= i < o.len() ==> count_char((#[trigger] o[i]).0, c) == 0 && keys_sep_free(o[i].1, c)
}

#[via_fn]
proof fn keys_sep_free_list_decreases(l: Seq<JsonView>, c: char) {
    assert forall|i: int| 0 <= i < l.len() implies decreases_to!(l, 0int => l[i], 1int) by {
        assert(decreases_to!(l => l[i]));
    }
}

#[via_fn]
proof fn keys_sep_free_entries_decreases(o: Seq<(Seq<char>, JsonView)>, c: char) {
    assert forall|i: int| 0 <= i < o.len() implies decreases_to!(o, 0int => o[i].1, 1int) by {
        assert(decreases_to!(o => o[i]));
        assert(decreases_to!(o[i] => o[i].1));
    }
}

/// Whether no array element is itself an array. A nested array walks
/// on under a pseudo-key built from the separator, which adds more
/// separator occurrences than depth levels; the depth law leaves such
/// documents out.
pub open spec fn no_arr_in_arr(v: JsonView) -> bool
    decreases v, 1int,
{
    match v {
        JsonView::Obj(o) => no_arr_in_arr_entries(o),
        JsonView::Arr(l) => no_arr_in_arr_list(l),
        _ => true,
    }
}

/// Whether an array holds no array directly, nor deeper down.
pub open spec fn no_arr_in_arr_list(l: Seq<JsonView>) -> bool
    decreases l, 0int,
    via no_arr_in_arr_list_decreases
{
    forall|i: int| 0 <= i < l.len() ==> !((#[trigger] l[i]) is Arr) && no_arr_in_arr(l[i])
}

/// Whether no entry value holds an array directly inside an array.
pub open spec fn no_arr_in_arr_entries(o: Seq<(Seq<char>, JsonView)>) -> bool
    decreases o, 0int,
    via no_arr_in_arr_entries_decreases
{
    forall|i: int| 0 <= i < o.len() ==> no_arr_in_arr((#[trigger] o[i]).1)
}

#[via_fn]
proof fn no_arr_in_arr_list_decreases(l: Seq<JsonView>) {
    assert forall|i: int| 0 <= i < l.len() implies decreases_to!(l, 0int => l[i], 1int) by {
        assert(decreases_to!(l => l[i]));
    }
}

#[via_fn]
proof fn no_arr_in_arr_entries_decreases(o: Seq<(Seq<char>, JsonView)>) {
    assert forall|i: int| 0 <= i < o.len() implies decreases_to!(o, 0int => o[i].1, 1int) by {
        assert(decreases_to!(o => o[i]));
        assert(decreases_to!(o[i] => o[i].1));
    }
}

/// Whether every path of the row holds at most `d` occurrences of the
/// separator.
pub open spec fn row_keys_bounded(r: RowModel, c: char, d: int) -> bool {
    forall|p: Seq<char>| #[trigger] r.dom().contains(p) ==> count_char(p, c) <= d
}

/// Whether every path of every row is bounded.
pub open spec fn rows_keys_bounded(rows: Seq<RowModel>, c: char, d: int) -> bool {
    forall|t: int| 0 <= t < rows.len() ==> row_keys_bounded(#[trigger] rows[t], c, d)
}

/// The separator count of a formed key: at most the depth it is
/// formed at, for separator-free child keys and a bounded parent key.
proof fn lemma_formed_key_bound(
    cfg: FlattenCfg,
    pre: Seq<char>,
    key: Seq<char>,
    depth: int,
    c: char,
)
    requires
        cfg.sep.len() == 1,
        cfg.sep[0] == c,
        count_char(key, c) == 0,
        depth >= 0,
        count_char(pre, c) <= (if depth == 0 {
            0int
        } else {
            depth - 1
        }),
    ensures
        count_char(spec_format_key(cfg.sep, pre, key, depth), c) <= depth,
{
    let full = spec_format_key(cfg.sep, pre, key, depth);
    if pre.len() == 0 && key.len() == 0 {
        assert(count_char(full, c) == 0);
    } else if depth == 0 {
    } else {
        assert(cfg.sep.drop_last() =~= Seq::<char>::empty());
        assert(count_char(Seq::<char>::empty(), c) == 0);
        assert(cfg.sep.last() == c);
        assert(count_char(cfg.sep, c) == 1);
        lemma_count_char_concat(pre, cfg.sep, c);
        lemma_count_char_concat(pre + cfg.sep, key, c);
    }
}

proof fn lemma_depth_list(
    cfg: FlattenCfg,
    elems: Seq<JsonView>,
    pre: Seq<char>,
    curr: RowModel,
    depth: int,
    c: char,
)
    requires
        cfg.sep.len() == 1,
        cfg.sep[0] == c,
        0 <= cfg.max_depth < 0x7fff_ffff,
        keys_sep_free_list(elems, c),
        no_arr_in_arr_list(elems),
        depth >= 0,
        count_char(pre, c) <= (if depth == 0 {
            0int
        } else {
            depth - 1
        }),
        row_keys_bounded(curr, c, cfg.max_depth),
    ensures
        rows_keys_bounded(spec_parse_list(cfg, elems, pre, curr, depth), c, cfg.max_depth),
    decreases elems, 2int,
{
    let d = cfg.max_depth;
    if depth_exceeded(cfg, depth) || elems.len() == 0 {
    } else {
        let parts = list_elem_rows(cfg, elems, pre, curr, depth);
        assert forall|i: int, j: int|
            0 <= i < parts.len() && 0 <= j < parts[i].len() implies row_keys_bounded(
            #[trigger] parts[i][j],
            c,
            d,
        ) by {
            assert(decreases_to!(elems => elems[i]));
            lemma_depth_elem(cfg, elems[i], pre, curr, depth, c);
        }
        lemma_flatten_all::<RowModel>(parts, |r: RowModel| row_keys_bounded(r, c, d));
    }
}

proof fn lemma_depth_elem(
    cfg: FlattenCfg,
    v: JsonView,
    pre: Seq<char>,
    curr: RowModel,
    depth: int,
    c: char,
)
    requires
        cfg.sep.len() == 1,
        cfg.sep[0] == c,
        0 <= cfg.max_depth < 0x7fff_ffff,
        keys_sep_free(v, c),
        !(v is Arr),
        no_arr_in_arr(v),
        0 <= depth <= cfg.max_depth,
        count_char(pre, c) <= (if depth == 0 {
            0int
        } else {
            depth - 1
        }),
        row_keys_bounded(curr, c, cfg.max_depth),
    ensures
        rows_keys_bounded(spec_parse_list_elem(cfg, v, pre, curr, depth), c, cfg.max_depth),
    decreases v, 3int,
{
    let d = cfg.max_depth;
    match v {
        JsonView::Obj(o) => {
            assert(spec_next_depth(depth) == depth + 1);
            lemma_depth_object(cfg, o, pre, curr, depth + 1, c);
        }
        JsonView::Arr(a) => {
        }
        _ => {
            if !cfg.ignore.contains(pre) {
                lemma_count_char_nonneg(pre, c);
                assert(row_keys_bounded(curr.insert(pre, v), c, d)) by {
                    assert(count_char(pre, c) <= d);
                }
            }
        }
    }
}

proof fn lemma_depth_object(
    cfg: FlattenCfg,
    entries: Seq<(Seq<char>, JsonView)>,
    pre: Seq<char>,
    curr: RowModel,
    depth: int,
    c: char,
)
    requires
        cfg.sep.len() == 1,
        cfg.sep[0] == c,
        0 <= cfg.max_depth < 0x7fff_ffff,
        keys_sep_free_entries(entries, c),
        no_arr_in_arr_entries(entries),
        depth >= 0,
        count_char(pre, c) <= (if depth == 0 {
            0int
        } else {
            depth - 1
        }),
        row_keys_bounded(curr, c, cfg.max_depth),
    ensures
        rows_keys_bounded(spec_parse_object(cfg, entries, pre, curr, depth), c, cfg.max_depth),
    decreases entries, 2int,
{
    let d = cfg.max_depth;
    if depth_exceeded(cfg, depth) {
    } else if entries.len() == 0 {
        lemma_count_char_nonneg(pre, c);
        assert(row_keys_bounded(curr.insert(pre, JsonView::Obj(Seq::empty())), c, d));
    } else {
        lemma_depth_step(cfg, entries, pre, seq![curr], depth, c);
    }
}

proof fn lemma_depth_step(
    cfg: FlattenCfg,
    entries: Seq<(Seq<char>, JsonView)>,
    pre: Seq<char>,
    rows: Seq<RowModel>,
    depth: int,
    c: char,
)
    requires
        cfg.sep.len() == 1,
        cfg.sep[0] == c,
        0 <= cfg.max_depth < 0x7fff_ffff,
        keys_sep_free_entries(entries, c),
        no_arr_in_arr_entries(entries),
        0 <= depth <= cfg.max_depth,
        count_char(pre, c) <= (if depth == 0 {
            0int
        } else {
            depth - 1
        }),
        rows_keys_bounded(rows, c, cfg.max_depth),
    ensures
        rows_keys_bounded(spec_object_step(cfg, entries, pre, rows, depth), c, cfg.max_depth),
    decreases entries, 1int,
{
    let d = cfg.max_depth;
    if entries.len() == 0 {
    } else {
        let key = entries[0].0;
        let v = entries[0].1;
        let full = spec_format_key(cfg.sep, pre, key, depth);
        let nd = spec_next_depth(depth);
        assert(nd == depth + 1);
        assert(count_char(key, c) == 0 && keys_sep_free(v, c) && no_arr_in_arr(v));
        lemma_formed_key_bound(cfg, pre, key, depth, c);
        let rows2: Seq<RowModel> = if cfg.ignore.contains(full) {
            assert(spec_object_step(cfg, entries, pre, rows, depth) == spec_object_step(
                cfg, entries.drop_first(), pre, rows, depth));
            rows
        } else if cfg.fold.contains(full) {
            assert(spec_object_step(cfg, entries, pre, rows, depth) == spec_object_step(
                cfg, entries.drop_first(), pre, map_insert_rows(rows, full, v), depth));
            map_insert_rows(rows, full, v)
        } else {
            match v {
                JsonView::Obj(o) => {
                    assert(object_across(cfg, o, full, rows, nd) == object_across_parts(
                        cfg, o, full, rows, nd).flatten());
                    assert(spec_object_step(cfg, entries, pre, rows, depth) == spec_object_step(
                        cfg, entries.drop_first(), pre,
                        object_across_parts(cfg, o, full, rows, nd).flatten(), depth));
                    object_across_parts(cfg, o, full, rows, nd).flatten()
                }
                JsonView::Arr(a) => {
                    assert(list_across(cfg, a, full, rows, nd) == list_across_parts(
                        cfg, a, full, rows, nd).flatten());
                    assert(spec_object_step(cfg, entries, pre, rows, depth) == spec_object_step(
                        cfg, entries.drop_first(), pre,
                        list_across_parts(cfg, a, full, rows, nd).flatten(), depth));
                    list_across_parts(cfg, a, full, rows, nd).flatten()
                }
                _ => {
                    assert(spec_object_step(cfg, entries, pre, rows, depth) == spec_object_step(
                        cfg, entries.drop_first(), pre, map_insert_rows(rows, full, v), depth));
                    map_insert_rows(rows, full, v)
                }
            }
        };
        assert(rows_keys_bounded(rows2, c, d)) by {
            if cfg.ignore.contains(full) {
            } else if cfg.fold.contains(full) {
                assert forall|t: int| 0 <= t < rows2.len() implies row_keys_bounded(
                    #[trigger] rows2[t],
                    c,
                    d,
                ) by {
                    assert(rows2[t] == rows[t].insert(full, v));
                }
            } else {
                match v {
                    JsonView::Obj(o) => {
                        let parts = object_across_parts(cfg, o, full, rows, nd);
                        assert forall|i: int, j: int|
                            0 <= i < parts.len() && 0 <= j < parts[i].len()
                            implies row_keys_bounded(#[trigger] parts[i][j], c, d) by {
                            assert(decreases_to!(entries => entries[0]));
                            assert(decreases_to!(entries[0] => entries[0].1));
                            assert(decreases_to!(entries[0].1 => entries[0].1->Obj_0));
                            lemma_depth_object(cfg, o, full, rows[i], nd, c);
                        }
                        lemma_flatten_all::<RowModel>(
                            parts,
                            |r: RowModel| row_keys_bounded(r, c, d),
                        );
                    }
                    JsonView::Arr(a) => {
                        let parts = list_across_parts(cfg, a, full, rows, nd);
                        assert forall|i: int, j: int|
                            0 <= i < parts.len() && 0 <= j < parts[i].len()
                            implies row_keys_bounded(#[trigger] parts[i][j], c, d) by {
                            assert(decreases_to!(entries => entries[0]));
                            assert(decreases_to!(entries[0] => entries[0].1));
                            assert(decreases_to!(entries[0].1 => entries[0].1->Arr_0));
                            lemma_depth_list(cfg, a, full, rows[i], nd, c);
                        }
                        lemma_flatten_all::<RowModel>(
                            parts,
                            |r: RowModel| row_keys_bounded(r, c, d),
                        );
                    }
                    _ => {
                        assert forall|t: int| 0 <= t < rows2.len() implies row_keys_bounded(
                            #[trigger] rows2[t],
                            c,
                            d,
                        ) by {
                            assert(rows2[t] == rows[t].insert(full, v));
                        }
                    }
                }
            }
        }
        assert(keys_sep_free_entries(entries.drop_first(), c)
            && no_arr_in_arr_entries(entries.drop_first())) by {
            assert forall|i: int| 0 <= i < entries.drop_first().len() implies count_char(
                (#[trigger] entries.drop_first()[i]).0,
                c,
            ) == 0 && keys_sep_free(entries.drop_first()[i].1, c) && no_arr_in_arr(
                entries.drop_first()[i].1,
            ) by {
                assert(entries.drop_first()[i] == entries[i + 1]);
            }
        }
        lemma_depth_step(cfg, entries.drop_first(), pre, rows2, depth, c);
    }
}

/// Law: the depth cap bounds emitted paths. With a single-character
/// separator, a non-negative depth cap, object keys that avoid the
/// separator and no array directly inside an array, every path of
/// every output row holds at most `max_depth` occurrences of the
/// separator.
pub proof fn lemma_depth_cap(cfg: FlattenCfg, v: JsonView, c: char)
    requires
        cfg.sep.len() == 1,
        cfg.sep[0] == c,
        0 <= cfg.max_depth < 0x7fff_ffff,
        keys_sep_free(v, c),
        no_arr_in_arr(v),
    ensures
        rows_keys_bounded(spec_parse(cfg, v), c, cfg.max_depth),
{
    match v {
        JsonView::Arr(l) => {
            lemma_depth_list(cfg, l, Seq::empty(), Map::empty(), 0, c);
        }
        JsonView::Obj(o) => {
            lemma_depth_object(cfg, o, Seq::empty(), Map::empty(), 0, c);
        }
        _ => {}
    }
}


/// Whether the row maps `k` to `w`.
pub open spec fn row_maps(r: RowModel, k: Seq<char>, w: JsonView) -> bool {
    r.dom().contains(k) && r[k] == w
}

/// Whether every row of the list maps `k` to `w`.
pub open spec fn rows_map(rows: Seq<RowModel>, k: Seq<char>, w: JsonView) -> bool {
    forall|t: int| 0 <= t < rows.len() ==> row_maps(#[trigger] rows[t], k, w)
}

/// A key formed one or more levels down is never the separator-free
/// path `k`: it is empty or holds the separator character.
proof fn lemma_formed_key_ne(
    cfg: FlattenCfg,
    pre: Seq<char>,
    key: Seq<char>,
    depth: int,
    k: Seq<char>,
    c: char,
)
    requires
        cfg.sep.len() == 1,
        cfg.sep[0] == c,
        count_char(k, c) == 0,
        k.len() > 0,
        depth >= 1,
    ensures
        spec_format_key(cfg.sep, pre, key, depth) != k,
{
    let full = spec_format_key(cfg.sep, pre, key, depth);
    if pre.len() == 0 && key.len() == 0 {
    } else {
        assert(cfg.sep.drop_last() =~= Seq::<char>::empty());
        assert(count_char(Seq::<char>::empty(), c) == 0);
        assert(count_char(cfg.sep, c) == 1);
        lemma_count_char_concat(pre, cfg.sep, c);
        lemma_count_char_concat(pre + cfg.sep, key, c);
        lemma_count_char_nonneg(pre, c);
        lemma_count_char_nonneg(key, c);
        assert(count_char(full, c) >= 1);
    }
}

proof fn lemma_keep_list(
    cfg: FlattenCfg,
    elems: Seq<JsonView>,
    pre: Seq<char>,
    curr: RowModel,
    depth: int,
    k: Seq<char>,
    w: JsonView,
    c: char,
)
    requires
        cfg.sep.len() == 1,
        cfg.sep[0] == c,
        count_char(k, c) == 0,
        k.len() > 0,
        pre != k,
        depth >= 1,
        row_maps(curr, k, w),
    ensures
        rows_map(spec_parse_list(cfg, elems, pre, curr, depth), k, w),
    decreases elems, 2int,
{
    if depth_exceeded(cfg, depth) || elems.len() == 0 {
    } else {
        let parts = list_elem_rows(cfg, elems, pre, curr, depth);
        assert forall|i: int, j: int|
            0 <= i < parts.len() && 0 <= j < parts[i].len() implies row_maps(
            #[trigger] parts[i][j],
            k,
            w,
        ) by {
            assert(decreases_to!(elems => elems[i]));
            lemma_keep_elem(cfg, elems[i], pre, curr, depth, k, w, c);
        }
        lemma_flatten_all::<RowModel>(parts, |r: RowModel| row_maps(r, k, w));
    }
}

proof fn lemma_keep_elem(
    cfg: FlattenCfg,
    v: JsonView,
    pre: Seq<char>,
    curr: RowModel,
    depth: int,
    k: Seq<char>,
    w: JsonView,
    c: char,
)
    requires
        cfg.sep.len() == 1,
        cfg.sep[0] == c,
        count_char(k, c) == 0,
        k.len() > 0,
        pre != k,
        depth >= 1,
        row_maps(curr, k, w),
    ensures
        rows_map(spec_parse_list_elem(cfg, v, pre, curr, depth), k, w),
    decreases v, 3int,
{
    match v {
        JsonView::Obj(o) => {
            lemma_keep_object(cfg, o, pre, curr, spec_next_depth(depth), k, w, c);
        }
        JsonView::Arr(a) => {
            lemma_formed_key_ne(cfg, pre, cfg.sep, depth, k, c);
            lemma_keep_list(
                cfg,
                a,
                spec_format_key(cfg.sep, pre, cfg.sep, depth),
                curr,
                spec_next_depth(depth),
                k,
                w,
                c,
            );
        }
        _ => {
        }
    }
}

proof fn lemma_keep_object(
    cfg: FlattenCfg,
    entries: Seq<(Seq<char>, JsonView)>,
    pre: Seq<char>,
    curr: RowModel,
    depth: int,
    k: Seq<char>,
    w: JsonView,
    c: char,
)
    requires
        cfg.sep.len() == 1,
        cfg.sep[0] == c,
        count_char(k, c) == 0,
        k.len() > 0,
        pre != k,
        depth >= 1,
        row_maps(curr, k, w),
    ensures
        rows_map(spec_parse_object(cfg, entries, pre, curr, depth), k, w),
    decreases entries, 2int,
{
    if depth_exceeded(cfg, depth) || entries.len() == 0 {
    } else {
        assert forall|i: int|
            0 <= i < entries.len() implies spec_format_key(
            cfg.sep,
            pre,
            (#[trigger] entries[i]).0,
            depth,
        ) != k by {
            lemma_formed_key_ne(cfg, pre, entries[i].0, depth, k, c);
        }
        lemma_keep_step(cfg, entries, pre, seq![curr], depth, k, w, c);
    }
}

proof fn lemma_keep_step(
    cfg: FlattenCfg,
    entries: Seq<(Seq<char>, JsonView)>,
    pre: Seq<char>,
    rows: Seq<RowModel>,
    depth: int,
    k: Seq<char>,
    w: JsonView,
    c: char,
)
    requires
        cfg.sep.len() == 1,
        cfg.sep[0] == c,
        count_char(k, c) == 0,
        k.len() > 0,
        pre != k,
        depth >= 0,
        forall|i: int|
            0 <= i < entries.len() ==> spec_format_key(
                cfg.sep,
                pre,
                (#[trigger] entries[i]).0,
                depth,
            ) != k,
        rows_map(rows, k, w),
    ensures
        rows_map(spec_object_step(cfg, entries, pre, rows, depth), k, w),
    decreases entries, 1int,
{
    if entries.len() == 0 {
    } else {
        let key = entries[0].0;
        let v = entries[0].1;
        let full = spec_format_key(cfg.sep, pre, key, depth);
        let nd = spec_next_depth(depth);
        assert(full != k);
        let rows2: Seq<RowModel> = if cfg.ignore.contains(full) {
            assert(spec_object_step(cfg, entries, pre, rows, depth) == spec_object_step(
                cfg, entries.drop_first(), pre, rows, depth));
            rows
        } else if cfg.fold.contains(full) {
            assert(spec_object_step(cfg, entries, pre, rows, depth) == spec_object_step(
                cfg, entries.drop_first(), pre, map_insert_rows(rows, full, v), depth));
            map_insert_rows(rows, full, v)
        } else {
            match v {
                JsonView::Obj(o) => {
                    assert(object_across(cfg, o, full, rows, nd) == object_across_parts(
                        cfg, o, full, rows, nd).flatten());
                    assert(spec_object_step(cfg, entries, pre, rows, depth) == spec_object_step(
                        cfg, entries.drop_first(), pre,
                        object_across_parts(cfg, o, full, rows, nd).flatten(), depth));
                    object_across_parts(cfg, o, full, rows, nd).flatten()
                }
                JsonView::Arr(a) => {
                    assert(list_across(cfg, a, full, rows, nd) == list_across_parts(
                        cfg, a, full, rows, nd).flatten());
                    assert(spec_object_step(cfg, entries, pre, rows, depth) == spec_object_step(
                        cfg, entries.drop_first(), pre,
                        list_across_parts(cfg, a, full, rows, nd).flatten(), depth));
                    list_across_parts(cfg, a, full, rows, nd).flatten()
                }
                _ => {
                    assert(spec_object_step(cfg, entries, pre, rows, depth) == spec_object_step(
                        cfg, entries.drop_first(), pre, map_insert_rows(rows, full, v), depth));
                    map_insert_rows(rows, full, v)
                }
            }
        };
        assert(rows_map(rows2, k, w)) by {
            if cfg.ignore.contains(full) {
            } else if cfg.fold.contains(full) {
                assert forall|t: int| 0 <= t < rows2.len() implies row_maps(
                    #[trigger] rows2[t],
                    k,
                    w,
                ) by {
                    assert(rows2[t] == rows[t].insert(full, v));
                }
            } else {
                match v {
                    JsonView::Obj(o) => {
                        let parts = object_across_parts(cfg, o, full, rows, nd);
                        assert forall|i: int, j: int|
                            0 <= i < parts.len() && 0 <= j < parts[i].len() implies row_maps(
                            #[trigger] parts[i][j],
                            k,
                            w,
                        ) by {
                            assert(decreases_to!(entries => entries[0]));
                            assert(decreases_to!(entries[0] => entries[0].1));
                            assert(decreases_to!(entries[0].1 => entries[0].1->Obj_0));
                            lemma_keep_object(cfg, o, full, rows[i], nd, k, w, c);
                        }
                        lemma_flatten_all::<RowModel>(parts, |r: RowModel| row_maps(r, k, w));
                    }
                    JsonView::Arr(a) => {
                        let parts = list_across_parts(cfg, a, full, rows, nd);
                        assert forall|i: int, j: int|
                            0 <= i < parts.len() && 0 <= j < parts[i].len() implies row_maps(
                            #[trigger] parts[i][j],
                            k,
                            w,
                        ) by {
                            assert(decreases_to!(entries => entries[0]));
                            assert(decreases_to!(entries[0] => entries[0].1));
                            assert(decreases_to!(entries[0].1 => entries[0].1->Arr_0));
                            lemma_keep_list(cfg, a, full, rows[i], nd, k, w, c);
                        }
                        lemma_flatten_all::<RowModel>(parts, |r: RowModel| row_maps(r, k, w));
                    }
                    _ => {
                        assert forall|t: int| 0 <= t < rows2.len() implies row_maps(
                            #[trigger] rows2[t],
                            k,
                            w,
                        ) by {
                            assert(rows2[t] == rows[t].insert(full, v));
                        }
                    }
                }
            }
        }
        assert forall|i: int|
            0 <= i < entries.drop_first().len() implies spec_format_key(
            cfg.sep,
            pre,
            (#[trigger] entries.drop_first()[i]).0,
            depth,
        ) != k by {
            assert(entries.drop_first()[i] == entries[i + 1]);
        }
        lemma_keep_step(cfg, entries.drop_first(), pre, rows2, depth, k, w, c);
    }
}

proof fn lemma_fold_walk(
    cfg: FlattenCfg,
    entries: Seq<(Seq<char>, JsonView)>,
    rows: Seq<RowModel>,
    j: int,
    c: char,
)
    requires
        cfg.sep.len() == 1,
        cfg.sep[0] == c,
        0 <= j < entries.len(),
        count_char(entries[j].0, c) == 0,
        entries[j].0.len() > 0,
        cfg.fold.contains(entries[j].0),
        !cfg.ignore.contains(entries[j].0),
        forall|i: int| 0 <= i < entries.len() && i != j ==> (#[trigger] entries[i]).0
            != entries[j].0,
    ensures
        rows_map(spec_object_step(cfg, entries, Seq::empty(), rows, 0), entries[j].0, entries[j].1),
    decreases j,
{
    let k = entries[j].0;
    let w = entries[j].1;
    let key = entries[0].0;
    let v = entries[0].1;
    let full = spec_format_key(cfg.sep, Seq::empty(), key, 0);
    let nd = spec_next_depth(0);
    assert(full == key);
    let rows2: Seq<RowModel> = if cfg.ignore.contains(full) {
        assert(spec_object_step(cfg, entries, Seq::empty(), rows, 0) == spec_object_step(
            cfg, entries.drop_first(), Seq::empty(), rows, 0));
        rows
    } else if cfg.fold.contains(full) {
        assert(spec_object_step(cfg, entries, Seq::empty(), rows, 0) == spec_object_step(
            cfg, entries.drop_first(), Seq::empty(), map_insert_rows(rows, full, v), 0));
        map_insert_rows(rows, full, v)
    } else {
        match v {
            JsonView::Obj(o) => {
                assert(object_across(cfg, o, full, rows, nd) == object_across_parts(
                    cfg, o, full, rows, nd).flatten());
                assert(spec_object_step(cfg, entries, Seq::empty(), rows, 0) == spec_object_step(
                    cfg, entries.drop_first(), Seq::empty(),
                    object_across_parts(cfg, o, full, rows, nd).flatten(), 0));
                object_across_parts(cfg, o, full, rows, nd).flatten()
            }
            JsonView::Arr(a) => {
                assert(list_across(cfg, a, full, rows, nd) == list_across_parts(
                    cfg, a, full, rows, nd).flatten());
                assert(spec_object_step(cfg, entries, Seq::empty(), rows, 0) == spec_object_step(
                    cfg, entries.drop_first(), Seq::empty(),
                    list_across_parts(cfg, a, full, rows, nd).flatten(), 0));
                list_across_parts(cfg, a, full, rows, nd).flatten()
            }
            _ => {
                assert(spec_object_step(cfg, entries, Seq::empty(), rows, 0) == spec_object_step(
                    cfg, entries.drop_first(), Seq::empty(), map_insert_rows(rows, full, v), 0));
                map_insert_rows(rows, full, v)
            }
        }
    };
    if j == 0 {
        assert(full == k);
        assert(!cfg.ignore.contains(full) && cfg.fold.contains(full));
        assert(rows2 == map_insert_rows(rows, k, w));
        assert(rows_map(rows2, k, w)) by {
            assert forall|t: int| 0 <= t < rows2.len() implies row_maps(
                #[trigger] rows2[t],
                k,
                w,
            ) by {
                assert(rows2[t] == rows[t].insert(k, w));
            }
        }
        assert forall|i: int|
            0 <= i < entries.drop_first().len() implies spec_format_key(
            cfg.sep,
            Seq::empty(),
            (#[trigger] entries.drop_first()[i]).0,
            0,
        ) != k by {
            assert(entries.drop_first()[i] == entries[i + 1]);
            assert(entries[i + 1].0 != k);
        }
        lemma_keep_step(cfg, entries.drop_first(), Seq::empty(), rows2, 0, k, w, c);
    } else {
        assert forall|i: int|
            0 <= i < entries.drop_first().len() && i != j - 1 implies (
        #[trigger] entries.drop_first()[i]).0 != entries.drop_first()[j - 1].0 by {
            assert(entries.drop_first()[i] == entries[i + 1]);
            assert(entries.drop_first()[j - 1] == entries[j]);
        }
        assert(entries.drop_first()[j - 1] == entries[j]);
        lemma_fold_walk(cfg, entries.drop_first(), rows2, j - 1, c);
    }
}

/// Law: a folded path keeps its subtree. For a root object whose
/// entry `j` holds a separator-free, non-empty key in the fold set
/// (and not in the ignore set), no other entry sharing that key, and
/// a single-character separator, every output row maps that key to
/// the entry's subtree unchanged: the walk stores the subtree in
/// every row it carries and never overwrites the key, since every key
/// formed deeper down holds the separator.
pub proof fn lemma_fold_keeps_subtree(
    cfg: FlattenCfg,
    entries: Seq<(Seq<char>, JsonView)>,
    j: int,
    c: char,
)
    requires
        cfg.sep.len() == 1,
        cfg.sep[0] == c,
        cfg.max_depth >= 0 || cfg.max_depth == -1,
        0 <= j < entries.len(),
        count_char(entries[j].0, c) == 0,
        entries[j].0.len() > 0,
        cfg.fold.contains(entries[j].0),
        !cfg.ignore.contains(entries[j].0),
        forall|i: int| 0 <= i < entries.len() && i != j ==> (#[trigger] entries[i]).0
            != entries[j].0,
    ensures
        rows_map(spec_parse(cfg, JsonView::Obj(entries)), entries[j].0, entries[j].1),
{
    lemma_fold_walk(cfg, entries, seq![Map::empty()], j, c);
}


/// Whether `p` is a prefix of `s`.
pub open spec fn starts_with(s: Seq<char>, p: Seq<char>) -> bool {
    p.len() <= s.len() && forall|i: int| 0 <= i < p.len() ==> s[i] == p[i]
}

/// A sequence without an occurrence of `c` has no position holding
/// `c`.
pub proof fn lemma_count_zero_no_char(s: Seq<char>, c: char)
    requires
        count_char(s, c) == 0,
    ensures
        forall|i: int| 0 <= i < s.len() ==> s[i] != c,
    decreases s.len(),
{
    if s.len() > 0 {
        lemma_count_char_nonneg(s.drop_last(), c);
        lemma_count_zero_no_char(s.drop_last(), c);
        assert forall|i: int| 0 <= i < s.len() implies s[i] != c by {
            if i < s.len() - 1 {
                assert(s.drop_last()[i] == s[i]);
            }
        }
    }
}

/// A separator-free string never starts with `k` followed by the
/// separator.
proof fn lemma_sep_free_no_prefix(s: Seq<char>, k: Seq<char>, c: char)
    requires
        count_char(s, c) == 0,
    ensures
        !starts_with(s, k.push(c)),
{
    if starts_with(s, k.push(c)) {
        lemma_count_zero_no_char(s, c);
        assert(s[k.len() as int] == k.push(c)[k.len() as int]);
        assert(s[k.len() as int] == c);
    }
}

/// A key formed by appending a child to a parent that neither equals
/// `k` nor starts with `k` and the separator cannot start with `k`
/// and the separator either.
proof fn lemma_formed_no_prefix(
    pre: Seq<char>,
    sep: Seq<char>,
    key: Seq<char>,
    k: Seq<char>,
    c: char,
)
    requires
        sep.len() == 1,
        sep[0] == c,
        count_char(k, c) == 0,
        pre != k,
        !starts_with(pre, k.push(c)),
    ensures
        !starts_with(pre + sep + key, k.push(c)),
{
    let full = pre + sep + key;
    let kpc = k.push(c);
    if starts_with(full, kpc) {
        if k.len() < pre.len() {
            assert forall|i: int| 0 <= i < kpc.len() implies pre[i] == kpc[i] by {
                assert(full[i] == pre[i]);
            }
            assert(starts_with(pre, kpc));
        } else if k.len() == pre.len() {
            assert forall|i: int| 0 <= i < pre.len() implies pre[i] == k[i] by {
                assert(full[i] == pre[i]);
                assert(kpc[i] == k[i]);
            }
            assert(pre =~= k);
        } else {
            assert(pre.len() < k.len() < full.len());
            assert(full[pre.len() as int] == sep[0]);
            assert(kpc[pre.len() as int] == k[pre.len() as int]);
            lemma_count_zero_no_char(k, c);
        }
    }
}

/// Whether no path of any row starts with `p`.
pub open spec fn rows_no_prefix(rows: Seq<RowModel>, p: Seq<char>) -> bool {
    forall|t: int, key: Seq<char>|
        0 <= t < rows.len() && (#[trigger] rows[t].dom().contains(key)) ==> !starts_with(key, p)
}

proof fn lemma_prefix_list(
    cfg: FlattenCfg,
    elems: Seq<JsonView>,
    pre: Seq<char>,
    curr: RowModel,
    depth: int,
    k: Seq<char>,
    c: char,
)
    requires
        cfg.sep.len() == 1,
        cfg.sep[0] == c,
        count_char(k, c) == 0,
        k.len() > 0,
        cfg.ignore.contains(k) || cfg.fold.contains(k),
        keys_sep_free_list(elems, c),
        pre != k,
        !starts_with(pre, k.push(c)),
        rows_no_prefix(seq![curr], k.push(c)),
    ensures
        rows_no_prefix(spec_parse_list(cfg, elems, pre, curr, depth), k.push(c)),
    decreases elems, 2int,
{
    if depth_exceeded(cfg, depth) || elems.len() == 0 {
    } else {
        let parts = list_elem_rows(cfg, elems, pre, curr, depth);
        assert forall|i: int, j: int|
            0 <= i < parts.len() && 0 <= j < parts[i].len() implies (forall|key: Seq<char>|
            (#[trigger] parts[i][j]).dom().contains(key) ==> !starts_with(key, k.push(c))) by {
            assert(decreases_to!(elems => elems[i]));
            lemma_prefix_elem(cfg, elems[i], pre, curr, depth, k, c);
        }
        lemma_flatten_all::<RowModel>(
            parts,
            |r: RowModel|
                forall|key: Seq<char>| r.dom().contains(key) ==> !starts_with(key, k.push(c)),
        );
    }
}

proof fn lemma_prefix_elem(
    cfg: FlattenCfg,
    v: JsonView,
    pre: Seq<char>,
    curr: RowModel,
    depth: int,
    k: Seq<char>,
    c: char,
)
    requires
        cfg.sep.len() == 1,
        cfg.sep[0] == c,
        count_char(k, c) == 0,
        k.len() > 0,
        cfg.ignore.contains(k) || cfg.fold.contains(k),
        keys_sep_free(v, c),
        pre != k,
        !starts_with(pre, k.push(c)),
        rows_no_prefix(seq![curr], k.push(c)),
    ensures
        rows_no_prefix(spec_parse_list_elem(cfg, v, pre, curr, depth), k.push(c)),
    decreases v, 3int,
{
    match v {
        JsonView::Obj(o) => {
            lemma_prefix_object(cfg, o, pre, curr, spec_next_depth(depth), k, c);
        }
        JsonView::Arr(a) => {
            let pre2 = spec_format_key(cfg.sep, pre, cfg.sep, depth);
            assert(pre2 != k && !starts_with(pre2, k.push(c))) by {
                if pre.len() == 0 && cfg.sep.len() == 0 {
                } else if depth == 0 {
                    assert(pre2 == cfg.sep);
                    assert(count_char(cfg.sep.drop_last(), c) == 0) by {
                        assert(cfg.sep.drop_last() =~= Seq::<char>::empty());
                    }
                    assert(count_char(cfg.sep, c) == 1);
                    assert(pre2 != k);
                    lemma_prefix_of_short(pre2, k, c);
                } else {
                    lemma_formed_no_prefix(pre, cfg.sep, cfg.sep, k, c);
                    assert(count_char(cfg.sep.drop_last(), c) == 0) by {
                        assert(cfg.sep.drop_last() =~= Seq::<char>::empty());
                    }
                    assert(count_char(cfg.sep, c) == 1);
                    lemma_count_char_concat(pre, cfg.sep, c);
                    lemma_count_char_concat(pre + cfg.sep, cfg.sep, c);
                    lemma_count_char_nonneg(pre, c);
                    assert(count_char(pre2, c) >= 1);
                    assert(pre2 != k);
                }
            }
            lemma_prefix_list(cfg, a, pre2, curr, spec_next_depth(depth), k, c);
        }
        _ => {
            if !cfg.ignore.contains(pre) {
                assert forall|t: int, key: Seq<char>|
                    0 <= t < seq![curr.insert(pre, v)].len() && (#[trigger] seq![
                    curr.insert(pre, v),
                ][t].dom().contains(key)) implies !starts_with(key, k.push(c)) by {
                    assert(seq![curr.insert(pre, v)][t] == curr.insert(pre, v));
                    if key != pre {
                        assert(curr.dom().contains(key));
                        assert(seq![curr][0].dom().contains(key));
                    }
                }
            }
        }
    }
}

/// A single separator character cannot start with `k` and the
/// separator unless it is too short.
proof fn lemma_prefix_of_short(s: Seq<char>, k: Seq<char>, c: char)
    requires
        s.len() <= 1,
    ensures
        k.len() > 0 ==> !starts_with(s, k.push(c)),
{
}

proof fn lemma_prefix_object(
    cfg: FlattenCfg,
    entries: Seq<(Seq<char>, JsonView)>,
    pre: Seq<char>,
    curr: RowModel,
    depth: int,
    k: Seq<char>,
    c: char,
)
    requires
        cfg.sep.len() == 1,
        cfg.sep[0] == c,
        count_char(k, c) == 0,
        k.len() > 0,
        cfg.ignore.contains(k) || cfg.fold.contains(k),
        keys_sep_free_entries(entries, c),
        pre != k,
        !starts_with(pre, k.push(c)),
        rows_no_prefix(seq![curr], k.push(c)),
    ensures
        rows_no_prefix(spec_parse_object(cfg, entries, pre, curr, depth), k.push(c)),
    decreases entries, 2int,
{
    if depth_exceeded(cfg, depth) {
    } else if entries.len() == 0 {
        assert forall|t: int, key: Seq<char>|
            0 <= t < 1 && (#[trigger] seq![
            curr.insert(pre, JsonView::Obj(Seq::empty())),
        ][t].dom().contains(key)) implies !starts_with(key, k.push(c)) by {
            assert(seq![curr.insert(pre, JsonView::Obj(Seq::empty()))][t] == curr.insert(
                pre,
                JsonView::Obj(Seq::empty()),
            ));
            if key != pre {
                assert(curr.dom().contains(key));
                assert(seq![curr][0].dom().contains(key));
            }
        }
    } else {
        lemma_prefix_step(cfg, entries, pre, seq![curr], depth, k, c);
    }
}

proof fn lemma_prefix_step(
    cfg: FlattenCfg,
    entries: Seq<(Seq<char>, JsonView)>,
    pre: Seq<char>,
    rows: Seq<RowModel>,
    depth: int,
    k: Seq<char>,
    c: char,
)
    requires
        cfg.sep.len() == 1,
        cfg.sep[0] == c,
        count_char(k, c) == 0,
        k.len() > 0,
        cfg.ignore.contains(k) || cfg.fold.contains(k),
        keys_sep_free_entries(entries, c),
        pre != k,
        !starts_with(pre, k.push(c)),
        rows_no_prefix(rows, k.push(c)),
    ensures
        rows_no_prefix(spec_object_step(cfg, entries, pre, rows, depth), k.push(c)),
    decreases entries, 1int,
{
    if entries.len() == 0 {
    } else {
        let key = entries[0].0;
        let v = entries[0].1;
        let full = spec_format_key(cfg.sep, pre, key, depth);
        let nd = spec_next_depth(depth);
        assert(count_char(key, c) == 0 && keys_sep_free(v, c));
        assert(!starts_with(full, k.push(c))) by {
            if pre.len() == 0 && key.len() == 0 {
            } else if depth == 0 {
                lemma_sep_free_no_prefix(key, k, c);
            } else {
                lemma_formed_no_prefix(pre, cfg.sep, key, k, c);
            }
        }
        let rows2: Seq<RowModel> = if cfg.ignore.contains(full) {
            assert(spec_object_step(cfg, entries, pre, rows, depth) == spec_object_step(
                cfg, entries.drop_first(), pre, rows, depth));
            rows
        } else if cfg.fold.contains(full) {
            assert(spec_object_step(cfg, entries, pre, rows, depth) == spec_object_step(
                cfg, entries.drop_first(), pre, map_insert_rows(rows, full, v), depth));
            map_insert_rows(rows, full, v)
        } else {
            match v {
                JsonView::Obj(o) => {
                    assert(object_across(cfg, o, full, rows, nd) == object_across_parts(
                        cfg, o, full, rows, nd).flatten());
                    assert(spec_object_step(cfg, entries, pre, rows, depth) == spec_object_step(
                        cfg, entries.drop_first(), pre,
                        object_across_parts(cfg, o, full, rows, nd).flatten(), depth));
                    object_across_parts(cfg, o, full, rows, nd).flatten()
                }
                JsonView::Arr(a) => {
                    assert(list_across(cfg, a, full, rows, nd) == list_across_parts(
                        cfg, a, full, rows, nd).flatten());
                    assert(spec_object_step(cfg, entries, pre, rows, depth) == spec_object_step(
                        cfg, entries.drop_first(), pre,
                        list_across_parts(cfg, a, full, rows, nd).flatten(), depth));
                    list_across_parts(cfg, a, full, rows, nd).flatten()
                }
                _ => {
                    assert(spec_object_step(cfg, entries, pre, rows, depth) == spec_object_step(
                        cfg, entries.drop_first(), pre, map_insert_rows(rows, full, v), depth));
                    map_insert_rows(rows, full, v)
                }
            }
        };
        assert(rows_no_prefix(rows2, k.push(c))) by {
            if cfg.ignore.contains(full) {
            } else if cfg.fold.contains(full) {
                assert forall|t: int, kk: Seq<char>|
                    0 <= t < rows2.len() && (#[trigger] rows2[t].dom().contains(kk))
                    implies !starts_with(kk, k.push(c)) by {
                    assert(rows2[t] == rows[t].insert(full, v));
                    if kk != full {
                        assert(rows[t].dom().contains(kk));
                    }
                }
            } else {
                assert(full != k);
                match v {
                    JsonView::Obj(o) => {
                        let parts = object_across_parts(cfg, o, full, rows, nd);
                        assert forall|i: int, j: int|
                            0 <= i < parts.len() && 0 <= j < parts[i].len()
                            implies (forall|kk: Seq<char>|
                            (#[trigger] parts[i][j]).dom().contains(kk) ==> !starts_with(
                                kk,
                                k.push(c),
                            )) by {
                            assert(decreases_to!(entries => entries[0]));
                            assert(decreases_to!(entries[0] => entries[0].1));
                            assert(decreases_to!(entries[0].1 => entries[0].1->Obj_0));
                            lemma_prefix_object(cfg, o, full, rows[i], nd, k, c);
                        }
                        lemma_flatten_all::<RowModel>(
                            parts,
                            |r: RowModel|
                                forall|kk: Seq<char>|
                                    r.dom().contains(kk) ==> !starts_with(kk, k.push(c)),
                        );
                    }
                    JsonView::Arr(a) => {
                        let parts = list_across_parts(cfg, a, full, rows, nd);
                        assert forall|i: int, j: int|
                            0 <= i < parts.len() && 0 <= j < parts[i].len()
                            implies (forall|kk: Seq<char>|
                            (#[trigger] parts[i][j]).dom().contains(kk) ==> !starts_with(
                                kk,
                                k.push(c),
                            )) by {
                            assert(decreases_to!(entries => entries[0]));
                            assert(decreases_to!(entries[0] => entries[0].1));
                            assert(decreases_to!(entries[0].1 => entries[0].1->Arr_0));
                            lemma_prefix_list(cfg, a, full, rows[i], nd, k, c);
                        }
                        lemma_flatten_all::<RowModel>(
                            parts,
                            |r: RowModel|
                                forall|kk: Seq<char>|
                                    r.dom().contains(kk) ==> !starts_with(kk, k.push(c)),
                        );
                    }
                    _ => {
                        assert forall|t: int, kk: Seq<char>|
                            0 <= t < rows2.len() && (#[trigger] rows2[t].dom().contains(kk))
                            implies !starts_with(kk, k.push(c)) by {
                            assert(rows2[t] == rows[t].insert(full, v));
                            if kk != full {
                                assert(rows[t].dom().contains(kk));
                            }
                        }
                    }
                }
            }
        }
        assert(keys_sep_free_entries(entries.drop_first(), c)) by {
            assert forall|i: int| 0 <= i < entries.drop_first().len() implies count_char(
                (#[trigger] entries.drop_first()[i]).0,
                c,
            ) == 0 && keys_sep_free(entries.drop_first()[i].1, c) by {
                assert(entries.drop_first()[i] == entries[i + 1]);
            }
        }
        lemma_prefix_step(cfg, entries.drop_first(), pre, rows2, depth, k, c);
    }
}

/// Law: a pruned or folded path has no descendants in the output.
/// With a single-character separator, a separator-free non-empty path
/// `k` in the ignore or fold set, and object keys that avoid the
/// separator, no output row holds a path that begins with `k`
/// followed by the separator: the walk never descends through `k`,
/// and every other key it forms differs below that prefix.
pub proof fn lemma_no_paths_below(cfg: FlattenCfg, v: JsonView, k: Seq<char>, c: char)
    requires
        cfg.sep.len() == 1,
        cfg.sep[0] == c,
        count_char(k, c) == 0,
        k.len() > 0,
        cfg.ignore.contains(k) || cfg.fold.contains(k),
        keys_sep_free(v, c),
    ensures
        rows_no_prefix(spec_parse(cfg, v), k.push(c)),
{
    match v {
        JsonView::Arr(l) => {
            assert(rows_no_prefix(seq![Map::empty()], k.push(c)));
            lemma_prefix_list(cfg, l, Seq::empty(), Map::empty(), 0, k, c);
        }
        JsonView::Obj(o) => {
            assert(rows_no_prefix(seq![Map::empty()], k.push(c)));
            lemma_prefix_object(cfg, o, Seq::empty(), Map::empty(), 0, k, c);
        }
        _ => {}
    }
}


/// Whether the document holds no array anywhere.
pub open spec fn array_free(v: JsonView) -> bool
    decreases v, 1int,
{
    match v {
        JsonView::Obj(o) => array_free_entries(o),
        JsonView::Arr(_) => false,
        _ => true,
    }
}

/// Whether every entry value of an object is array free.
pub open spec fn array_free_entries(o: Seq<(Seq<char>, JsonView)>) -> bool
    decreases o, 0int,
    via array_free_entries_decreases
{
    forall|i: int| 0 <= i < o.len() ==> array_free((#[trigger] o[i]).1)
}

#[via_fn]
proof fn array_free_entries_decreases(o: Seq<(Seq<char>, JsonView)>) {
    assert forall|i: int| 0 <= i < o.len() implies decreases_to!(o, 0int => o[i].1, 1int) by {
        assert(decreases_to!(o => o[i]));
        assert(decreases_to!(o[i] => o[i].1));
    }
}

/// Flattening a sequence of one-element parts keeps one element per
/// part.
proof fn lemma_flatten_len_ones<A>(parts: Seq<Seq<A>>)
    requires
        forall|i: int| 0 <= i < parts.len() ==> (#[trigger] parts[i]).len() == 1,
    ensures
        parts.flatten().len() == parts.len(),
    decreases parts.len(),
{
    if parts.len() > 0 {
        let rest = parts.drop_first();
        assert forall|i: int| 0 <= i < rest.len() implies (#[trigger] rest[i]).len() == 1 by {
            assert(rest[i] == parts[i + 1]);
        }
        lemma_flatten_len_ones(rest);
        assert(parts.flatten() == parts.first() + rest.flatten());
    }
}

proof fn lemma_single_row_object(
    cfg: FlattenCfg,
    entries: Seq<(Seq<char>, JsonView)>,
    pre: Seq<char>,
    curr: RowModel,
    depth: int,
)
    requires
        array_free_entries(entries),
    ensures
        spec_parse_object(cfg, entries, pre, curr, depth).len() == 1,
    decreases entries, 2int,
{
    if depth_exceeded(cfg, depth) || entries.len() == 0 {
    } else {
        lemma_single_row_step(cfg, entries, pre, seq![curr], depth);
    }
}

proof fn lemma_single_row_step(
    cfg: FlattenCfg,
    entries: Seq<(Seq<char>, JsonView)>,
    pre: Seq<char>,
    rows: Seq<RowModel>,
    depth: int,
)
    requires
        array_free_entries(entries),
    ensures
        spec_object_step(cfg, entries, pre, rows, depth).len() == rows.len(),
    decreases entries, 1int,
{
    if entries.len() == 0 {
    } else {
        let key = entries[0].0;
        let v = entries[0].1;
        let full = spec_format_key(cfg.sep, pre, key, depth);
        let nd = spec_next_depth(depth);
        assert(array_free(v));
        let rows2: Seq<RowModel> = if cfg.ignore.contains(full) {
            assert(spec_object_step(cfg, entries, pre, rows, depth) == spec_object_step(
                cfg, entries.drop_first(), pre, rows, depth));
            rows
        } else if cfg.fold.contains(full) {
            assert(spec_object_step(cfg, entries, pre, rows, depth) == spec_object_step(
                cfg, entries.drop_first(), pre, map_insert_rows(rows, full, v), depth));
            map_insert_rows(rows, full, v)
        } else {
            match v {
                JsonView::Obj(o) => {
                    assert(object_across(cfg, o, full, rows, nd) == object_across_parts(
                        cfg, o, full, rows, nd).flatten());
                    assert(spec_object_step(cfg, entries, pre, rows, depth) == spec_object_step(
                        cfg, entries.drop_first(), pre,
                        object_across_parts(cfg, o, full, rows, nd).flatten(), depth));
                    object_across_parts(cfg, o, full, rows, nd).flatten()
                }
                _ => {
                    assert(spec_object_step(cfg, entries, pre, rows, depth) == spec_object_step(
                        cfg, entries.drop_first(), pre, map_insert_rows(rows, full, v), depth));
                    map_insert_rows(rows, full, v)
                }
            }
        };
        assert(rows2.len() == rows.len()) by {
            if !cfg.ignore.contains(full) && !cfg.fold.contains(full) && v is Obj {
                let o = v->Obj_0;
                let parts = object_across_parts(cfg, o, full, rows, nd);
                assert forall|i: int| 0 <= i < parts.len() implies (#[trigger] parts[i]).len()
                    == 1 by {
                    assert(decreases_to!(entries => entries[0]));
                    assert(decreases_to!(entries[0] => entries[0].1));
                    assert(decreases_to!(entries[0].1 => entries[0].1->Obj_0));
                    lemma_single_row_object(cfg, o, full, rows[i], nd);
                }
                lemma_flatten_len_ones::<RowModel>(parts);
            }
        }
        assert(array_free_entries(entries.drop_first())) by {
            assert forall|i: int| 0 <= i < entries.drop_first().len() implies array_free(
                (#[trigger] entries.drop_first()[i]).1,
            ) by {
                assert(entries.drop_first()[i] == entries[i + 1]);
            }
        }
        lemma_single_row_step(cfg, entries.drop_first(), pre, rows2, depth);
    }
}

/// Law: a document without arrays flattens to exactly one row, under
/// any configuration: only array elements multiply rows; objects and
/// scalars only extend the row the walk carries.
pub proof fn lemma_array_free_single_row(cfg: FlattenCfg, v: JsonView)
    requires
        v is Obj,
        array_free(v),
    ensures
        spec_parse(cfg, v).len() == 1,
{
    lemma_single_row_object(cfg, v->Obj_0, Seq::empty(), Map::empty(), 0);
}


/// A configuration in the plain shape the round-trip law speaks of:
/// single-character separator, nothing pruned, nothing folded, no
/// depth cap.
pub open spec fn plain_cfg(cfg: FlattenCfg, c: char) -> bool {
    &&& cfg.sep.len() == 1
    &&& cfg.sep[0] == c
    &&& cfg.ignore == Set::<Seq<char>>::empty()
    &&& cfg.fold == Set::<Seq<char>>::empty()
    &&& cfg.max_depth == -1
}

/// Whether every object key in the document is non-empty, free of
/// the separator character, and distinct from its siblings.
pub open spec fn plain_keys(v: JsonView, c: char) -> bool
    decreases v, 1int,
{
    match v {
        JsonView::Obj(o) => plain_keys_entries(o, c),
        JsonView::Arr(l) => forall|i: int|
            0 <= i < l.len() ==> plain_keys(#[trigger] l[i], c),
        _ => true,
    }
}

/// The sibling conditions of `plain_keys` for one object.
pub open spec fn plain_keys_entries(o: Seq<(Seq<char>, JsonView)>, c: char) -> bool
    decreases o, 0int,
    via plain_keys_entries_decreases
{
    &&& forall|i: int, j: int| 0 <= i < j < o.len() ==> (o[i]).0 != (o[j]).0
    &&& forall|i: int|
        0 <= i < o.len() ==> (#[trigger] o[i]).0.len() > 0 && count_char(o[i].0, c) == 0
            && plain_keys(o[i].1, c)
}

#[via_fn]
proof fn plain_keys_entries_decreases(o: Seq<(Seq<char>, JsonView)>, c: char) {
    assert forall|i: int| 0 <= i < o.len() implies decreases_to!(o, 0int => o[i].1, 1int) by {
        assert(decreases_to!(o => o[i]));
        assert(decreases_to!(o[i] => o[i].1));
    }
}

/// Whether following the member names in `p` through the document
/// reaches the value `w`.
pub open spec fn has_leaf(v: JsonView, p: Seq<Seq<char>>, w: JsonView) -> bool
    decreases p.len(), 1int,
{
    if p.len() == 0 {
        v == w
    } else {
        v is Obj && has_leaf_entries(v->Obj_0, p, w)
    }
}



/// Whether some entry starts the path `p` and its value carries the
/// rest of it to `w`.
pub open spec fn has_leaf_entries(o: Seq<(Seq<char>, JsonView)>, p: Seq<Seq<char>>, w: JsonView) -> bool
    decreases p.len(), 0int,
{
    p.len() >= 1 && exists|i: int|
        0 <= i < o.len() && (#[trigger] o[i]).0 == p[0] && has_leaf(o[i].1, p.drop_first(), w)
}

/// The emitted key of the member path `p`, walked from parent key
/// `pre` at `depth`.
pub open spec fn path_key(sep: Seq<char>, pre: Seq<char>, depth: int, p: Seq<Seq<char>>) -> Seq<char>
    decreases p.len(),
{
    if p.len() <= 1 {
        spec_format_key(sep, pre, if p.len() == 0 { Seq::empty() } else { p[0] }, depth)
    } else {
        path_key(sep, spec_format_key(sep, pre, p[0], depth), spec_next_depth(depth), p.drop_first())
    }
}

/// The key the walk forms for entry `i` of an object under `pre`.
pub open spec fn entry_full(
    cfg: FlattenCfg,
    pre: Seq<char>,
    entries: Seq<(Seq<char>, JsonView)>,
    depth: int,
    i: int,
) -> Seq<char> {
    spec_format_key(cfg.sep, pre, (entries[i]).0, depth)
}

/// Whether `key` lies in none of the key spaces the entries claim:
/// neither a formed key nor below one.
pub open spec fn outside_spaces(
    key: Seq<char>,
    cfg: FlattenCfg,
    pre: Seq<char>,
    entries: Seq<(Seq<char>, JsonView)>,
    depth: int,
    c: char,
) -> bool {
    forall|i: int|
        0 <= i < entries.len() ==> key != entry_full(cfg, pre, entries, depth, i) && !starts_with(
            key,
            entry_full(cfg, pre, entries, depth, i).push(c),
        )
}

/// Whether `key` lies in some entry's key space.
pub open spec fn in_spaces(
    key: Seq<char>,
    cfg: FlattenCfg,
    pre: Seq<char>,
    entries: Seq<(Seq<char>, JsonView)>,
    depth: int,
    c: char,
) -> bool {
    exists|i: int|
        0 <= i < entries.len() && (key == entry_full(cfg, pre, entries, depth, i) || starts_with(
            key,
            entry_full(cfg, pre, entries, depth, i).push(c),
        ))
}

/// A prefix of a prefix is a prefix.
proof fn lemma_starts_trans(k: Seq<char>, long: Seq<char>, short: Seq<char>)
    requires
        starts_with(k, long),
        starts_with(long, short),
    ensures
        starts_with(k, short),
{
}

/// Keys formed from distinct sibling names are distinct.
proof fn lemma_format_inj(
    sep: Seq<char>,
    pre: Seq<char>,
    ka: Seq<char>,
    kb: Seq<char>,
    depth: int,
)
    requires
        ka.len() > 0,
        kb.len() > 0,
        ka != kb,
    ensures
        spec_format_key(sep, pre, ka, depth) != spec_format_key(sep, pre, kb, depth),
{
    let fa = spec_format_key(sep, pre, ka, depth);
    let fb = spec_format_key(sep, pre, kb, depth);
    if depth == 0 {
    } else {
        if fa == fb {
            assert(fa == pre + sep + ka);
            assert(fb == pre + sep + kb);
            assert((pre + sep + ka).len() == pre.len() + sep.len() + ka.len());
            assert((pre + sep + kb).len() == pre.len() + sep.len() + kb.len());
            assert(ka.len() == kb.len());
            assert forall|i: int| 0 <= i < ka.len() implies ka[i] == kb[i] by {
                assert(fa[pre.len() + sep.len() + i] == ka[i]);
                assert(fb[pre.len() + sep.len() + i] == kb[i]);
            }
            assert(ka =~= kb);
        }
    }
}

/// The key spaces of two distinct sibling names never meet: a key at
/// or below one formed key is neither at nor below the other.
proof fn lemma_space_disjoint(
    sep: Seq<char>,
    pre: Seq<char>,
    ka: Seq<char>,
    kb: Seq<char>,
    depth: int,
    c: char,
    key: Seq<char>,
)
    requires
        sep.len() == 1,
        sep[0] == c,
        ka.len() > 0,
        kb.len() > 0,
        ka != kb,
        count_char(ka, c) == 0,
        count_char(kb, c) == 0,
        key == spec_format_key(sep, pre, ka, depth) || starts_with(
            key,
            spec_format_key(sep, pre, ka, depth).push(c),
        ),
    ensures
        key != spec_format_key(sep, pre, kb, depth),
        !starts_with(key, spec_format_key(sep, pre, kb, depth).push(c)),
{
    let fa = spec_format_key(sep, pre, ka, depth);
    let fb = spec_format_key(sep, pre, kb, depth);
    lemma_format_inj(sep, pre, ka, kb, depth);
    lemma_count_zero_no_char(ka, c);
    lemma_count_zero_no_char(kb, c);
    // The two ways `key` could meet fb's space both force fb to agree
    // with fa on a region that would put the separator inside kb, or
    // force the two formed keys to coincide.
    if starts_with(key, fb.push(c)) || key == fb {
        if key == fa {
            // fa == fb is excluded; so fb.push(c) is a prefix of fa.
            assert(starts_with(fa, fb.push(c)));
            lemma_one_below_other(sep, pre, ka, kb, depth, c);
        } else {
            assert(starts_with(key, fa.push(c)));
            if key == fb {
                assert(starts_with(fb, fa.push(c)));
                lemma_one_below_other(sep, pre, kb, ka, depth, c);
            } else {
                // Both fa.push(c) and fb.push(c) are prefixes of key.
                if fa.len() == fb.len() {
                    assert forall|i: int| 0 <= i < fa.len() implies fa[i] == fb[i] by {
                        assert(key[i] == fa.push(c)[i]);
                        assert(key[i] == fb.push(c)[i]);
                    }
                    assert(fa =~= fb);
                } else if fa.len() < fb.len() {
                    assert forall|i: int| 0 <= i < fa.push(c).len() implies fb[i] == fa.push(c)[i]
                        by {
                        assert(key[i] == fa.push(c)[i]);
                        assert(key[i] == fb.push(c)[i]);
                    }
                    assert(starts_with(fb, fa.push(c)));
                    lemma_one_below_other(sep, pre, kb, ka, depth, c);
                } else {
                    assert forall|i: int| 0 <= i < fb.push(c).len() implies fa[i] == fb.push(c)[i]
                        by {
                        assert(key[i] == fa.push(c)[i]);
                        assert(key[i] == fb.push(c)[i]);
                    }
                    assert(starts_with(fa, fb.push(c)));
                    lemma_one_below_other(sep, pre, ka, kb, depth, c);
                }
            }
        }
    }
}

/// One formed sibling key never lies strictly below another: the
/// separator would have to occur inside a separator-free name.
proof fn lemma_one_below_other(
    sep: Seq<char>,
    pre: Seq<char>,
    ka: Seq<char>,
    kb: Seq<char>,
    depth: int,
    c: char,
)
    requires
        sep.len() == 1,
        sep[0] == c,
        ka.len() > 0,
        kb.len() > 0,
        count_char(ka, c) == 0,
        count_char(kb, c) == 0,
    ensures
        !starts_with(
            spec_format_key(sep, pre, ka, depth),
            spec_format_key(sep, pre, kb, depth).push(c),
        ),
{
    let fa = spec_format_key(sep, pre, ka, depth);
    let fb = spec_format_key(sep, pre, kb, depth);
    lemma_count_zero_no_char(ka, c);
    lemma_count_zero_no_char(kb, c);
    if starts_with(fa, fb.push(c)) {
        assert(fb.len() < fa.len());
        if depth == 0 {
            // fa == ka is separator free yet would hold c at |kb|.
            assert(fa[kb.len() as int] == fb.push(c)[kb.len() as int]);
            assert(ka[kb.len() as int] == c);
        } else {
            // fa = pre + sep + ka, fb = pre + sep + kb with |kb| < |ka|:
            // position |fb| of fa lies inside ka and would hold c.
            assert(fa[fb.len() as int] == fb.push(c)[fb.len() as int]);
            assert(fa[fb.len() as int] == c);
            let off = fb.len() - pre.len() - sep.len();
            assert(fa[fb.len() as int] == ka[off]);
        }
    }
}


/// A key formed under `pre` one level down lies below `pre`.
proof fn lemma_full_below(sep: Seq<char>, c: char, pre: Seq<char>, key: Seq<char>, depth: int)
    requires
        sep.len() == 1,
        sep[0] == c,
        depth >= 1,
        pre.len() > 0,
    ensures
        starts_with(spec_format_key(sep, pre, key, depth), pre.push(c)),
{
    let full = pre + sep + key;
    assert forall|i: int| 0 <= i < pre.push(c).len() implies full[i] == pre.push(c)[i] by {
        if i < pre.len() {
        } else {
            assert(full[i] == sep[0]);
        }
    }
}

/// The emitted key of a non-empty member path below `pre` lies below
/// `pre`.
proof fn lemma_path_key_in_space(
    sep: Seq<char>,
    c: char,
    pre: Seq<char>,
    depth: int,
    q: Seq<Seq<char>>,
)
    requires
        sep.len() == 1,
        sep[0] == c,
        depth >= 1,
        pre.len() > 0,
        q.len() >= 1,
    ensures
        starts_with(path_key(sep, pre, depth, q), pre.push(c)),
    decreases q.len(),
{
    if q.len() == 1 {
        lemma_full_below(sep, c, pre, q[0], depth);
    } else {
        let pre2 = spec_format_key(sep, pre, q[0], depth);
        lemma_full_below(sep, c, pre, q[0], depth);
        assert(pre2.len() > 0);
        lemma_path_key_in_space(sep, c, pre2, spec_next_depth(depth), q.drop_first());
        assert(starts_with(pre2.push(c), pre.push(c)));
        lemma_starts_trans(path_key(sep, pre, depth, q), pre2.push(c), pre.push(c));
    }
}

#[verifier::rlimit(60)]
proof fn lemma_trip_step(
    cfg: FlattenCfg,
    entries: Seq<(Seq<char>, JsonView)>,
    pre: Seq<char>,
    r0: RowModel,
    depth: int,
    c: char,
)
    requires
        plain_cfg(cfg, c),
        plain_keys_entries(entries, c),
        array_free_entries(entries),
        depth >= 0,
    ensures
        spec_object_step(cfg, entries, pre, seq![r0], depth).len() == 1,
        forall|key: Seq<char>| #![trigger r0.dom().contains(key)]
            r0.dom().contains(key) && outside_spaces(key, cfg, pre, entries, depth, c)
                ==> spec_object_step(cfg, entries, pre, seq![r0], depth)[0].dom().contains(key)
                && spec_object_step(cfg, entries, pre, seq![r0], depth)[0][key] == r0[key],
        forall|p: Seq<Seq<char>>, w: JsonView| #![trigger has_leaf_entries(entries, p, w)]
            has_leaf_entries(entries, p, w) && w.is_scalar() ==> spec_object_step(
                cfg,
                entries,
                pre,
                seq![r0],
                depth,
            )[0].dom().contains(path_key(cfg.sep, pre, depth, p)) && spec_object_step(
                cfg,
                entries,
                pre,
                seq![r0],
                depth,
            )[0][path_key(cfg.sep, pre, depth, p)] == w,
        forall|key: Seq<char>|
            #![trigger spec_object_step(cfg, entries, pre, seq![r0], depth)[0].dom().contains(key)]
            spec_object_step(cfg, entries, pre, seq![r0], depth)[0].dom().contains(key)
                ==> r0.dom().contains(key) || in_spaces(key, cfg, pre, entries, depth, c),
    decreases entries, 1int,
{
    assert(array_free_entries(entries));
    lemma_single_row_step(cfg, entries, pre, seq![r0], depth);
    let rr = spec_object_step(cfg, entries, pre, seq![r0], depth);
    if entries.len() == 0 {
        assert(rr == seq![r0]);
        assert(rr[0] == r0);
    } else {
        let key0 = entries[0].0;
        let v0 = entries[0].1;
        let full0 = spec_format_key(cfg.sep, pre, key0, depth);
        let nd = spec_next_depth(depth);
        let rest = entries.drop_first();
        assert(full0 == entry_full(cfg, pre, entries, depth, 0));
        assert(key0.len() > 0 && count_char(key0, c) == 0 && plain_keys(v0, c) && array_free(v0));
        assert(!cfg.ignore.contains(full0));
        assert(!cfg.fold.contains(full0));
        assert(plain_keys_entries(rest, c) && array_free_entries(rest)) by {
            assert forall|i: int| 0 <= i < rest.len() implies (#[trigger] rest[i]).0.len() > 0
                && count_char(rest[i].0, c) == 0 && plain_keys(rest[i].1, c) && array_free(
                rest[i].1,
            ) by {
                assert(rest[i] == entries[i + 1]);
            }
            assert forall|i: int, j: int| 0 <= i < j < rest.len() implies (rest[i]).0
                != (rest[j]).0 by {
                assert(rest[i] == entries[i + 1]);
                assert(rest[j] == entries[j + 1]);
            }
        }
        // The row after the first entry has acted.
        assert(rest.len() < entries.len());
        let r1: RowModel = if v0 is Obj {
            let o0 = v0->Obj_0;
            let parts = object_across_parts(cfg, o0, full0, seq![r0], nd);
            assert(decreases_to!(entries => entries[0]));
            assert(decreases_to!(entries[0] => entries[0].1));
            assert(decreases_to!(entries[0].1 => entries[0].1->Obj_0));
            lemma_trip_obj(cfg, o0, full0, r0, nd, c);
            let rx = spec_parse_object(cfg, o0, full0, r0, nd)[0];
            assert(parts.len() == 1);
            assert(parts[0] == spec_parse_object(cfg, o0, full0, r0, nd));
            assert(parts.drop_first() =~= Seq::<Seq<RowModel>>::empty());
            assert(Seq::<Seq<RowModel>>::empty().flatten() =~= Seq::<RowModel>::empty());
            assert(parts.flatten() =~= parts[0]);
            assert(object_across(cfg, o0, full0, seq![r0], nd) == parts.flatten());
            assert(spec_parse_object(cfg, o0, full0, r0, nd) =~= seq![rx]);
            assert(spec_object_step(cfg, entries, pre, seq![r0], depth) == spec_object_step(
                cfg, rest, pre, object_across(cfg, o0, full0, seq![r0], nd), depth));
            assert(object_across(cfg, o0, full0, seq![r0], nd) =~= seq![rx]);
            rx
        } else {
            let rx = r0.insert(full0, v0);
            assert(map_insert_rows(seq![r0], full0, v0) =~= seq![rx]);
            assert(spec_object_step(cfg, entries, pre, seq![r0], depth) == spec_object_step(
                cfg, rest, pre, map_insert_rows(seq![r0], full0, v0), depth));
            rx
        };
        assert(spec_object_step(cfg, entries, pre, seq![r0], depth) == spec_object_step(
            cfg, rest, pre, seq![r1], depth));
        lemma_trip_step(cfg, rest, pre, r1, depth, c);
        assert(rr == spec_object_step(cfg, rest, pre, seq![r1], depth));
        let rfin = rr[0];

        // Entry keys of the rest, seen from either side.
        assert forall|i: int| 1 <= i < entries.len() implies entry_full(
            cfg,
            pre,
            entries,
            depth,
            i,
        ) == entry_full(cfg, pre, rest, depth, i - 1) by {
            assert(rest[i - 1] == entries[i]);
        }

        // (1) Untouched keys keep their values.
        assert forall|key: Seq<char>| #![trigger r0.dom().contains(key)]
            r0.dom().contains(key) && outside_spaces(key, cfg, pre, entries, depth, c)
            implies rfin.dom().contains(key) && rfin[key] == r0[key] by {
            assert(key != full0 && !starts_with(key, full0.push(c)));
            if v0 is Obj {
                let o0 = v0->Obj_0;
                assert(spec_parse_object(cfg, o0, full0, r0, nd)[0].dom().contains(key)
                    && spec_parse_object(cfg, o0, full0, r0, nd)[0][key] == r0[key]);
                assert(r1 == spec_parse_object(cfg, o0, full0, r0, nd)[0]);
            } else {
                assert(r1 == r0.insert(full0, v0));
            }
            assert(r1.dom().contains(key) && r1[key] == r0[key]);
            assert(outside_spaces(key, cfg, pre, rest, depth, c)) by {
                assert forall|i: int| 0 <= i < rest.len() implies key != entry_full(
                    cfg,
                    pre,
                    rest,
                    depth,
                    i,
                ) && !starts_with(key, entry_full(cfg, pre, rest, depth, i).push(c)) by {
                    assert(entry_full(cfg, pre, rest, depth, i) == entry_full(
                        cfg, pre, entries, depth, i + 1));
                }
            }
            assert(spec_object_step(cfg, rest, pre, seq![r1], depth)[0].dom().contains(key)
                && spec_object_step(cfg, rest, pre, seq![r1], depth)[0][key] == r1[key]);
            assert(rfin == spec_object_step(cfg, rest, pre, seq![r1], depth)[0]);
        }

        // (3) Every key of the result is inherited or claimed.
        assert forall|key: Seq<char>| rfin.dom().contains(key) implies r0.dom().contains(key)
            || in_spaces(key, cfg, pre, entries, depth, c) by {
            if r1.dom().contains(key) && !r0.dom().contains(key) {
                if v0 is Obj {
                    let o0 = v0->Obj_0;
                    assert(r1 == spec_parse_object(cfg, o0, full0, r0, nd)[0]);
                    assert(spec_parse_object(cfg, o0, full0, r0, nd)[0].dom().contains(key));
                    assert(key == full0 || starts_with(key, full0.push(c)));
                } else {
                    assert(key == full0);
                }
                assert(entry_full(cfg, pre, entries, depth, 0) == full0);
                assert(in_spaces(key, cfg, pre, entries, depth, c));
            } else if !r1.dom().contains(key) {
                assert(in_spaces(key, cfg, pre, rest, depth, c));
                let i = choose|i: int|
                    0 <= i < rest.len() && (key == entry_full(cfg, pre, rest, depth, i)
                        || starts_with(key, entry_full(cfg, pre, rest, depth, i).push(c)));
                assert(entry_full(cfg, pre, rest, depth, i) == entry_full(
                    cfg, pre, entries, depth, i + 1));
                assert(in_spaces(key, cfg, pre, entries, depth, c));
            }
        }

        // (2) Every scalar leaf is found under its emitted key.
        assert forall|p: Seq<Seq<char>>, w: JsonView|
            has_leaf_entries(entries, p, w) && w.is_scalar() implies rfin.dom().contains(
            path_key(cfg.sep, pre, depth, p),
        ) && rfin[path_key(cfg.sep, pre, depth, p)] == w by {
            let i = choose|i: int|
                0 <= i < entries.len() && (#[trigger] entries[i]).0 == p[0] && has_leaf(
                    entries[i].1,
                    p.drop_first(),
                    w,
                );
            if i == 0 {
                let pk = path_key(cfg.sep, pre, depth, p);
                if p.len() == 1 {
                    assert(p.drop_first().len() == 0);
                    assert(v0 == w);
                    assert(!(v0 is Obj));
                    assert(r1 == r0.insert(full0, v0));
                    assert(pk == full0);
                    assert(r1.dom().contains(full0) && r1[full0] == w);
                    assert(outside_spaces(full0, cfg, pre, rest, depth, c)) by {
                        assert forall|t: int| 0 <= t < rest.len() implies full0 != entry_full(
                            cfg,
                            pre,
                            rest,
                            depth,
                            t,
                        ) && !starts_with(full0, entry_full(cfg, pre, rest, depth, t).push(c)) by {
                            assert(rest[t] == entries[t + 1]);
                            assert(entries[t + 1].0 != key0);
                            lemma_space_disjoint(
                                cfg.sep, pre, key0, entries[t + 1].0, depth, c, full0);
                        }
                    }
                } else {
                    assert(p.drop_first().len() >= 1);
                    assert(v0 is Obj);
                    assert(has_leaf_entries(v0->Obj_0, p.drop_first(), w));
                    assert(pk == path_key(cfg.sep, full0, nd, p.drop_first()));
                    let o0 = v0->Obj_0;
                    assert(spec_parse_object(cfg, o0, full0, r0, nd)[0].dom().contains(
                        path_key(cfg.sep, full0, nd, p.drop_first()),
                    ) && spec_parse_object(cfg, o0, full0, r0, nd)[0][path_key(
                        cfg.sep,
                        full0,
                        nd,
                        p.drop_first(),
                    )] == w);
                    assert(r1 == spec_parse_object(cfg, o0, full0, r0, nd)[0]);
                    assert(r1.dom().contains(pk) && r1[pk] == w);
                    assert(full0.len() > 0);
                    lemma_path_key_in_space(cfg.sep, c, full0, nd, p.drop_first());
                    assert(starts_with(pk, full0.push(c)));
                    assert(outside_spaces(pk, cfg, pre, rest, depth, c)) by {
                        assert forall|t: int| 0 <= t < rest.len() implies pk != entry_full(
                            cfg,
                            pre,
                            rest,
                            depth,
                            t,
                        ) && !starts_with(pk, entry_full(cfg, pre, rest, depth, t).push(c)) by {
                            assert(rest[t] == entries[t + 1]);
                            assert(entries[t + 1].0 != key0);
                            lemma_space_disjoint(
                                cfg.sep, pre, key0, entries[t + 1].0, depth, c, pk);
                        }
                    }
                }
            } else {
                assert(has_leaf_entries(rest, p, w)) by {
                    assert(rest[i - 1] == entries[i]);
                    assert((rest[i - 1]).0 == p[0] && has_leaf(rest[i - 1].1, p.drop_first(), w));
                }
            }
        }
    }
}

#[verifier::rlimit(60)]
proof fn lemma_trip_obj(
    cfg: FlattenCfg,
    entries: Seq<(Seq<char>, JsonView)>,
    pre: Seq<char>,
    curr: RowModel,
    depth: int,
    c: char,
)
    requires
        plain_cfg(cfg, c),
        plain_keys_entries(entries, c),
        array_free_entries(entries),
        depth >= 1,
        pre.len() > 0,
    ensures
        spec_parse_object(cfg, entries, pre, curr, depth).len() == 1,
        forall|key: Seq<char>| #![trigger curr.dom().contains(key)]
            curr.dom().contains(key) && key != pre && !starts_with(key, pre.push(c))
                ==> spec_parse_object(cfg, entries, pre, curr, depth)[0].dom().contains(key)
                && spec_parse_object(cfg, entries, pre, curr, depth)[0][key] == curr[key],
        forall|p: Seq<Seq<char>>, w: JsonView| #![trigger has_leaf_entries(entries, p, w)]
            has_leaf_entries(entries, p, w) && w.is_scalar() ==> spec_parse_object(
                cfg,
                entries,
                pre,
                curr,
                depth,
            )[0].dom().contains(path_key(cfg.sep, pre, depth, p)) && spec_parse_object(
                cfg,
                entries,
                pre,
                curr,
                depth,
            )[0][path_key(cfg.sep, pre, depth, p)] == w,
        forall|key: Seq<char>|
            #![trigger spec_parse_object(cfg, entries, pre, curr, depth)[0].dom().contains(key)]
            spec_parse_object(cfg, entries, pre, curr, depth)[0].dom().contains(key)
                ==> curr.dom().contains(key) || key == pre || starts_with(key, pre.push(c)),
    decreases entries, 2int,
{
    lemma_single_row_object(cfg, entries, pre, curr, depth);
    assert(!depth_exceeded(cfg, depth));
    if entries.len() == 0 {
        let rr = spec_parse_object(cfg, entries, pre, curr, depth);
        assert(rr == seq![curr.insert(pre, JsonView::Obj(Seq::empty()))]);
        assert(rr[0] == curr.insert(pre, JsonView::Obj(Seq::empty())));
    } else {
        lemma_trip_step(cfg, entries, pre, curr, depth, c);
        assert(spec_parse_object(cfg, entries, pre, curr, depth) == spec_object_step(
            cfg, entries, pre, seq![curr], depth));
        let rr = spec_parse_object(cfg, entries, pre, curr, depth)[0];
        // Every entry's key space lies below `pre`.
        assert forall|i: int| 0 <= i < entries.len() implies starts_with(
            entry_full(cfg, pre, entries, depth, i),
            pre.push(c),
        ) by {
            lemma_full_below(cfg.sep, c, pre, entries[i].0, depth);
        }
        assert forall|key: Seq<char>|
            curr.dom().contains(key) && key != pre && !starts_with(key, pre.push(c))
            implies rr.dom().contains(key) && rr[key] == curr[key] by {
            assert(outside_spaces(key, cfg, pre, entries, depth, c)) by {
                assert forall|i: int| 0 <= i < entries.len() implies key != entry_full(
                    cfg,
                    pre,
                    entries,
                    depth,
                    i,
                ) && !starts_with(key, entry_full(cfg, pre, entries, depth, i).push(c)) by {
                    let fi = entry_full(cfg, pre, entries, depth, i);
                    if key == fi {
                        assert(starts_with(key, pre.push(c)));
                    }
                    if starts_with(key, fi.push(c)) {
                        assert(starts_with(fi.push(c), pre.push(c)));
                        lemma_starts_trans(key, fi.push(c), pre.push(c));
                    }
                }
            }
            assert(spec_object_step(cfg, entries, pre, seq![curr], depth)[0].dom().contains(key)
                && spec_object_step(cfg, entries, pre, seq![curr], depth)[0][key] == curr[key]);
        }
        assert forall|key: Seq<char>| rr.dom().contains(key) implies curr.dom().contains(key)
            || key == pre || starts_with(key, pre.push(c)) by {
            if !curr.dom().contains(key) {
                assert(spec_object_step(cfg, entries, pre, seq![curr], depth)[0].dom().contains(
                    key,
                ));
                assert(in_spaces(key, cfg, pre, entries, depth, c));
                let i = choose|i: int|
                    0 <= i < entries.len() && (key == entry_full(cfg, pre, entries, depth, i)
                        || starts_with(key, entry_full(cfg, pre, entries, depth, i).push(c)));
                let fi = entry_full(cfg, pre, entries, depth, i);
                if key == fi {
                    assert(starts_with(key, pre.push(c)));
                } else {
                    assert(starts_with(fi.push(c), pre.push(c)));
                    lemma_starts_trans(key, fi.push(c), pre.push(c));
                }
            }
        }
    }
}

/// Law: scalar leaves round-trip. For a root object with non-empty,
/// separator-free, sibling-distinct member names, a single-character
/// separator, nothing pruned, nothing folded and no depth cap, the
/// one output row maps the emitted key of every member path that ends
/// in a scalar to exactly that scalar.
pub proof fn lemma_scalar_leaf_round_trip(
    cfg: FlattenCfg,
    v: JsonView,
    p: Seq<Seq<char>>,
    w: JsonView,
    c: char,
)
    requires
        plain_cfg(cfg, c),
        v is Obj,
        plain_keys(v, c),
        array_free(v),
        has_leaf(v, p, w),
        p.len() >= 1,
        w.is_scalar(),
    ensures
        spec_parse(cfg, v).len() == 1,
        spec_parse(cfg, v)[0].dom().contains(path_key(cfg.sep, Seq::empty(), 0, p)),
        spec_parse(cfg, v)[0][path_key(cfg.sep, Seq::empty(), 0, p)] == w,
{
    let o = v->Obj_0;
    assert(has_leaf_entries(o, p, w));
    assert(o.len() > 0);
    lemma_trip_step(cfg, o, Seq::empty(), Map::empty(), 0, c);
    assert(spec_parse(cfg, v) == spec_object_step(cfg, o, Seq::empty(), seq![Map::empty()], 0));
}

} // verus!
