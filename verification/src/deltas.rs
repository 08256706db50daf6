//! Finding what is new: the entries of each source file whose `id` the
//! translated file of the same (normalised) path does not have yet.
use vstd::prelude::*;

use crate::error::UserFacingError;
use crate::json::{
    copy_json, find_member, first_member, get_member, get_member_ref, lemma_first_member_props,
    lemma_first_member_update,
    well_formed, JsonValue, JsonView,
};
use crate::paths::{join_path, join_path_seq, normalize_rel_path, normalize_rel_path_seq};
use crate::text::views;

verus! {

/// A source file with new entries: its normalised relative path, where its
/// translation goes, and its content reduced to the new entries.
#[derive(Debug)]
pub struct FileDelta {
    pub rel_path: String,
    pub output_path: String,
    pub content: JsonValue,
}

/// The mathematical value of a delta.
pub open spec fn delta_view(d: FileDelta) -> (Seq<char>, Seq<char>, JsonView) {
    (d.rel_path@, d.output_path@, d.content.view_of())
}

/// The views of a sequence of deltas.
pub open spec fn deltas_view(v: Seq<FileDelta>) -> Seq<(Seq<char>, Seq<char>, JsonView)> {
    v.map_values(|d: FileDelta| delta_view(d))
}

/// The views of a list of files and their documents.
pub open spec fn files_view(v: Seq<(String, JsonValue)>) -> Seq<(Seq<char>, JsonView)> {
    v.map_values(|p: (String, JsonValue)| (p.0@, p.1.view_of()))
}

/// The entries of a document: its `dataList` member, when that is an array.
pub open spec fn data_list(v: JsonView) -> Option<Seq<JsonView>> {
    match get_member(v, "dataList"@) {
        Some(JsonView::Array(items)) => Some(items),
        _ => None,
    }
}

/// The `id` of an entry, when it is an integer that fits in `i64`.
pub open spec fn item_id(item: JsonView) -> Option<i64> {
    match get_member(item, "id"@) {
        Some(JsonView::Number(Some(i), _)) => Some(i),
        _ => None,
    }
}

/// The translated document of a normalised path: the last listed file
/// whose normalised path is `norm`.
pub open spec fn existing_lookup(existing: Seq<(Seq<char>, JsonView)>, norm: Seq<char>) -> Option<
    JsonView,
>
    decreases existing.len(),
{
    if existing.len() == 0 {
        None
    } else if normalize_rel_path_seq(existing.last().0) == norm {
        Some(existing.last().1)
    } else {
        existing_lookup(existing.drop_last(), norm)
    }
}

/// The translated document already has an entry with this `id`.
pub open spec fn has_id(existing: Option<JsonView>, id: i64) -> bool {
    match existing {
        Some(v) => match data_list(v) {
            Some(items) => exists|j: int| 0 <= j < items.len() && #[trigger] item_id(items[j]) == Some(id),
            None => false,
        },
        None => false,
    }
}

/// An entry is new when it has no integer `id` or its `id` is not yet
/// translated.
pub open spec fn is_new_item(item: JsonView, existing: Option<JsonView>) -> bool {
    match item_id(item) {
        Some(id) => !has_id(existing, id),
        None => true,
    }
}

/// The new entries, in order.
pub open spec fn new_items(items: Seq<JsonView>, existing: Option<JsonView>) -> Seq<JsonView> {
    items.filter(|item: JsonView| is_new_item(item, existing))
}

/// A document with its `dataList` member replaced.
pub open spec fn with_data_list(v: JsonView, items: Seq<JsonView>) -> JsonView {
    match v {
        JsonView::Object(m) => match first_member(m, "dataList"@, 0) {
            Some(i) => JsonView::Object(m.update(i, (m[i].0, JsonView::Array(items)))),
            None => v,
        },
        _ => v,
    }
}

/// The delta of one source file, if it has a `dataList` with new entries.
pub open spec fn file_delta(
    rel: Seq<char>,
    v: JsonView,
    existing: Seq<(Seq<char>, JsonView)>,
    output_root: Seq<char>,
) -> Option<(Seq<char>, Seq<char>, JsonView)> {
    let norm = normalize_rel_path_seq(rel);
    match data_list(v) {
        Some(items) => {
            let fresh = new_items(items, existing_lookup(existing, norm));
            if fresh.len() == 0 {
                None
            } else {
                Some((norm, join_path_seq(output_root, norm), with_data_list(v, fresh)))
            }
        },
        None => None,
    }
}

/// The deltas of all source files, in the order the files are listed.
pub open spec fn deltas_spec(
    origin: Seq<(Seq<char>, JsonView)>,
    existing: Seq<(Seq<char>, JsonView)>,
    output_root: Seq<char>,
) -> Seq<(Seq<char>, Seq<char>, JsonView)>
    decreases origin.len(),
{
    if origin.len() == 0 {
        seq![]
    } else {
        let before = deltas_spec(origin.drop_last(), existing, output_root);
        match file_delta(origin.last().0, origin.last().1, existing, output_root) {
            Some(d) => before.push(d),
            None => before,
        }
    }
}

/// The `dataList` entries of a document, when there is such an array.
pub fn data_list_ref(v: &JsonValue) -> (res: Option<&Vec<JsonValue>>)
    ensures
        match res {
            Some(items) => data_list(v.view_of()) == Some(JsonValue::Array(*items).view_of()->Array_0),
            None => data_list(v.view_of()) is None,
        },
{
    match get_member_ref(v, "dataList") {
        Some(JsonValue::Array(items)) => Some(items),
        _ => None,
    }
}

fn item_id_exec(item: &JsonValue) -> (res: Option<i64>)
    ensures
        res == item_id(item.view_of()),
{
    match get_member_ref(item, "id") {
        Some(JsonValue::Number(n)) => n.int_value,
        _ => None,
    }
}

fn has_id_exec(existing: Option<&JsonValue>, id: i64) -> (res: bool)
    ensures
        res == has_id(
            match existing {
                Some(v) => Some(v.view_of()),
                None => None,
            },
            id,
        ),
{
    match existing {
        Some(v) => match data_list_ref(v) {
            Some(items) => {
                let ghost iv = JsonValue::Array(*items).view_of()->Array_0;
                let mut j: usize = 0;
                while j < items.len()
                    invariant
                        j <= items.len(),
                        iv == JsonValue::Array(*items).view_of()->Array_0,
                        iv.len() == items.len(),
                        data_list(v.view_of()) == Some(iv),
                        existing == Some(v),
                        forall|k: int| 0 <= k < j ==> item_id(iv[k]) != Some(id),
                    decreases items.len() - j,
                {
                    assert(iv[j as int] == items@[j as int].view_of());
                    if item_id_exec(&items[j]) == Some(id) {
                        assert(item_id(iv[j as int]) == Some(id));
                        assert(data_list(v.view_of()) == Some(iv));
                        return true;
                    }
                    j = j + 1;
                }
                false
            },
            None => false,
        },
        None => false,
    }
}

/// Finds the translated document of a normalised path (see
/// `existing_lookup`); `normalized[i]` is the normalised path of
/// `existing[i]`.
fn find_existing<'a>(existing: &'a Vec<(String, JsonValue)>, normalized: &Vec<String>, norm: &str) -> (res:
    Option<&'a JsonValue>)
    requires
        normalized.len() == existing.len(),
        forall|i: int|
            0 <= i < existing.len() ==> (#[trigger] normalized@[i])@ == normalize_rel_path_seq(
                existing@[i].0@,
            ),
    ensures
        match res {
            Some(v) => existing_lookup(files_view(existing@), norm@) == Some(v.view_of()),
            None => existing_lookup(files_view(existing@), norm@) is None,
        },
{
    let ghost ev = files_view(existing@);
    let mut i: usize = existing.len();
    assert(ev.take(ev.len() as int) =~= ev);
    while i > 0
        invariant
            i <= existing.len() == normalized.len(),
            ev == files_view(existing@),
            forall|k: int|
                0 <= k < existing.len() ==> (#[trigger] normalized@[k])@ == normalize_rel_path_seq(
                    existing@[k].0@,
                ),
            existing_lookup(ev, norm@) == existing_lookup(ev.take(i as int), norm@),
        decreases i,
    {
        let ghost pre = ev.take(i as int);
        assert(pre.last() == (existing@[i - 1].0@, existing@[i - 1].1.view_of()));
        assert(pre.drop_last() =~= ev.take(i - 1));
        if crate::text::str_eq(normalized[i - 1].as_str(), norm) {
            return Some(&existing[i - 1].1);
        }
        i = i - 1;
    }
    None
}

/// Replaces the `dataList` member of an object by an array.
fn replace_data_list(v: JsonValue, items: Vec<JsonValue>) -> (res: JsonValue)
    ensures
        res.view_of() == with_data_list(v.view_of(), JsonValue::Array(items).view_of()->Array_0),
{
    match v {
        JsonValue::Object(mut m) => {
            match find_member(&m, "dataList") {
                Some(i) => {
                    let ghost old_m = m;
                    let (k, _old) = m.remove(i);
                    m.insert(i, (k, JsonValue::Array(items)));
                    let r = JsonValue::Object(m);
                    assert(r.view_of()->Object_0 =~= JsonValue::Object(old_m).view_of()->Object_0.update(
                        i as int,
                        (
                            JsonValue::Object(old_m).view_of()->Object_0[i as int].0,
                            JsonValue::Array(items).view_of(),
                        ),
                    ));
                    r
                },
                None => JsonValue::Object(m),
            }
        },
        other => other,
    }
}

/// Finds the source files with new entries. For each listed source file (in
/// order) whose `dataList` is an array: its entries without an integer
/// `id`, or whose `id` the translated file of the same normalised path (the
/// last listed one) lacks, are new; a file with new entries yields a delta
/// holding the file with only those entries, its normalised path, and that
/// path under `output_root`.
pub fn find_deltas(
    origin_files: &Vec<(String, JsonValue)>,
    existing_files: &Vec<(String, JsonValue)>,
    output_root: &str,
) -> (res: Result<Vec<FileDelta>, UserFacingError>)
    ensures
        res matches Ok(d) && deltas_view(d@) == deltas_spec(
            files_view(origin_files@),
            files_view(existing_files@),
            output_root@,
        ),
{
    let mut normalized: Vec<String> = Vec::new();
    let mut e: usize = 0;
    while e < existing_files.len()
        invariant
            e <= existing_files.len(),
            normalized.len() == e,
            forall|i: int|
                0 <= i < e ==> (#[trigger] normalized@[i])@ == normalize_rel_path_seq(
                    existing_files@[i].0@,
                ),
        decreases existing_files.len() - e,
    {
        normalized.push(normalize_rel_path(existing_files[e].0.as_str()));
        e = e + 1;
    }
    let ghost ov = files_view(origin_files@);
    let ghost ev = files_view(existing_files@);
    let mut deltas: Vec<FileDelta> = Vec::new();
    let mut f: usize = 0;
    while f < origin_files.len()
        invariant
            f <= origin_files.len(),
            ov == files_view(origin_files@),
            ev == files_view(existing_files@),
            normalized.len() == existing_files.len(),
            forall|i: int|
                0 <= i < existing_files.len() ==> (#[trigger] normalized@[i])@
                    == normalize_rel_path_seq(existing_files@[i].0@),
            deltas_view(deltas@) == deltas_spec(ov.take(f as int), ev, output_root@),
        decreases origin_files.len() - f,
    {
        let ghost pre = ov.take(f + 1);
        assert(pre.drop_last() =~= ov.take(f as int));
        assert(pre.last() == (origin_files@[f as int].0@, origin_files@[f as int].1.view_of()));
        let rel = &origin_files[f].0;
        let value = &origin_files[f].1;
        let norm = normalize_rel_path(rel.as_str());
        match data_list_ref(value) {
            Some(items) => {
                let existing = find_existing(existing_files, &normalized, norm.as_str());
                let ghost ex = match existing {
                    Some(v) => Some(v.view_of()),
                    None => None,
                };
                let ghost iv = JsonValue::Array(*items).view_of()->Array_0;
                let mut fresh: Vec<JsonValue> = Vec::new();
                let mut k: usize = 0;
                while k < items.len()
                    invariant
                        k <= items.len(),
                        iv == JsonValue::Array(*items).view_of()->Array_0,
                        iv.len() == items.len(),
                        JsonValue::Array(fresh).view_of()->Array_0 == new_items(
                            iv.take(k as int),
                            ex,
                        ),
                        ex == match existing {
                            Some(v) => Some(v.view_of()),
                            None => None,
                        },
                    decreases items.len() - k,
                {
                    proof {
                        reveal(Seq::filter);
                    }
                    assert(iv.take(k + 1).drop_last() =~= iv.take(k as int));
                    assert(iv[k as int] == items@[k as int].view_of());
                    let keep = match item_id_exec(&items[k]) {
                        Some(id) => !has_id_exec(existing, id),
                        None => true,
                    };
                    if keep {
                        let ghost before = fresh;
                        fresh.push(copy_json(&items[k]));
                        assert(JsonValue::Array(fresh).view_of()->Array_0 =~= JsonValue::Array(
                            before,
                        ).view_of()->Array_0.push(iv[k as int]));
                    } else {
                        let ghost before = fresh;
                    }
                    k = k + 1;
                }
                assert(iv.take(items.len() as int) =~= iv);
                if fresh.len() > 0 {
                    let content = replace_data_list(copy_json(value), fresh);
                    let output_path = join_path(output_root, norm.as_str());
                    let ghost before = deltas@;
                    deltas.push(FileDelta { rel_path: norm, output_path, content });
                    assert(deltas_view(deltas@) =~= deltas_view(before).push(
                        file_delta(pre.last().0, pre.last().1, ev, output_root@)->0,
                    ));
                } else {
                    assert(JsonValue::Array(fresh).view_of()->Array_0.len() == 0);
                }
            },
            None => {},
        }
        f = f + 1;
    }
    assert(ov.take(origin_files.len() as int) =~= ov);
    Ok(deltas)
}

// ---------------------------------------------------------------------------
// Laws
// ---------------------------------------------------------------------------

proof fn lemma_file_delta_well_formed(
    rel: Seq<char>,
    v: JsonView,
    existing: Seq<(Seq<char>, JsonView)>,
    output_root: Seq<char>,
)
    requires
        well_formed(v),
    ensures
        file_delta(rel, v, existing, output_root) matches Some(d) ==> well_formed(d.2),
{
    if let Some(items) = data_list(v) {
        let m = v->Object_0;
        lemma_first_member_props(m, "dataList"@, 0);
        let i = first_member(m, "dataList"@, 0)->0;
        assert(m[i].1 == JsonView::Array(items));
        assert(well_formed(m[i].1));
        let pred = |item: JsonView| is_new_item(item, existing_lookup(existing, normalize_rel_path_seq(rel)));
        let fresh = items.filter(pred);
        assert forall|k: int| 0 <= k < fresh.len() implies well_formed(#[trigger] fresh[k]) by {
            assert(fresh.contains(fresh[k]));
            items.lemma_filter_contains_rev(pred, fresh[k]);
            let j = choose|j: int| 0 <= j < items.len() && items[j] == fresh[k];
            assert(well_formed(items[j]));
        }
        let m2 = m.update(i, (m[i].0, JsonView::Array(fresh)));
        assert(well_formed(JsonView::Array(fresh)));
        assert forall|a: int| 0 <= a < m2.len() implies well_formed(#[trigger] m2[a].1) by {
            if a != i {
                assert(m2[a] == m[a]);
            }
        }
        assert forall|a: int, b: int| 0 <= a < b < m2.len() implies m2[a].0 != m2[b].0 by {
            assert(m2[a].0 == m[a].0 && m2[b].0 == m[b].0);
        }
        assert(with_data_list(v, fresh) == JsonView::Object(m2));
    }
}

/// The deltas of well-formed source documents are well-formed: no object in
/// them repeats a key.
pub proof fn lemma_deltas_well_formed(
    origin: Seq<(Seq<char>, JsonView)>,
    existing: Seq<(Seq<char>, JsonView)>,
    output_root: Seq<char>,
)
    requires
        forall|i: int| 0 <= i < origin.len() ==> well_formed(#[trigger] origin[i].1),
    ensures
        forall|k: int|
            0 <= k < deltas_spec(origin, existing, output_root).len() ==> well_formed(
                #[trigger] deltas_spec(origin, existing, output_root)[k].2,
            ),
    decreases origin.len(),
{
    if origin.len() > 0 {
        let pre = origin.drop_last();
        assert forall|i: int| 0 <= i < pre.len() implies well_formed(#[trigger] pre[i].1) by {
            assert(pre[i] == origin[i]);
        }
        lemma_deltas_well_formed(pre, existing, output_root);
        assert(well_formed(origin.last().1));
        lemma_file_delta_well_formed(origin.last().0, origin.last().1, existing, output_root);
        let before = deltas_spec(pre, existing, output_root);
        assert forall|k: int| 0 <= k < deltas_spec(origin, existing, output_root).len() implies well_formed(
            #[trigger] deltas_spec(origin, existing, output_root)[k].2,
        ) by {
            if k < before.len() {
                assert(deltas_spec(origin, existing, output_root)[k] == before[k]);
            }
        }
    }
}

/// An entry is translated anew exactly when it is an entry of the source
/// file and either has no integer `id` or its `id` is carried by no entry,
/// at any position, of the translated file's `dataList`.
pub proof fn lemma_new_items_are_untranslated(
    items: Seq<JsonView>,
    ev: JsonView,
    existing_items: Seq<JsonView>,
)
    requires
        data_list(ev) == Some(existing_items),
    ensures
        forall|x: JsonView|
            #[trigger] new_items(items, Some(ev)).contains(x) <==> (items.contains(x) && match item_id(x) {
                Some(id) => forall|j: int|
                    0 <= j < existing_items.len() ==> item_id(#[trigger] existing_items[j]) != Some(id),
                None => true,
            }),
{
    let pred = |item: JsonView| is_new_item(item, Some(ev));
    assert forall|x: JsonView| #[trigger] new_items(items, Some(ev)).contains(x) <==> (items.contains(x)
        && match item_id(x) {
        Some(id) => forall|j: int|
            0 <= j < existing_items.len() ==> item_id(#[trigger] existing_items[j]) != Some(id),
        None => true,
    }) by {
        let f = items.filter(pred);
        if f.contains(x) {
            items.lemma_filter_contains_rev(pred, x);
            let k = choose|k: int| 0 <= k < f.len() && f[k] == x;
            items.lemma_filter_pred(pred, k);
        }
        if items.contains(x) && pred(x) {
            let i = choose|i: int| 0 <= i < items.len() && items[i] == x;
            items.lemma_filter_contains(pred, i);
        }
    }
}

/// Without a translated file every entry of the source file is new.
pub proof fn lemma_all_items_new_without_translation(items: Seq<JsonView>)
    ensures
        forall|x: JsonView| #[trigger] new_items(items, None).contains(x) <==> items.contains(x),
{
    let pred = |item: JsonView| is_new_item(item, None);
    assert forall|x: JsonView| #[trigger] new_items(items, None).contains(x) <==> items.contains(x) by {
        if items.filter(pred).contains(x) {
            items.lemma_filter_contains_rev(pred, x);
        }
        if items.contains(x) {
            let i = choose|i: int| 0 <= i < items.len() && items[i] == x;
            items.lemma_filter_contains(pred, i);
        }
    }
}

/// The delta of a source file whose `dataList` is `items`: there is one
/// exactly when some entry is new; it names the normalised path and that
/// path under the output folder, and its document's `dataList` holds the
/// new entries.
pub proof fn lemma_file_delta_holds_new_items(
    rel: Seq<char>,
    v: JsonView,
    existing: Seq<(Seq<char>, JsonView)>,
    output_root: Seq<char>,
    items: Seq<JsonView>,
)
    requires
        data_list(v) == Some(items),
    ensures
        ({
            let norm = normalize_rel_path_seq(rel);
            let fresh = new_items(items, existing_lookup(existing, norm));
            &&& (file_delta(rel, v, existing, output_root) is Some <==> fresh.len() > 0)
            &&& file_delta(rel, v, existing, output_root) matches Some(d) ==> d.0 == norm && d.1
                == join_path_seq(output_root, norm) && data_list(d.2) == Some(fresh)
        }),
{
    let norm = normalize_rel_path_seq(rel);
    let fresh = new_items(items, existing_lookup(existing, norm));
    assert(v is Object);
    let m = v->Object_0;
    assert(first_member(m, "dataList"@, 0) is Some);
    let i = first_member(m, "dataList"@, 0)->0;
    lemma_first_member_props(m, "dataList"@, 0);
    lemma_first_member_update(m, "dataList"@, i, JsonView::Array(fresh));
    let m2 = m.update(i, (m[i].0, JsonView::Array(fresh)));
    assert(with_data_list(v, fresh) == JsonView::Object(m2));
    assert(m2[i].1 == JsonView::Array(fresh));
    assert(get_member(JsonView::Object(m2), "dataList"@) == Some(JsonView::Array(fresh)));
    assert(data_list(JsonView::Object(m2)) == Some(fresh));
}

/// The translated file a source file is compared with is the last listed
/// one whose normalised path is the source's normalised path.
pub proof fn lemma_existing_lookup_last(
    existing: Seq<(Seq<char>, JsonView)>,
    norm: Seq<char>,
    j: int,
)
    requires
        0 <= j < existing.len(),
        normalize_rel_path_seq(existing[j].0) == norm,
        forall|i: int| j < i < existing.len() ==> normalize_rel_path_seq(#[trigger] existing[i].0) != norm,
    ensures
        existing_lookup(existing, norm) == Some(existing[j].1),
    decreases existing.len(),
{
    if j < existing.len() - 1 {
        let pre = existing.drop_last();
        let last = existing.len() - 1;
        assert(normalize_rel_path_seq(existing[last].0) != norm);
        assert(pre[j] == existing[j]);
        assert forall|i: int| j < i < pre.len() implies normalize_rel_path_seq(#[trigger] pre[i].0)
            != norm by {
            assert(pre[i] == existing[i]);
        }
        lemma_existing_lookup_last(pre, norm, j);
    }
}

/// With no translated file of the same normalised path, there is nothing
/// to compare with.
pub proof fn lemma_existing_lookup_none(existing: Seq<(Seq<char>, JsonView)>, norm: Seq<char>)
    requires
        forall|i: int| 0 <= i < existing.len() ==> normalize_rel_path_seq(#[trigger] existing[i].0) != norm,
    ensures
        existing_lookup(existing, norm) is None,
    decreases existing.len(),
{
    if existing.len() > 0 {
        let pre = existing.drop_last();
        assert(normalize_rel_path_seq(existing[existing.len() - 1].0) != norm);
        assert forall|i: int| 0 <= i < pre.len() implies normalize_rel_path_seq(#[trigger] pre[i].0)
            != norm by {
            assert(pre[i] == existing[i]);
        }
        lemma_existing_lookup_none(pre, norm);
    }
}

/// The deltas are those of the source files that have one, each source
/// file giving at most its own delta: every delta is the delta of some
/// listed source file, and every listed source file with a delta gives one.
pub proof fn lemma_deltas_cover_files(
    origin: Seq<(Seq<char>, JsonView)>,
    existing: Seq<(Seq<char>, JsonView)>,
    output_root: Seq<char>,
)
    ensures
        deltas_spec(origin, existing, output_root).len() <= origin.len(),
        forall|k: int|
            0 <= k < deltas_spec(origin, existing, output_root).len() ==> exists|i: int|
                0 <= i < origin.len() && file_delta(origin[i].0, origin[i].1, existing, output_root)
                    == Some(#[trigger] deltas_spec(origin, existing, output_root)[k]),
        forall|i: int|
            0 <= i < origin.len() && (#[trigger] file_delta(
                origin[i].0,
                origin[i].1,
                existing,
                output_root,
            )) is Some ==> deltas_spec(origin, existing, output_root).contains(
                file_delta(origin[i].0, origin[i].1, existing, output_root)->0,
            ),
    decreases origin.len(),
{
    if origin.len() > 0 {
        let pre = origin.drop_last();
        lemma_deltas_cover_files(pre, existing, output_root);
        let before = deltas_spec(pre, existing, output_root);
        let all = deltas_spec(origin, existing, output_root);
        let last = origin.last();
        assert forall|k: int| 0 <= k < all.len() implies exists|i: int|
            0 <= i < origin.len() && file_delta(origin[i].0, origin[i].1, existing, output_root)
                == Some(#[trigger] all[k]) by {
            if k < before.len() {
                assert(all[k] == before[k]);
                let i = choose|i: int|
                    0 <= i < pre.len() && file_delta(pre[i].0, pre[i].1, existing, output_root)
                        == Some(before[k]);
                assert(pre[i] == origin[i]);
            } else {
                assert(origin[origin.len() - 1] == last);
            }
        }
        assert forall|i: int|
            0 <= i < origin.len() && (#[trigger] file_delta(
                origin[i].0,
                origin[i].1,
                existing,
                output_root,
            )) is Some implies all.contains(
            file_delta(origin[i].0, origin[i].1, existing, output_root)->0,
        ) by {
            let d = file_delta(origin[i].0, origin[i].1, existing, output_root)->0;
            if i < pre.len() {
                assert(pre[i] == origin[i]);
                assert(file_delta(pre[i].0, pre[i].1, existing, output_root) is Some);
                assert(before.contains(d));
                let k = choose|k: int| 0 <= k < before.len() && before[k] == d;
                assert(all[k] == before[k]);
            } else {
                assert(origin[i] == last);
                assert(all[all.len() - 1] == d);
            }
        }
    }
}

} // verus!
