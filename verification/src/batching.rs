//! Translation units and their grouping into request batches: units that
//! share a model configuration and prompt go together, in batches that stay
//! under a size limit.
use vstd::prelude::*;

use crate::text::{views, str_eq};

verus! {

/// Everything a request needs besides the texts: the model slot and the
/// prompt. The temperature is the bit pattern of its `f64` value.
#[derive(Debug, Clone)]
pub struct TranslationRuntime {
    pub api_key: String,
    pub base_url: String,
    pub model: String,
    pub temperature_bits: u64,
    pub enable_thinking: bool,
    pub prompt_file: String,
    pub prompt_text: String,
}

/// The mathematical value of a runtime.
pub struct RuntimeView {
    pub api_key: Seq<char>,
    pub base_url: Seq<char>,
    pub model: Seq<char>,
    pub temperature_bits: u64,
    pub enable_thinking: bool,
    pub prompt_file: Seq<char>,
    pub prompt_text: Seq<char>,
}

impl View for TranslationRuntime {
    type V = RuntimeView;

    open spec fn view(&self) -> RuntimeView {
        RuntimeView {
            api_key: self.api_key@,
            base_url: self.base_url@,
            model: self.model@,
            temperature_bits: self.temperature_bits,
            enable_thinking: self.enable_thinking,
            prompt_file: self.prompt_file@,
            prompt_text: self.prompt_text@,
        }
    }
}

impl TranslationRuntime {
    /// A copy of the runtime.
    pub fn duplicate(&self) -> (res: Self)
        ensures
            res@ == self@,
    {
        TranslationRuntime {
            api_key: self.api_key.clone(),
            base_url: self.base_url.clone(),
            model: self.model.clone(),
            temperature_bits: self.temperature_bits,
            enable_thinking: self.enable_thinking,
            prompt_file: self.prompt_file.clone(),
            prompt_text: self.prompt_text.clone(),
        }
    }
}

/// One text to translate.
#[derive(Debug, Clone)]
pub struct TranslationUnit {
    pub unit_index: usize,
    pub prepared_text: String,
    pub runtime: TranslationRuntime,
}

/// Texts sent together in one request.
#[derive(Debug, Clone)]
pub struct TranslationBatch {
    pub batch_index: usize,
    pub unit_indices: Vec<usize>,
    pub texts: Vec<String>,
    pub runtime: TranslationRuntime,
}

/// What units must share to go into the same batch: everything about the
/// model and the prompt file (not the prompt text).
pub type GroupKey = (Seq<char>, Seq<char>, Seq<char>, u64, bool, Seq<char>);

/// The group key of a unit.
pub open spec fn unit_key(u: TranslationUnit) -> GroupKey {
    (
        u.runtime.api_key@,
        u.runtime.base_url@,
        u.runtime.model@,
        u.runtime.temperature_bits,
        u.runtime.enable_thinking,
        u.runtime.prompt_file@,
    )
}

/// The size of a unit: its text's length in UTF-8 bytes.
pub open spec fn unit_size(u: TranslationUnit) -> nat {
    vstd::utf8::encode_utf8(u.prepared_text@).len()
}

/// The total size of the units: the sum of their lengths in UTF-8 bytes.
pub open spec fn total_size(units: Seq<TranslationUnit>) -> nat
    decreases units.len(),
{
    if units.len() == 0 {
        0
    } else {
        total_size(units.drop_last()) + unit_size(units.last())
    }
}

/// The distinct group keys of the units, in order of first appearance.
pub open spec fn group_keys(us: Seq<TranslationUnit>) -> Seq<GroupKey>
    decreases us.len(),
{
    if us.len() == 0 {
        seq![]
    } else {
        let k = group_keys(us.drop_last());
        if k.contains(unit_key(us.last())) {
            k
        } else {
            k.push(unit_key(us.last()))
        }
    }
}

/// The units of one group, in their original order.
pub open spec fn members(us: Seq<TranslationUnit>, key: GroupKey) -> Seq<TranslationUnit> {
    us.filter(|u: TranslationUnit| unit_key(u) == key)
}

/// Greedy chunking: units are added to the current chunk in order; a unit
/// that would push a non-empty chunk over `max` bytes starts a new chunk.
/// `cur` is the chunk being filled and `cur_size` its size.
pub open spec fn chunks_acc(
    ms: Seq<TranslationUnit>,
    max: nat,
    cur: Seq<TranslationUnit>,
    cur_size: nat,
) -> Seq<Seq<TranslationUnit>>
    decreases ms.len(),
{
    if ms.len() == 0 {
        if cur.len() == 0 {
            seq![]
        } else {
            seq![cur]
        }
    } else {
        let s = unit_size(ms[0]);
        if cur.len() > 0 && cur_size + s > max {
            seq![cur] + chunks_acc(ms.drop_first(), max, seq![ms[0]], s)
        } else {
            chunks_acc(ms.drop_first(), max, cur.push(ms[0]), cur_size + s)
        }
    }
}

/// The chunks of one group.
pub open spec fn chunks(ms: Seq<TranslationUnit>, max: nat) -> Seq<Seq<TranslationUnit>> {
    chunks_acc(ms, max, seq![], 0)
}

/// The chunks of one group, each with the runtime of the group's first
/// unit.
pub open spec fn group_plan(us: Seq<TranslationUnit>, key: GroupKey, max: nat) -> Seq<
    (RuntimeView, Seq<TranslationUnit>),
> {
    let ms = members(us, key);
    chunks(ms, max).map_values(|c: Seq<TranslationUnit>| (ms[0].runtime@, c))
}

/// All batches in order: groups by first appearance, chunks in order
/// within each group.
pub open spec fn plan(us: Seq<TranslationUnit>, max: nat) -> Seq<(RuntimeView, Seq<TranslationUnit>)> {
    group_keys(us).map_values(|k: GroupKey| group_plan(us, k, max)).flatten()
}

/// Batch `b` carries index `idx`, runtime `rt`, and the indices and texts
/// of the units of chunk `c`.
pub open spec fn batch_matches(b: TranslationBatch, idx: int, rt: RuntimeView, c: Seq<TranslationUnit>) -> bool {
    &&& b.batch_index == idx
    &&& b.runtime@ == rt
    &&& b.unit_indices@ == c.map_values(|u: TranslationUnit| u.unit_index)
    &&& views(b.texts@) == c.map_values(|u: TranslationUnit| u.prepared_text@)
}

/// The batches are the planned chunks, numbered from zero.
pub open spec fn batches_match(bs: Seq<TranslationBatch>, p: Seq<(RuntimeView, Seq<TranslationUnit>)>) -> bool {
    &&& bs.len() == p.len()
    &&& forall|b: int| 0 <= b < bs.len() ==> batch_matches(#[trigger] bs[b], b, p[b].0, p[b].1)
}

fn same_key(a: &TranslationUnit, b: &TranslationUnit) -> (res: bool)
    ensures
        res == (unit_key(*a) == unit_key(*b)),
{
    str_eq(a.runtime.api_key.as_str(), b.runtime.api_key.as_str()) && str_eq(
        a.runtime.base_url.as_str(),
        b.runtime.base_url.as_str(),
    ) && str_eq(a.runtime.model.as_str(), b.runtime.model.as_str())
        && a.runtime.temperature_bits == b.runtime.temperature_bits
        && a.runtime.enable_thinking == b.runtime.enable_thinking && str_eq(
        a.runtime.prompt_file.as_str(),
        b.runtime.prompt_file.as_str(),
    )
}

/// Positions of a group's units, mapped to the units.
pub open spec fn at_positions(us: Seq<TranslationUnit>, ps: Seq<usize>) -> Seq<TranslationUnit> {
    ps.map_values(|p: usize| us[p as int])
}

/// Splits the units into groups of equal key, in order of first appearance;
/// each group lists the positions of its units.
fn group_positions(units: &Vec<TranslationUnit>) -> (res: Vec<Vec<usize>>)
    ensures
        res.len() == group_keys(units@).len(),
        forall|g: int, k: int|
            0 <= g < res.len() && 0 <= k < res@[g]@.len() ==> (#[trigger] res@[g]@[k]) < units.len(),
        forall|g: int|
            0 <= g < res.len() ==> at_positions(units@, #[trigger] res@[g]@) == members(
                units@,
                group_keys(units@)[g],
            ) && res@[g]@.len() > 0,
{
    let mut groups: Vec<Vec<usize>> = Vec::new();
    let mut i: usize = 0;
    while i < units.len()
        invariant
            i <= units.len(),
            groups.len() == group_keys(units@.take(i as int)).len(),
            forall|g: int, k: int|
                0 <= g < groups.len() && 0 <= k < groups@[g]@.len() ==> (#[trigger] groups@[g]@[k])
                    < i,
            forall|g: int|
                0 <= g < groups.len() ==> at_positions(units@, #[trigger] groups@[g]@) == members(
                    units@.take(i as int),
                    group_keys(units@.take(i as int))[g],
                ) && groups@[g]@.len() > 0,
        decreases units.len() - i,
    {
        let ghost pre = units@.take(i as int);
        let ghost post = units@.take(i + 1);
        let ghost keys = group_keys(pre);
        assert(post.drop_last() =~= pre);
        proof {
            reveal(Seq::filter);
        }
        assert(post.last() == units@[i as int]);
        // the key of each existing group is the key of its first unit
        assert forall|g: int| 0 <= g < groups.len() implies unit_key(
            units@[groups@[g]@[0] as int],
        ) == #[trigger] keys[g] by {
            let m = members(pre, keys[g]);
            assert(at_positions(units@, groups@[g]@)[0] == m[0]);
            assert(m.len() > 0);
            pre.filter_lemma(|u: TranslationUnit| unit_key(u) == keys[g]);
        }
        let mut g: usize = 0;
        while g < groups.len() && !same_key(&units[groups[g][0]], &units[i])
            invariant
                g <= groups.len(),
                i < units.len(),
                forall|g: int, k: int|
                    0 <= g < groups.len() && 0 <= k < groups@[g]@.len() ==> (#[trigger] groups@[g]@[k])
                        < i,
                forall|h: int| 0 <= h < g ==> keys[h] != unit_key(units@[i as int]),
                forall|h: int|
                    0 <= h < groups.len() ==> unit_key(units@[groups@[h]@[0] as int])
                        == #[trigger] keys[h],
                groups.len() == keys.len(),
                forall|h: int| 0 <= h < groups.len() ==> (#[trigger] groups@[h]@).len() > 0,
            decreases groups.len() - g,
        {
            g = g + 1;
        }
        let ghost k = unit_key(units@[i as int]);
        let ghost old_groups = groups@;
        if g < groups.len() {
            assert(keys.contains(k));
            assert(group_keys(post) == keys);
            let mut grp = groups.remove(g);
            grp.push(i);
            groups.insert(g, grp);
            assert(groups@ =~= old_groups.update(g as int, groups@[g as int]));
            assert(unit_key(units@[old_groups[g as int]@[0] as int]) == k);
            assert(keys[g as int] == k);
            assert forall|h: int| 0 <= h < groups.len() implies at_positions(
                units@,
                #[trigger] groups@[h]@,
            ) == members(post, group_keys(post)[h]) && groups@[h]@.len() > 0 by {
                reveal(Seq::filter);
                let kh = keys[h];
                assert(members(post, kh) == if unit_key(post.last()) == kh {
                    members(pre, kh).push(post.last())
                } else {
                    members(pre, kh)
                });
                assert(group_keys(post)[h] == kh);
                if h == g {
                    assert(groups@[h]@ == old_groups[h]@.push(i));
                    assert(at_positions(units@, groups@[h]@) =~= at_positions(
                        units@,
                        old_groups[h]@,
                    ).push(units@[i as int]));
                    assert(at_positions(units@, old_groups[h]@) == members(pre, kh));
                    assert(unit_key(post.last()) == kh);
                    assert(members(post, kh) == members(pre, kh).push(post.last()));
                } else {
                    lemma_group_keys_distinct(pre);
                    assert(groups@[h] == old_groups[h]);
                    assert(at_positions(units@, old_groups[h]@) == members(pre, kh));
                    assert(members(post, kh) == members(pre, kh));
                }
            }
        } else {
            assert(!keys.contains(k)) by {
                if keys.contains(k) {
                    let h = choose|h: int| 0 <= h < keys.len() && keys[h] == k;
                    assert(keys[h] != k);
                }
            }
            assert(group_keys(post) == keys.push(k));
            let mut grp: Vec<usize> = Vec::new();
            grp.push(i);
            groups.push(grp);
            assert forall|h: int| 0 <= h < groups.len() implies at_positions(
                units@,
                #[trigger] groups@[h]@,
            ) == members(post, group_keys(post)[h]) && groups@[h]@.len() > 0 by {
                reveal(Seq::filter);
                let kh = group_keys(post)[h];
                assert(members(post, kh) == if unit_key(post.last()) == kh {
                    members(pre, kh).push(post.last())
                } else {
                    members(pre, kh)
                });
                if h < old_groups.len() {
                    assert(groups@[h] == old_groups[h]);
                    assert(kh == keys[h]);
                } else {
                    assert(members(pre, k) =~= Seq::<TranslationUnit>::empty()) by {
                        if members(pre, k).len() > 0 {
                            let u = members(pre, k)[0];
                            pre.lemma_filter_pred(|u: TranslationUnit| unit_key(u) == k, 0);
                            assert(members(pre, k).contains(u));
                            pre.lemma_filter_contains_rev(|u: TranslationUnit| unit_key(u) == k, u);
                            assert(pre.contains(u));
                            let m = choose|m: int| 0 <= m < pre.len() && pre[m] == u;
                            lemma_key_in_group_keys(pre, m);
                        }
                    }
                    assert(at_positions(units@, groups@[h]@) =~= seq![units@[i as int]]);
                    assert(members(post, kh) =~= seq![units@[i as int]]);
                }
            }
        }
        i = i + 1;
    }
    assert(units@.take(units.len() as int) =~= units@);
    groups
}

/// The group keys are distinct.
pub proof fn lemma_group_keys_distinct(us: Seq<TranslationUnit>)
    ensures
        forall|a: int, b: int|
            0 <= a < b < group_keys(us).len() ==> group_keys(us)[a] != group_keys(us)[b],
    decreases us.len(),
{
    if us.len() > 0 {
        lemma_group_keys_distinct(us.drop_last());
        let k = group_keys(us.drop_last());
        if !k.contains(unit_key(us.last())) {
            assert forall|a: int, b: int|
                0 <= a < b < group_keys(us).len() implies group_keys(us)[a] != group_keys(us)[b] by {
                if b == k.len() {
                    assert(group_keys(us)[a] == k[a]);
                }
            }
        }
    }
}

/// The key of every unit is among the group keys.
pub proof fn lemma_key_in_group_keys(us: Seq<TranslationUnit>, m: int)
    requires
        0 <= m < us.len(),
    ensures
        group_keys(us).contains(unit_key(us[m])),
    decreases us.len(),
{
    if m < us.len() - 1 {
        lemma_key_in_group_keys(us.drop_last(), m);
        assert(us.drop_last()[m] == us[m]);
        let k = group_keys(us.drop_last());
        if !k.contains(unit_key(us.last())) {
            let j = choose|j: int| 0 <= j < k.len() && k[j] == unit_key(us[m]);
            assert(k.push(unit_key(us.last()))[j] == unit_key(us[m]));
        }
    } else {
        let k = group_keys(us.drop_last());
        if !k.contains(unit_key(us.last())) {
            assert(k.push(unit_key(us.last()))[k.len() as int] == unit_key(us[m]));
        }
    }
}

/// Groups units into batches (see `plan`): units sharing model slot,
/// temperature, thinking switch and prompt file are grouped, groups in
/// order of first appearance; within a group units keep their order and
/// are cut greedily into batches of at most `max_chars_per_batch` bytes of
/// text, a unit that alone exceeds the limit getting a batch of its own.
/// Batches are numbered from zero in order.
pub fn plan_batches(units: &Vec<TranslationUnit>, max_chars_per_batch: usize) -> (res: Vec<
    TranslationBatch,
>)
    ensures
        batches_match(res@, plan(units@, max_chars_per_batch as nat)),
{
    let groups = group_positions(units);
    let ghost us = units@;
    let ghost max = max_chars_per_batch as nat;
    let ghost keys = group_keys(us);
    let ghost per_group = keys.map_values(|k: GroupKey| group_plan(us, k, max));
    let mut batches: Vec<TranslationBatch> = Vec::new();
    let mut g: usize = 0;
    while g < groups.len()
        invariant
            g <= groups.len() == keys.len() == per_group.len(),
            us == units@,
            keys == group_keys(us),
            per_group == keys.map_values(|k: GroupKey| group_plan(us, k, max)),
            max == max_chars_per_batch as nat,
            forall|h: int, k: int|
                0 <= h < groups.len() && 0 <= k < groups@[h]@.len() ==> (#[trigger] groups@[h]@[k])
                    < units.len(),
            forall|h: int|
                0 <= h < groups.len() ==> at_positions(us, #[trigger] groups@[h]@) == members(
                    us,
                    keys[h],
                ) && groups@[h]@.len() > 0,
            batches_match(batches@, per_group.take(g as int).flatten()),
        decreases groups.len() - g,
    {
        let grp = &groups[g];
        let ghost ms = members(us, keys[g as int]);
        assert(at_positions(us, grp@) == ms);
        let first = grp[0];
        assert(ms[0] == units@[first as int]);
        let runtime = units[first].runtime.duplicate();
        let ghost done = per_group.take(g as int).flatten();
        let ghost group_chunks = chunks(ms, max);
        let mut cur_indices: Vec<usize> = Vec::new();
        let mut cur_texts: Vec<String> = Vec::new();
        let mut cur_chars: usize = 0;
        let ghost mut cur: Seq<TranslationUnit> = seq![];
        let ghost mut emitted: Seq<Seq<TranslationUnit>> = seq![];
        let mut j: usize = 0;
        assert(ms.skip(0) =~= ms);
        while j < grp.len()
            invariant
                j <= grp.len(),
                forall|k: int| 0 <= k < grp@.len() ==> (#[trigger] grp@[k]) < units.len(),
                at_positions(us, grp@) == ms,
                us == units@,
                runtime@ == ms[0].runtime@,
                group_chunks == chunks(ms, max),
                max == max_chars_per_batch as nat,
                emitted + chunks_acc(ms.skip(j as int), max, cur, cur_chars as nat) == group_chunks,
                cur.len() == 0 ==> cur_chars == 0,
                cur_indices@ == cur.map_values(|u: TranslationUnit| u.unit_index),
                views(cur_texts@) == cur.map_values(|u: TranslationUnit| u.prepared_text@),
                batches_match(
                    batches@,
                    done + emitted.map_values(|c: Seq<TranslationUnit>| (ms[0].runtime@, c)),
                ),
            decreases grp.len() - j,
        {
            let unit = &units[grp[j]];
            assert(ms[j as int] == *unit);
            let ghost rest = ms.skip(j as int);
            assert(rest[0] == *unit);
            assert(rest.drop_first() =~= ms.skip(j + 1));
            let text_chars = unit.prepared_text.as_str().as_bytes().len();
            assert(text_chars == unit_size(*unit));
            if cur_indices.len() > 0 && (cur_chars > max_chars_per_batch || text_chars
                > max_chars_per_batch - cur_chars) {
                let ghost before = batches@;
                let idx = batches.len();
                batches.push(
                    TranslationBatch {
                        batch_index: idx,
                        unit_indices: cur_indices,
                        texts: cur_texts,
                        runtime: runtime.duplicate(),
                    },
                );
                proof {
                    let p_old = done + emitted.map_values(
                        |c: Seq<TranslationUnit>| (ms[0].runtime@, c),
                    );
                    let p_new = done + emitted.push(cur).map_values(
                        |c: Seq<TranslationUnit>| (ms[0].runtime@, c),
                    );
                    assert(p_new =~= p_old.push((ms[0].runtime@, cur)));
                    assert forall|b: int| 0 <= b < batches@.len() implies batch_matches(
                        #[trigger] batches@[b],
                        b,
                        p_new[b].0,
                        p_new[b].1,
                    ) by {
                        if b < before.len() {
                            assert(batches@[b] == before[b]);
                        }
                    }
                    emitted = emitted.push(cur);
                    assert(seq![cur] + chunks_acc(rest.drop_first(), max, seq![*unit], text_chars as nat)
                        == chunks_acc(rest, max, cur, cur_chars as nat));
                    assert(emitted + chunks_acc(ms.skip(j + 1), max, seq![*unit], text_chars as nat)
                        =~= group_chunks);
                }
                cur_indices = Vec::new();
                cur_texts = Vec::new();
                cur_chars = 0;
                proof {
                    cur = seq![];
                }
            }
            let ghost cur_before = cur;
            let ghost texts_before = cur_texts@;
            assert(texts_before.len() == cur_before.len()) by {
                assert(views(texts_before).len() == texts_before.len());
            }
            cur_indices.push(unit.unit_index);
            cur_texts.push(unit.prepared_text.clone());
            cur_chars = cur_chars + text_chars;
            proof {
                cur = cur.push(*unit);
                assert(cur_indices@ =~= cur.map_values(|u: TranslationUnit| u.unit_index));
                assert forall|m: int| 0 <= m < cur.len() implies #[trigger] views(cur_texts@)[m]
                    == cur.map_values(|u: TranslationUnit| u.prepared_text@)[m] by {
                    if m < cur_before.len() {
                        assert(cur_texts@[m] == texts_before[m]);
                        assert(views(texts_before)[m] == cur_before.map_values(
                            |u: TranslationUnit| u.prepared_text@,
                        )[m]);
                    }
                }
                assert(views(cur_texts@) =~= cur.map_values(
                    |u: TranslationUnit| u.prepared_text@,
                ));
                if cur_before.len() == 0 {
                    assert(chunks_acc(rest, max, cur_before, 0) == chunks_acc(
                        rest.drop_first(),
                        max,
                        cur,
                        text_chars as nat,
                    ));
                }
            }
            j = j + 1;
        }
        assert(ms.skip(grp.len() as int) =~= Seq::<TranslationUnit>::empty());
        if cur_indices.len() > 0 {
            let ghost before = batches@;
            let idx = batches.len();
            batches.push(
                TranslationBatch {
                    batch_index: idx,
                    unit_indices: cur_indices,
                    texts: cur_texts,
                    runtime: runtime.duplicate(),
                },
            );
            proof {
                let p_old = done + emitted.map_values(|c: Seq<TranslationUnit>| (ms[0].runtime@, c));
                let p_new = done + emitted.push(cur).map_values(
                    |c: Seq<TranslationUnit>| (ms[0].runtime@, c),
                );
                assert(p_new =~= p_old.push((ms[0].runtime@, cur)));
                assert forall|b: int| 0 <= b < batches@.len() implies batch_matches(
                    #[trigger] batches@[b],
                    b,
                    p_new[b].0,
                    p_new[b].1,
                ) by {
                    if b < before.len() {
                        assert(batches@[b] == before[b]);
                    }
                }
                emitted = emitted.push(cur);
            }
        }
        proof {
            assert(emitted == group_chunks);
            assert(per_group[g as int] == group_plan(us, keys[g as int], max));
            assert(per_group.take(g + 1) =~= per_group.take(g as int).push(per_group[g as int]));
            per_group.take(g as int).lemma_flatten_push(per_group[g as int]);
        }
        g = g + 1;
    }
    assert(per_group.take(groups.len() as int) =~= per_group);
    batches
}

// ---------------------------------------------------------------------------
// Laws of the plan
// ---------------------------------------------------------------------------

/// The model and prompt fields of a runtime, which units of one batch share.
pub open spec fn runtime_key(rt: RuntimeView) -> GroupKey {
    (rt.api_key, rt.base_url, rt.model, rt.temperature_bits, rt.enable_thinking, rt.prompt_file)
}

/// A planned batch is sound: it has a unit; it holds at most `max` bytes of
/// text unless it holds a single unit; and its units all have the model
/// and prompt of its runtime.
pub open spec fn batch_sound(b: (RuntimeView, Seq<TranslationUnit>), max: nat) -> bool {
    &&& b.1.len() > 0
    &&& b.1.len() >= 2 ==> total_size(b.1) <= max
    &&& forall|j: int| 0 <= j < b.1.len() ==> unit_key(#[trigger] b.1[j]) == runtime_key(b.0)
}

/// The units of the planned batches, batch after batch.
pub open spec fn planned_units(p: Seq<(RuntimeView, Seq<TranslationUnit>)>) -> Seq<TranslationUnit> {
    p.map_values(|b: (RuntimeView, Seq<TranslationUnit>)| b.1).flatten()
}

/// The members of each of the given groups, group after group.
pub open spec fn grouped(us: Seq<TranslationUnit>, keys: Seq<GroupKey>) -> Seq<TranslationUnit> {
    keys.map_values(|k: GroupKey| members(us, k)).flatten()
}

spec fn chunk_sound(c: Seq<TranslationUnit>, max: nat, key: GroupKey) -> bool {
    &&& c.len() > 0
    &&& c.len() >= 2 ==> total_size(c) <= max
    &&& forall|j: int| 0 <= j < c.len() ==> unit_key(#[trigger] c[j]) == key
}

proof fn lemma_flatten_push<A>(x: Seq<Seq<A>>, y: Seq<A>)
    ensures
        x.push(y).flatten() == x.flatten() + y,
{
    vstd::seq_lib::lemma_flatten_concat(x, seq![y]);
    seq![y].lemma_flatten_one_element();
    assert(x.push(y) =~= x + seq![y]);
}

proof fn lemma_total_size_single(u: TranslationUnit)
    ensures
        total_size(seq![u]) == unit_size(u),
{
    assert(seq![u].drop_last() =~= Seq::<TranslationUnit>::empty());
    assert(total_size(Seq::<TranslationUnit>::empty()) == 0);
    assert(seq![u].last() == u);
}

proof fn lemma_chunks_acc(
    ms: Seq<TranslationUnit>,
    max: nat,
    cur: Seq<TranslationUnit>,
    cur_size: nat,
    key: GroupKey,
)
    requires
        cur_size == total_size(cur),
        cur.len() >= 2 ==> cur_size <= max,
        forall|j: int| 0 <= j < cur.len() ==> unit_key(#[trigger] cur[j]) == key,
        forall|j: int| 0 <= j < ms.len() ==> unit_key(#[trigger] ms[j]) == key,
    ensures
        chunks_acc(ms, max, cur, cur_size).flatten() == cur + ms,
        forall|i: int|
            0 <= i < chunks_acc(ms, max, cur, cur_size).len() ==> chunk_sound(
                #[trigger] chunks_acc(ms, max, cur, cur_size)[i],
                max,
                key,
            ),
    decreases ms.len(),
{
    if ms.len() == 0 {
        assert(cur + ms =~= cur);
        if cur.len() > 0 {
            seq![cur].lemma_flatten_one_element();
        }
    } else {
        let s = unit_size(ms[0]);
        if cur.len() > 0 && cur_size + s > max {
            lemma_total_size_single(ms[0]);
            lemma_chunks_acc(ms.drop_first(), max, seq![ms[0]], s, key);
            let rest = chunks_acc(ms.drop_first(), max, seq![ms[0]], s);
            vstd::seq_lib::lemma_flatten_concat(seq![cur], rest);
            seq![cur].lemma_flatten_one_element();
            assert(seq![ms[0]] + ms.drop_first() =~= ms);
            assert(cur + (seq![ms[0]] + ms.drop_first()) =~= cur + ms);
            assert forall|i: int| 0 <= i < (seq![cur] + rest).len() implies chunk_sound(
                #[trigger] (seq![cur] + rest)[i],
                max,
                key,
            ) by {
                if i > 0 {
                    assert((seq![cur] + rest)[i] == rest[i - 1]);
                }
            }
        } else {
            let next = cur.push(ms[0]);
            assert(next.drop_last() =~= cur);
            assert forall|j: int| 0 <= j < next.len() implies unit_key(#[trigger] next[j]) == key by {
                if j < cur.len() {
                    assert(next[j] == cur[j]);
                }
            }
            lemma_chunks_acc(ms.drop_first(), max, next, cur_size + s, key);
            assert(next + ms.drop_first() =~= cur + ms);
        }
    }
}

proof fn lemma_members_keys(us: Seq<TranslationUnit>, key: GroupKey)
    ensures
        forall|j: int| 0 <= j < members(us, key).len() ==> unit_key(#[trigger] members(us, key)[j]) == key,
{
    assert forall|j: int| 0 <= j < members(us, key).len() implies unit_key(
        #[trigger] members(us, key)[j],
    ) == key by {
        us.lemma_filter_pred(|u: TranslationUnit| unit_key(u) == key, j);
    }
}

proof fn lemma_group_plan(us: Seq<TranslationUnit>, key: GroupKey, max: nat)
    ensures
        forall|i: int|
            0 <= i < group_plan(us, key, max).len() ==> batch_sound(
                #[trigger] group_plan(us, key, max)[i],
                max,
            ),
        group_plan(us, key, max).map_values(|b: (RuntimeView, Seq<TranslationUnit>)| b.1)
            == chunks(members(us, key), max),
        chunks(members(us, key), max).flatten() == members(us, key),
{
    let ms = members(us, key);
    lemma_members_keys(us, key);
    lemma_chunks_acc(ms, max, seq![], 0, key);
    assert(Seq::<TranslationUnit>::empty() + ms =~= ms);
    let gp = group_plan(us, key, max);
    assert(gp.map_values(|b: (RuntimeView, Seq<TranslationUnit>)| b.1) =~= chunks(ms, max));
    assert forall|i: int| 0 <= i < gp.len() implies batch_sound(#[trigger] gp[i], max) by {
        assert(chunk_sound(chunks(ms, max)[i], max, key));
        if ms.len() == 0 {
            assert(chunks(ms, max) =~= Seq::<Seq<TranslationUnit>>::empty());
        }
        assert(unit_key(ms[0]) == key);
        assert(runtime_key(ms[0].runtime@) == unit_key(ms[0]));
    }
}

proof fn lemma_flatten_forall<A>(s: Seq<Seq<A>>, p: spec_fn(A) -> bool)
    requires
        forall|i: int, j: int| 0 <= i < s.len() && 0 <= j < s[i].len() ==> p(#[trigger] s[i][j]),
    ensures
        forall|j: int| 0 <= j < s.flatten().len() ==> p(#[trigger] s.flatten()[j]),
    decreases s.len(),
{
    if s.len() > 0 {
        lemma_flatten_forall(s.drop_first(), p);
        assert forall|j: int| 0 <= j < s.flatten().len() implies p(#[trigger] s.flatten()[j]) by {
            if j < s.first().len() {
                assert(s.flatten()[j] == s[0][j]);
            } else {
                assert(s.flatten()[j] == s.drop_first().flatten()[j - s.first().len()]);
            }
        }
    }
}

/// Every planned batch is sound (see `batch_sound`): no batch is empty, a
/// batch of several units stays within the size limit, and the units of a
/// batch share its model and prompt.
pub proof fn lemma_plan_batches_sound(us: Seq<TranslationUnit>, max: nat)
    ensures
        forall|b: int| 0 <= b < plan(us, max).len() ==> batch_sound(#[trigger] plan(us, max)[b], max),
{
    let keys = group_keys(us);
    let gps = keys.map_values(|k: GroupKey| group_plan(us, k, max));
    assert forall|i: int, j: int| 0 <= i < gps.len() && 0 <= j < gps[i].len() implies batch_sound(
        #[trigger] gps[i][j],
        max,
    ) by {
        lemma_group_plan(us, keys[i], max);
    }
    lemma_flatten_forall(gps, |b: (RuntimeView, Seq<TranslationUnit>)| batch_sound(b, max));
}

proof fn lemma_planned_units_concat(
    a: Seq<(RuntimeView, Seq<TranslationUnit>)>,
    b: Seq<(RuntimeView, Seq<TranslationUnit>)>,
)
    ensures
        planned_units(a + b) == planned_units(a) + planned_units(b),
{
    let f = |x: (RuntimeView, Seq<TranslationUnit>)| x.1;
    assert((a + b).map_values(f) =~= a.map_values(f) + b.map_values(f));
    vstd::seq_lib::lemma_flatten_concat(a.map_values(f), b.map_values(f));
}

proof fn lemma_planned_units_groups(us: Seq<TranslationUnit>, keys: Seq<GroupKey>, max: nat)
    ensures
        planned_units(keys.map_values(|k: GroupKey| group_plan(us, k, max)).flatten()) == grouped(
            us,
            keys,
        ),
    decreases keys.len(),
{
    if keys.len() == 0 {
        let e = keys.map_values(|k: GroupKey| group_plan(us, k, max));
        assert(e =~= Seq::<Seq<(RuntimeView, Seq<TranslationUnit>)>>::empty());
        assert(e.flatten() =~= Seq::<(RuntimeView, Seq<TranslationUnit>)>::empty());
        assert(planned_units(e.flatten()) =~= Seq::<TranslationUnit>::empty());
        assert(keys.map_values(|k: GroupKey| members(us, k)) =~= Seq::<Seq<TranslationUnit>>::empty());
    } else {
        let k0 = keys.drop_last();
        let k = keys.last();
        lemma_planned_units_groups(us, k0, max);
        let gps0 = k0.map_values(|x: GroupKey| group_plan(us, x, max));
        assert(keys.map_values(|x: GroupKey| group_plan(us, x, max)) =~= gps0.push(
            group_plan(us, k, max),
        ));
        lemma_flatten_push(gps0, group_plan(us, k, max));
        lemma_planned_units_concat(gps0.flatten(), group_plan(us, k, max));
        lemma_group_plan(us, k, max);
        let ms0 = k0.map_values(|x: GroupKey| members(us, x));
        assert(keys.map_values(|x: GroupKey| members(us, x)) =~= ms0.push(members(us, k)));
        lemma_flatten_push(ms0, members(us, k));
    }
}

proof fn lemma_grouped_push(us: Seq<TranslationUnit>, keys: Seq<GroupKey>, k: GroupKey)
    ensures
        grouped(us, keys.push(k)) == grouped(us, keys) + members(us, k),
{
    let ms = keys.map_values(|x: GroupKey| members(us, x));
    assert(keys.push(k).map_values(|x: GroupKey| members(us, x)) =~= ms.push(members(us, k)));
    lemma_flatten_push(ms, members(us, k));
}

proof fn lemma_grouped_add_unit(us: Seq<TranslationUnit>, u: TranslationUnit, keys: Seq<GroupKey>)
    requires
        forall|a: int, b: int| 0 <= a < b < keys.len() ==> keys[a] != keys[b],
    ensures
        grouped(us.push(u), keys).to_multiset() == if keys.contains(unit_key(u)) {
            grouped(us, keys).to_multiset().insert(u)
        } else {
            grouped(us, keys).to_multiset()
        },
    decreases keys.len(),
{
    broadcast use vstd::seq_lib::group_to_multiset_ensures;
    broadcast use vstd::seq_lib::lemma_multiset_commutative;

    if keys.len() == 0 {
        assert(grouped(us.push(u), keys) =~= Seq::<TranslationUnit>::empty());
        assert(grouped(us, keys) =~= Seq::<TranslationUnit>::empty());
    } else {
        let k0 = keys.drop_last();
        let k = keys.last();
        assert(k0.push(k) =~= keys);
        lemma_grouped_add_unit(us, u, k0);
        lemma_grouped_push(us.push(u), k0, k);
        lemma_grouped_push(us, k0, k);
        us.lemma_filter_push(u, |v: TranslationUnit| unit_key(v) == k);
        if unit_key(u) == k {
            assert(!k0.contains(unit_key(u))) by {
                if k0.contains(unit_key(u)) {
                    let a = choose|a: int| 0 <= a < k0.len() && k0[a] == unit_key(u);
                    assert(keys[a] == keys[keys.len() - 1]);
                }
            }
            assert(keys.contains(unit_key(u))) by {
                assert(keys[keys.len() - 1] == unit_key(u));
            }
            assert(grouped(us.push(u), keys).to_multiset() =~= grouped(us, keys).to_multiset().insert(u));
        } else {
            assert(keys.contains(unit_key(u)) == k0.contains(unit_key(u))) by {
                if k0.contains(unit_key(u)) {
                    let a = choose|a: int| 0 <= a < k0.len() && k0[a] == unit_key(u);
                    assert(keys[a] == unit_key(u));
                }
                if keys.contains(unit_key(u)) {
                    let a = choose|a: int| 0 <= a < keys.len() && keys[a] == unit_key(u);
                    assert(k0[a] == unit_key(u));
                }
            }
        }
    }
}

proof fn lemma_grouped_all(us: Seq<TranslationUnit>)
    ensures
        grouped(us, group_keys(us)).to_multiset() == us.to_multiset(),
    decreases us.len(),
{
    broadcast use vstd::seq_lib::group_to_multiset_ensures;
    broadcast use vstd::seq_lib::lemma_multiset_commutative;

    if us.len() == 0 {
        assert(grouped(us, group_keys(us)) =~= Seq::<TranslationUnit>::empty());
    } else {
        let pre = us.drop_last();
        let u = us.last();
        assert(pre.push(u) =~= us);
        lemma_grouped_all(pre);
        let k0 = group_keys(pre);
        lemma_group_keys_distinct(pre);
        lemma_grouped_add_unit(pre, u, k0);
        if !k0.contains(unit_key(u)) {
            lemma_group_keys_distinct(us);
            lemma_grouped_push(us, k0, unit_key(u));
            pre.lemma_filter_push(u, |v: TranslationUnit| unit_key(v) == unit_key(u));
            assert(members(pre, unit_key(u)) =~= Seq::<TranslationUnit>::empty()) by {
                if members(pre, unit_key(u)).len() > 0 {
                    lemma_members_keys(pre, unit_key(u));
                    let m = members(pre, unit_key(u))[0];
                    assert(members(pre, unit_key(u)).contains(m));
                    pre.lemma_filter_contains_rev(|v: TranslationUnit| unit_key(v) == unit_key(u), m);
                    let j = choose|j: int| 0 <= j < pre.len() && pre[j] == m;
                    lemma_key_in_group_keys(pre, j);
                }
            }
            assert(members(us, unit_key(u)) =~= seq![u]);
        }
    }
}

/// The plan sends every unit exactly once: the units of all planned
/// batches are the given units, each as often as it occurs among them.
pub proof fn lemma_plan_covers_each_unit_once(us: Seq<TranslationUnit>, max: nat)
    ensures
        planned_units(plan(us, max)).to_multiset() == us.to_multiset(),
{
    lemma_planned_units_groups(us, group_keys(us), max);
    lemma_grouped_all(us);
}

} // verus!
