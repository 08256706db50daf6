//! Turning new entries into translation units: which texts of each file are
//! translated under which strategy, and what each request needs.
use vstd::prelude::*;

use crate::batching::{TranslationRuntime, TranslationUnit};
use crate::deltas::{data_list, data_list_ref, FileDelta};
use crate::error::{plain_error, UserFacingError};
use crate::json::{
    copy_path, extract, extract_text, path_push, steps, ExtractedEntry, JsonValue, JsonView,
    PathSegment, PathStep,
};
use crate::models::{
    model_lookup, strategies_view, terms_view, ModelProfile, ModelsConfig, StrategyView,
    TerminologyDictionary, TranslationStrategy,
};
use crate::strategy::{fields_for_strategy, find_model, strategy_fields};
use crate::terminology::{apply_terminology, apply_terminology_spec};
use crate::text::{str_eq, views};

verus! {

/// A text found in a file together with the position (in the file's list
/// of matched strategies) of the strategy that found it.
#[derive(Debug, Clone)]
pub struct Candidate {
    pub strategy: usize,
    pub entry: ExtractedEntry,
}

/// The mathematical value of a candidate.
pub open spec fn candidate_view(c: Candidate) -> (int, (Seq<PathStep>, Seq<char>)) {
    (c.strategy as int, c.entry.entry_view())
}

/// The views of a sequence of candidates.
pub open spec fn candidates_view(v: Seq<Candidate>) -> Seq<(int, (Seq<PathStep>, Seq<char>))> {
    v.map_values(|c: Candidate| candidate_view(c))
}

/// The texts of one entry of a file, strategy by strategy: each strategy
/// extracts with its own fields, starting from the entry's position.
pub open spec fn item_candidates(
    item: JsonView,
    ii: int,
    matched: Seq<StrategyView>,
    blacklist: Seq<Seq<char>>,
) -> Seq<(int, (Seq<PathStep>, Seq<char>))> {
    Seq::new(
        matched.len(),
        |k: int|
            extract(item, blacklist, seq![PathStep::Index(ii)], strategy_fields(matched[k])).map_values(
                |e: (Seq<PathStep>, Seq<char>)| (k, e),
            ),
    ).flatten()
}

/// The texts of all entries of a file, entry by entry.
pub open spec fn file_candidates(
    items: Seq<JsonView>,
    matched: Seq<StrategyView>,
    blacklist: Seq<Seq<char>>,
) -> Seq<(int, (Seq<PathStep>, Seq<char>))> {
    Seq::new(items.len(), |ii: int| item_candidates(items[ii], ii, matched, blacklist)).flatten()
}

/// Candidate `i` is the first with its path.
pub open spec fn first_with_path(c: Seq<(int, (Seq<PathStep>, Seq<char>))>, i: int) -> bool {
    forall|j: int| 0 <= j < i ==> c[j].1.0 != c[i].1.0
}

/// The first `n` candidates without those whose path an earlier candidate
/// already has: every text is translated once, by the first strategy that
/// finds it.
pub open spec fn kept_prefix(c: Seq<(int, (Seq<PathStep>, Seq<char>))>, n: int) -> Seq<
    (int, (Seq<PathStep>, Seq<char>)),
>
    decreases n,
{
    if n <= 0 {
        seq![]
    } else if first_with_path(c, n - 1) {
        kept_prefix(c, n - 1).push(c[n - 1])
    } else {
        kept_prefix(c, n - 1)
    }
}

/// The candidates of a file that are translated.
pub open spec fn file_kept(
    content: JsonView,
    matched: Seq<StrategyView>,
    blacklist: Seq<Seq<char>>,
) -> Seq<(int, (Seq<PathStep>, Seq<char>))> {
    match data_list(content) {
        Some(items) => {
            let c = file_candidates(items, matched, blacklist);
            kept_prefix(c, c.len() as int)
        },
        None => seq![],
    }
}

/// Compares two paths step by step.
pub fn path_eq(a: &Vec<PathSegment>, b: &Vec<PathSegment>) -> (res: bool)
    ensures
        res == (steps(a@) == steps(b@)),
{
    if a.len() != b.len() {
        assert(steps(a@).len() != steps(b@).len());
        return false;
    }
    let mut i: usize = 0;
    while i < a.len()
        invariant
            i <= a.len() == b.len(),
            forall|k: int| 0 <= k < i ==> a@[k].step() == b@[k].step(),
        decreases a.len() - i,
    {
        let same = match (&a[i], &b[i]) {
            (PathSegment::Key(x), PathSegment::Key(y)) => str_eq(x.as_str(), y.as_str()),
            (PathSegment::Index(x), PathSegment::Index(y)) => *x == *y,
            _ => false,
        };
        if !same {
            assert(steps(a@)[i as int] != steps(b@)[i as int]);
            return false;
        }
        i = i + 1;
    }
    assert(steps(a@) =~= steps(b@));
    true
}

fn copy_entry(e: &ExtractedEntry) -> (res: ExtractedEntry)
    ensures
        res.entry_view() == e.entry_view(),
{
    ExtractedEntry { path: copy_path(&e.path), text: e.text.clone() }
}

/// The texts of a file that are translated (see `file_kept`): every entry
/// of the file's `dataList`, under every matched strategy in order, with
/// repeated paths dropped.
#[verifier::loop_isolation(false)]
pub fn file_kept_candidates(
    content: &JsonValue,
    matched: &Vec<TranslationStrategy>,
    blacklist: &Vec<String>,
) -> (res: Vec<Candidate>)
    ensures
        candidates_view(res@) == file_kept(content.view_of(), strategies_view(matched@), views(blacklist@)),
{
    let items = match data_list_ref(content) {
        Some(items) => items,
        None => {
            let empty: Vec<Candidate> = Vec::new();
            assert(candidates_view(empty@) =~= Seq::<(int, (Seq<PathStep>, Seq<char>))>::empty());
            return empty;
        },
    };
    let ghost iv = JsonValue::Array(*items).view_of()->Array_0;
    let ghost mv = strategies_view(matched@);
    let ghost bl = views(blacklist@);
    let ghost per_item = Seq::new(iv.len(), |ii: int| item_candidates(iv[ii], ii, mv, bl));
    let mut all: Vec<Candidate> = Vec::new();
    let mut ii: usize = 0;
    while ii < items.len()
        invariant
            ii <= items.len() == iv.len(),
            candidates_view(all@) == per_item.take(ii as int).flatten(),
        decreases items.len() - ii,
    {
        assert(iv[ii as int] == items@[ii as int].view_of());
        let ghost per_strategy = Seq::new(
            mv.len(),
            |k: int|
                extract(
                    iv[ii as int],
                    bl,
                    seq![PathStep::Index(ii as int)],
                    strategy_fields(mv[k]),
                ).map_values(|e: (Seq<PathStep>, Seq<char>)| (k, e)),
        );
        assert(per_item[ii as int] == per_strategy.flatten());
        let ghost base = candidates_view(all@);
        let mut start: Vec<PathSegment> = Vec::new();
        start.push(PathSegment::Index(ii));
        assert(steps(start@) =~= seq![PathStep::Index(ii as int)]);
        let mut k: usize = 0;
        while k < matched.len()
            invariant
                k <= matched.len() == mv.len(),
                steps(start@) == seq![PathStep::Index(ii as int)],
                candidates_view(all@) == base + per_strategy.take(k as int).flatten(),
            decreases matched.len() - k,
        {
            assert(mv[k as int] == matched@[k as int]@);
            let fields = fields_for_strategy(&matched[k]);
            let entries = extract_text(&items[ii], blacklist, &start, &fields);
            let ghost ev = crate::json::entries_view(entries@);
            let ghost step_before = candidates_view(all@);
            let mut j: usize = 0;
            while j < entries.len()
                invariant
                    j <= entries.len(),
                    ev == crate::json::entries_view(entries@),
                    candidates_view(all@) == step_before + ev.take(j as int).map_values(
                        |e: (Seq<PathStep>, Seq<char>)| (k as int, e),
                    ),
                decreases entries.len() - j,
            {
                let ghost before = all@;
                all.push(Candidate { strategy: k, entry: copy_entry(&entries[j]) });
                assert(candidates_view(all@) =~= candidates_view(before).push(
                    (k as int, ev[j as int]),
                ));
                assert(ev.take(j + 1).map_values(|e: (Seq<PathStep>, Seq<char>)| (k as int, e))
                    =~= ev.take(j as int).map_values(
                    |e: (Seq<PathStep>, Seq<char>)| (k as int, e),
                ).push((k as int, ev[j as int])));
                j = j + 1;
            }
            assert(ev.take(entries.len() as int) =~= ev);
            assert(per_strategy.take(k + 1) =~= per_strategy.take(k as int).push(
                per_strategy[k as int],
            ));
            proof {
                per_strategy.take(k as int).lemma_flatten_push(per_strategy[k as int]);
            }
            k = k + 1;
        }
        assert(per_strategy.take(matched.len() as int) =~= per_strategy);
        assert(per_item.take(ii + 1) =~= per_item.take(ii as int).push(per_item[ii as int]));
        proof {
            per_item.take(ii as int).lemma_flatten_push(per_item[ii as int]);
        }
        ii = ii + 1;
    }
    assert(per_item.take(items.len() as int) =~= per_item);
    assert(data_list(content.view_of()) == Some(iv));
    let ghost c = candidates_view(all@);
    let mut kept: Vec<Candidate> = Vec::new();
    let mut i: usize = 0;
    while i < all.len()
        invariant
            i <= all.len(),
            c == candidates_view(all@),
            candidates_view(kept@) == kept_prefix(c, i as int),
        decreases all.len() - i,
    {
        let mut first = true;
        let mut j: usize = 0;
        while j < i
            invariant
                j <= i < all.len(),
                c == candidates_view(all@),
                first == forall|m: int| 0 <= m < j ==> c[m].1.0 != c[i as int].1.0,
            decreases i - j,
        {
            assert(c[j as int].1.0 == steps(all@[j as int].entry.path@));
            assert(c[i as int].1.0 == steps(all@[i as int].entry.path@));
            if path_eq(&all[j].entry.path, &all[i].entry.path) {
                first = false;
            }
            j = j + 1;
        }
        if first {
            let ghost before = kept@;
            kept.push(Candidate { strategy: all[i].strategy, entry: copy_entry(&all[i].entry) });
            assert(candidates_view(kept@) =~= candidates_view(before).push(c[i as int]));
        }
        i = i + 1;
    }
    kept
}

// ---------------------------------------------------------------------------
// Units
// ---------------------------------------------------------------------------

/// A text waiting for its translation: where it goes in its file, and the
/// text to fall back on.
#[derive(Debug, Clone)]
pub struct PendingReplacement {
    pub unit_index: usize,
    pub path: Vec<PathSegment>,
    pub fallback_text: String,
}

/// The mathematical value of a pending replacement.
pub open spec fn replacement_view(r: PendingReplacement) -> (usize, Seq<PathStep>, Seq<char>) {
    (r.unit_index, steps(r.path@), r.fallback_text@)
}

/// The views of a sequence of pending replacements.
pub open spec fn replacements_view(v: Seq<PendingReplacement>) -> Seq<(usize, Seq<PathStep>, Seq<char>)> {
    v.map_values(|r: PendingReplacement| replacement_view(r))
}

proof fn lemma_flatten_at<A>(s: Seq<Seq<A>>, f: int, i: int)
    requires
        0 <= f < s.len(),
        0 <= i < s[f].len(),
    ensures
        s.take(f).flatten().len() + i < s.flatten().len(),
        s.flatten()[s.take(f).flatten().len() + i] == s[f][i],
{
    let rest = seq![s[f]] + s.skip(f + 1);
    assert(s =~= s.take(f) + rest);
    vstd::seq_lib::lemma_flatten_concat(s.take(f), rest);
    vstd::seq_lib::lemma_flatten_concat(seq![s[f]], s.skip(f + 1));
    seq![s[f]].lemma_flatten_singleton();
}

/// The prompt text loaded for a prompt file (first entry of that name).
pub open spec fn prompt_lookup(prompts: Seq<(String, String)>, name: Seq<char>) -> Option<Seq<char>>
    decreases prompts.len(),
{
    if prompts.len() == 0 {
        None
    } else if prompts[0].0@ == name {
        Some(prompts[0].1@)
    } else {
        prompt_lookup(prompts.drop_first(), name)
    }
}

/// The dictionary loaded for a terminology file (first entry of that name).
pub open spec fn terminology_lookup(terms: Seq<(String, TerminologyDictionary)>, name: Seq<char>) -> Option<
    TerminologyDictionary,
>
    decreases terms.len(),
{
    if terms.len() == 0 {
        None
    } else if terms[0].0@ == name {
        Some(terms[0].1)
    } else {
        terminology_lookup(terms.drop_first(), name)
    }
}

/// The term pairs a strategy applies: those of its terminology file when
/// it names one that was loaded, none otherwise.
pub open spec fn strategy_terms(s: StrategyView, terms: Seq<(String, TerminologyDictionary)>) -> Seq<
    (Seq<char>, Seq<char>),
> {
    match s.terminology_file {
        Some(f) => match terminology_lookup(terms, f) {
            Some(d) => terms_view(d.terminology@),
            None => seq![],
        },
        None => seq![],
    }
}

/// Unit `n` is built from a text found by strategy `s`: the text after
/// applying the strategy's terminology, the strategy's model slot, and its
/// prompt file and prompt text (empty when not loaded).
pub open spec fn unit_matches(
    u: TranslationUnit,
    n: int,
    s: StrategyView,
    profile: ModelProfile,
    prompts: Seq<(String, String)>,
    terms: Seq<(String, TerminologyDictionary)>,
    text: Seq<char>,
) -> bool {
    &&& u.unit_index == n
    &&& u.prepared_text@ == apply_terminology_spec(text, strategy_terms(s, terms))
    &&& u.runtime.api_key@ == profile.api_key@
    &&& u.runtime.base_url@ == profile.base_url@
    &&& u.runtime.model@ == profile.model@
    &&& u.runtime.temperature_bits == profile.temperature_bits
    &&& u.runtime.enable_thinking == profile.enable_thinking
    &&& u.runtime.prompt_file@ == s.prompt_file
    &&& u.runtime.prompt_text@ == match prompt_lookup(prompts, s.prompt_file) {
        Some(p) => p,
        None => Seq::<char>::empty(),
    }
}

/// All translated texts of all files, file by file, each tagged with its
/// file's position.
pub open spec fn all_kept(files: Seq<Seq<Candidate>>) -> Seq<(int, (int, (Seq<PathStep>, Seq<char>)))> {
    Seq::new(
        files.len(),
        |f: int|
            candidates_view(files[f]).map_values(
                |c: (int, (Seq<PathStep>, Seq<char>))| (f, c),
            ),
    ).flatten()
}

/// The strategy of a tagged text.
pub open spec fn tagged_strategy(matched: Seq<Seq<TranslationStrategy>>, t: (int, (int, (Seq<PathStep>, Seq<char>)))) -> StrategyView {
    matched[t.0][t.1.0]@
}

/// Position of the first text, from `n` on, whose strategy's model slot
/// does not exist.
pub open spec fn first_missing_model(
    all: Seq<(int, (int, (Seq<PathStep>, Seq<char>)))>,
    matched: Seq<Seq<TranslationStrategy>>,
    models: Seq<(String, ModelProfile)>,
    n: int,
) -> Option<int>
    decreases all.len() - n,
{
    if n < 0 || n >= all.len() {
        None
    } else if model_lookup(models, tagged_strategy(matched, all[n]).model) is None {
        Some(n)
    } else {
        first_missing_model(all, matched, models, n + 1)
    }
}

fn find_prompt(prompts: &Vec<(String, String)>, name: &str) -> (res: String)
    ensures
        res@ == match prompt_lookup(prompts@, name@) {
            Some(p) => p,
            None => Seq::<char>::empty(),
        },
{
    let mut i: usize = 0;
    assert(prompts@.skip(0) =~= prompts@);
    while i < prompts.len()
        invariant
            i <= prompts.len(),
            prompt_lookup(prompts@, name@) == prompt_lookup(prompts@.skip(i as int), name@),
        decreases prompts.len() - i,
    {
        assert(prompts@.skip(i as int).drop_first() =~= prompts@.skip(i + 1));
        assert(prompts@.skip(i as int)[0] == prompts@[i as int]);
        if str_eq(prompts[i].0.as_str(), name) {
            return prompts[i].1.clone();
        }
        i = i + 1;
    }
    String::new()
}

fn find_terms<'a>(terms: &'a Vec<(String, TerminologyDictionary)>, file: &Option<String>) -> (res: Option<
    &'a TerminologyDictionary,
>)
    ensures
        match res {
            Some(d) => file is Some && terminology_lookup(terms@, file->0@) == Some(*d),
            None => file is None || terminology_lookup(terms@, file->0@) is None,
        },
{
    let name = match file {
        Some(n) => n,
        None => return None,
    };
    let mut i: usize = 0;
    assert(terms@.skip(0) =~= terms@);
    while i < terms.len()
        invariant
            i <= terms.len(),
            *file == Some(*name),
            terminology_lookup(terms@, name@) == terminology_lookup(terms@.skip(i as int), name@),
        decreases terms.len() - i,
    {
        assert(terms@.skip(i as int).drop_first() =~= terms@.skip(i + 1));
        assert(terms@.skip(i as int)[0] == terms@[i as int]);
        if str_eq(terms[i].0.as_str(), name.as_str()) {
            return Some(&terms[i].1);
        }
        i = i + 1;
    }
    None
}

/// The error for a strategy whose model slot does not exist.
pub fn missing_model_error(s: &TranslationStrategy) -> (res: UserFacingError)
    ensures
        res.is(
            "Invalid Strategy Reference"@,
            "Strategy '"@ + s.name@ + "' references missing model '"@ + s.model@ + "'."@,
            None,
        ),
{
    let m = crate::text::concat("Strategy '", s.name.as_str());
    let m = crate::text::concat(m.as_str(), "' references missing model '");
    let m = crate::text::concat(m.as_str(), s.model.as_str());
    let m = crate::text::concat(m.as_str(), "'.");
    plain_error("Invalid Strategy Reference", m.as_str())
}

/// Builds one unit per translated text, numbered in order across all files,
/// and for each file the replacements that put the translations back.
/// `files[f]` holds the translated texts of file `f` (from
/// `file_kept_candidates`) and `matched[f]` the strategies matched for it.
/// Fails, naming the strategy, at the first text whose strategy's model
/// slot does not exist.
pub fn build_units(
    files: &Vec<Vec<Candidate>>,
    matched: &Vec<Vec<TranslationStrategy>>,
    models: &ModelsConfig,
    prompts: &Vec<(String, String)>,
    terms: &Vec<(String, TerminologyDictionary)>,
) -> (res: Result<(Vec<TranslationUnit>, Vec<Vec<PendingReplacement>>), UserFacingError>)
    requires
        matched.len() == files.len(),
        forall|f: int, i: int|
            0 <= f < files.len() && 0 <= i < files@[f].len() ==> (#[trigger] files@[f]@[i]).strategy
                < matched@[f].len(),
    ensures
        match first_missing_model(
            all_kept(files@.map_values(|v: Vec<Candidate>| v@)),
            matched@.map_values(|v: Vec<TranslationStrategy>| v@),
            models.models@,
            0,
        ) {
            Some(n) => res matches Err(e) && e.is(
                "Invalid Strategy Reference"@,
                "Strategy '"@ + tagged_strategy(
                    matched@.map_values(|v: Vec<TranslationStrategy>| v@),
                    all_kept(files@.map_values(|v: Vec<Candidate>| v@))[n],
                ).name + "' references missing model '"@ + tagged_strategy(
                    matched@.map_values(|v: Vec<TranslationStrategy>| v@),
                    all_kept(files@.map_values(|v: Vec<Candidate>| v@))[n],
                ).model + "'."@,
                None,
            ),
            None => res matches Ok((units, reps)) && {
                let all = all_kept(files@.map_values(|v: Vec<Candidate>| v@));
                let ms = matched@.map_values(|v: Vec<TranslationStrategy>| v@);
                &&& units.len() == all.len()
                &&& forall|n: int|
                    0 <= n < units.len() ==> unit_matches(
                        #[trigger] units@[n],
                        n,
                        tagged_strategy(ms, all[n]),
                        model_lookup(models.models@, tagged_strategy(ms, all[n]).model)->0,
                        prompts@,
                        terms@,
                        all[n].1.1.1,
                    )
                &&& reps.len() == files.len()
                &&& forall|f: int|
                    0 <= f < files.len() ==> (#[trigger] reps@[f]).len() == files@[f].len()
                &&& forall|f: int, i: int|
                    0 <= f < files.len() && 0 <= i < files@[f].len() ==> {
                        let r = replacement_view(#[trigger] reps@[f]@[i]);
                        &&& all[r.0 as int] == (f, candidate_view(files@[f]@[i]))
                        &&& r.1 == files@[f]@[i].entry.entry_view().0
                        &&& r.2 == files@[f]@[i].entry.entry_view().1
                    }
            },
        },
{
    let ghost fs = files@.map_values(|v: Vec<Candidate>| v@);
    let ghost ms = matched@.map_values(|v: Vec<TranslationStrategy>| v@);
    let ghost per_file = Seq::new(
        fs.len(),
        |f: int|
            candidates_view(fs[f]).map_values(|c: (int, (Seq<PathStep>, Seq<char>))| (f, c)),
    );
    let ghost all = per_file.flatten();
    let mut units: Vec<TranslationUnit> = Vec::new();
    let mut reps: Vec<Vec<PendingReplacement>> = Vec::new();
    let mut f: usize = 0;
    while f < files.len()
        invariant
            f <= files.len() == matched.len(),
            fs == files@.map_values(|v: Vec<Candidate>| v@),
            ms == matched@.map_values(|v: Vec<TranslationStrategy>| v@),
            per_file == Seq::new(
                fs.len(),
                |f: int|
                    candidates_view(fs[f]).map_values(
                        |c: (int, (Seq<PathStep>, Seq<char>))| (f, c),
                    ),
            ),
            all == per_file.flatten(),
            all == all_kept(fs),
            forall|g: int, i: int|
                0 <= g < files.len() && 0 <= i < files@[g].len() ==> (#[trigger] files@[g]@[i]).strategy
                    < matched@[g].len(),
            per_file.len() == files.len(),
            units.len() == per_file.take(f as int).flatten().len(),
            first_missing_model(all, ms, models.models@, 0) == first_missing_model(
                all,
                ms,
                models.models@,
                units.len() as int,
            ),
            forall|n: int|
                0 <= n < units.len() ==> unit_matches(
                    #[trigger] units@[n],
                    n,
                    tagged_strategy(ms, all[n]),
                    model_lookup(models.models@, tagged_strategy(ms, all[n]).model)->0,
                    prompts@,
                    terms@,
                    all[n].1.1.1,
                ),
            reps.len() == f,
            forall|g: int| 0 <= g < f ==> (#[trigger] reps@[g]).len() == files@[g].len(),
            forall|g: int, i: int|
                0 <= g < f && 0 <= i < files@[g].len() ==> {
                    let r = replacement_view(#[trigger] reps@[g]@[i]);
                    &&& all[r.0 as int] == (g, candidate_view(files@[g]@[i]))
                    &&& r.1 == files@[g]@[i].entry.entry_view().0
                    &&& r.2 == files@[g]@[i].entry.entry_view().1
                },
        decreases files.len() - f,
    {
        let file = &files[f];
        let ghost base = units.len() as int;
        let ghost pf = per_file[f as int];
        assert(fs[f as int] == file@);
        assert(pf == candidates_view(file@).map_values(
            |c: (int, (Seq<PathStep>, Seq<char>))| (f as int, c),
        ));
        let mut file_reps: Vec<PendingReplacement> = Vec::new();
        let mut i: usize = 0;
        while i < file.len()
            invariant
                i <= file.len(),
                f < files.len() == matched.len(),
                file == &files@[f as int],
                fs == files@.map_values(|v: Vec<Candidate>| v@),
                ms == matched@.map_values(|v: Vec<TranslationStrategy>| v@),
                all == per_file.flatten(),
                all == all_kept(fs),
                pf == per_file[f as int],
                pf == candidates_view(file@).map_values(
                    |c: (int, (Seq<PathStep>, Seq<char>))| (f as int, c),
                ),
                per_file.len() == files.len(),
                base == per_file.take(f as int).flatten().len(),
                forall|g: int, j: int|
                    0 <= g < files.len() && 0 <= j < files@[g].len() ==> (#[trigger] files@[g]@[j]).strategy
                        < matched@[g].len(),
                units.len() == base + i,
                first_missing_model(all, ms, models.models@, 0) == first_missing_model(
                    all,
                    ms,
                    models.models@,
                    units.len() as int,
                ),
                forall|n: int|
                    0 <= n < units.len() ==> unit_matches(
                        #[trigger] units@[n],
                        n,
                        tagged_strategy(ms, all[n]),
                        model_lookup(models.models@, tagged_strategy(ms, all[n]).model)->0,
                        prompts@,
                        terms@,
                        all[n].1.1.1,
                    ),
                file_reps.len() == i,
                forall|j: int|
                    0 <= j < i ==> {
                        let r = replacement_view(#[trigger] file_reps@[j]);
                        &&& all[r.0 as int] == (f as int, candidate_view(files@[f as int]@[j]))
                        &&& r.1 == files@[f as int]@[j].entry.entry_view().0
                        &&& r.2 == files@[f as int]@[j].entry.entry_view().1
                    },
            decreases file.len() - i,
        {
            let c = &file[i];
            proof {
                lemma_flatten_at(per_file, f as int, i as int);
                assert(pf[i as int] == (f as int, candidate_view(*c)));
            }
            let ghost n = units.len() as int;
            assert(all[n] == (f as int, candidate_view(*c)));
            let s = &matched[f][c.strategy];
            assert(tagged_strategy(ms, all[n]) == s@);
            let profile = match find_model(models, s.model.as_str()) {
                Some(p) => p,
                None => {
                    assert(first_missing_model(all, ms, models.models@, n) == Some(n));
                    return Err(missing_model_error(s));
                },
            };
            let empty: Vec<(String, String)> = Vec::new();
            assert(terms_view(empty@) =~= Seq::<(Seq<char>, Seq<char>)>::empty());
            let prepared_text = match find_terms(terms, &s.terminology_file) {
                Some(d) => apply_terminology(c.entry.text.as_str(), &d.terminology),
                None => apply_terminology(c.entry.text.as_str(), &empty),
            };
            let prompt_text = find_prompt(prompts, s.prompt_file.as_str());
            let unit_index = units.len();
            let unit = TranslationUnit {
                unit_index,
                prepared_text,
                runtime: TranslationRuntime {
                    api_key: profile.api_key.clone(),
                    base_url: profile.base_url.clone(),
                    model: profile.model.clone(),
                    temperature_bits: profile.temperature_bits,
                    enable_thinking: profile.enable_thinking,
                    prompt_file: s.prompt_file.clone(),
                    prompt_text,
                },
            };
            assert(unit_matches(
                unit,
                n,
                tagged_strategy(ms, all[n]),
                model_lookup(models.models@, tagged_strategy(ms, all[n]).model)->0,
                prompts@,
                terms@,
                all[n].1.1.1,
            ));
            let ghost units_before = units@;
            units.push(unit);
            assert forall|m: int| 0 <= m < units.len() implies unit_matches(
                #[trigger] units@[m],
                m,
                tagged_strategy(ms, all[m]),
                model_lookup(models.models@, tagged_strategy(ms, all[m]).model)->0,
                prompts@,
                terms@,
                all[m].1.1.1,
            ) by {
                if m < n {
                    assert(units@[m] == units_before[m]);
                }
            }
            let ghost reps_before = file_reps@;
            file_reps.push(
                PendingReplacement {
                    unit_index,
                    path: copy_path(&c.entry.path),
                    fallback_text: c.entry.text.clone(),
                },
            );
            assert forall|j: int| 0 <= j < i + 1 implies {
                let r = replacement_view(#[trigger] file_reps@[j]);
                &&& all[r.0 as int] == (f as int, candidate_view(files@[f as int]@[j]))
                &&& r.1 == files@[f as int]@[j].entry.entry_view().0
                &&& r.2 == files@[f as int]@[j].entry.entry_view().1
            } by {
                if j < i {
                    assert(file_reps@[j] == reps_before[j]);
                }
            }
            i = i + 1;
        }
        proof {
            assert(per_file.take(f + 1) =~= per_file.take(f as int).push(per_file[f as int]));
            per_file.take(f as int).lemma_flatten_push(per_file[f as int]);
        }
        let ghost reps_before = reps@;
        reps.push(file_reps);
        assert forall|g: int, j: int| 0 <= g < f + 1 && 0 <= j < files@[g].len() implies {
            let r = replacement_view(#[trigger] reps@[g]@[j]);
            &&& all[r.0 as int] == (g, candidate_view(files@[g]@[j]))
            &&& r.1 == files@[g]@[j].entry.entry_view().0
            &&& r.2 == files@[g]@[j].entry.entry_view().1
        } by {
            if g < f {
                assert(reps@[g] == reps_before[g]);
            }
        }
        f = f + 1;
    }
    proof {
        assert(per_file.take(files.len() as int) =~= per_file);
        assert(first_missing_model(all, ms, models.models@, units.len() as int) is None);
    }
    Ok((units, reps))
}

// ---------------------------------------------------------------------------
// Laws
// ---------------------------------------------------------------------------

/// A unit's prompt text is the text loaded under its strategy's own prompt
/// file (the first entry of that name); entries of other names never
/// matter, and with no entry of that name the prompt text is empty.
pub proof fn lemma_unit_prompt_text(
    u: TranslationUnit,
    n: int,
    s: StrategyView,
    profile: ModelProfile,
    prompts: Seq<(String, String)>,
    terms: Seq<(String, TerminologyDictionary)>,
    text: Seq<char>,
)
    requires
        unit_matches(u, n, s, profile, prompts, terms, text),
    ensures
        forall|j: int|
            0 <= j < prompts.len() && prompts[j].0@ == s.prompt_file && (forall|i: int|
                0 <= i < j ==> prompts[i].0@ != s.prompt_file) ==> u.runtime.prompt_text@
                == (#[trigger] prompts[j]).1@,
        (forall|i: int| 0 <= i < prompts.len() ==> prompts[i].0@ != s.prompt_file)
            ==> u.runtime.prompt_text@ == Seq::<char>::empty(),
{
    assert forall|j: int|
        0 <= j < prompts.len() && prompts[j].0@ == s.prompt_file && (forall|i: int|
            0 <= i < j ==> prompts[i].0@ != s.prompt_file) implies u.runtime.prompt_text@
        == (#[trigger] prompts[j]).1@ by {
        lemma_prompt_lookup_first(prompts, s.prompt_file, j);
    }
    if forall|i: int| 0 <= i < prompts.len() ==> prompts[i].0@ != s.prompt_file {
        lemma_prompt_lookup_absent(prompts, s.prompt_file);
    }
}

proof fn lemma_prompt_lookup_first(prompts: Seq<(String, String)>, name: Seq<char>, j: int)
    requires
        0 <= j < prompts.len(),
        prompts[j].0@ == name,
        forall|i: int| 0 <= i < j ==> prompts[i].0@ != name,
    ensures
        prompt_lookup(prompts, name) == Some(prompts[j].1@),
    decreases j,
{
    if j > 0 {
        let rest = prompts.drop_first();
        assert(prompts[0].0@ != name);
        assert forall|i: int| 0 <= i < j - 1 implies rest[i].0@ != name by {
            assert(rest[i] == prompts[i + 1]);
        }
        lemma_prompt_lookup_first(rest, name, j - 1);
        assert(rest[j - 1] == prompts[j]);
    }
}

proof fn lemma_prompt_lookup_absent(prompts: Seq<(String, String)>, name: Seq<char>)
    requires
        forall|i: int| 0 <= i < prompts.len() ==> prompts[i].0@ != name,
    ensures
        prompt_lookup(prompts, name) is None,
    decreases prompts.len(),
{
    if prompts.len() > 0 {
        let rest = prompts.drop_first();
        assert forall|i: int| 0 <= i < rest.len() implies rest[i].0@ != name by {
            assert(rest[i] == prompts[i + 1]);
        }
        lemma_prompt_lookup_absent(rest, name);
    }
}

proof fn lemma_terminology_lookup_first(
    terms: Seq<(String, TerminologyDictionary)>,
    name: Seq<char>,
    j: int,
)
    requires
        0 <= j < terms.len(),
        terms[j].0@ == name,
        forall|i: int| 0 <= i < j ==> terms[i].0@ != name,
    ensures
        terminology_lookup(terms, name) == Some(terms[j].1),
    decreases j,
{
    if j > 0 {
        let rest = terms.drop_first();
        assert(terms[0].0@ != name);
        assert forall|i: int| 0 <= i < j - 1 implies rest[i].0@ != name by {
            assert(rest[i] == terms[i + 1]);
        }
        lemma_terminology_lookup_first(rest, name, j - 1);
        assert(rest[j - 1] == terms[j]);
    }
}

/// A unit's text is the found text with the dictionary loaded under its
/// strategy's own terminology file (the first entry of that name) applied;
/// other dictionaries never matter.
pub proof fn lemma_unit_terminology(
    u: TranslationUnit,
    n: int,
    s: StrategyView,
    profile: ModelProfile,
    prompts: Seq<(String, String)>,
    terms: Seq<(String, TerminologyDictionary)>,
    text: Seq<char>,
    j: int,
)
    requires
        unit_matches(u, n, s, profile, prompts, terms, text),
        s.terminology_file == Some(terms[j].0@),
        0 <= j < terms.len(),
        forall|i: int| 0 <= i < j ==> terms[i].0@ != terms[j].0@,
    ensures
        u.prepared_text@ == apply_terminology_spec(text, terms_view(terms[j].1.terminology@)),
{
    lemma_terminology_lookup_first(terms, terms[j].0@, j);
}

} // verus!
