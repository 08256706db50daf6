//! Choosing the strategies that apply to a file, and checking that the
//! strategies refer to models, prompts and terminology that exist.
use vstd::prelude::*;

use crate::error::{plain_error, UserFacingError};
use crate::models::{
    copy_fields, model_lookup, strategies_view, ModelProfile, ModelsConfig, RuleView,
    StrategyView, TranslationStrategy,
};
use crate::paths::{file_name, file_name_component};
use crate::sorting::{
    lemma_insert_sorted_at, lemma_stable_sort_permutes, lemma_stable_sort_sorted, stable_sort,
};
use crate::text::{concat, str_eq};

verus! {

// ---------------------------------------------------------------------------
// Wildcards
// ---------------------------------------------------------------------------

/// Wildcard matching on bytes: `*` matches any run of bytes, `?` exactly
/// one byte, every other byte itself.
pub open spec fn wildcard(p: Seq<u8>, t: Seq<u8>) -> bool
    decreases p.len(), t.len(),
{
    if p.len() == 0 {
        t.len() == 0
    } else if p[0] == 42u8 {
        wildcard(p.drop_first(), t) || (t.len() > 0 && wildcard(p, t.drop_first()))
    } else if p[0] == 63u8 {
        t.len() > 0 && wildcard(p.drop_first(), t.drop_first())
    } else {
        t.len() > 0 && p[0] == t[0] && wildcard(p.drop_first(), t.drop_first())
    }
}

/// A text matches a wildcard pattern, both taken as UTF-8 bytes.
pub open spec fn wildcard_matches_spec(pattern: Seq<char>, text: Seq<char>) -> bool {
    wildcard(vstd::utf8::encode_utf8(pattern), vstd::utf8::encode_utf8(text))
}

fn wildcard_from(p: &[u8], i: usize, t: &[u8], j: usize) -> (res: bool)
    requires
        i <= p@.len(),
        j <= t@.len(),
    ensures
        res == wildcard(p@.skip(i as int), t@.skip(j as int)),
    decreases p@.len() - i, t@.len() - j,
{
    let ghost ps = p@.skip(i as int);
    let ghost ts = t@.skip(j as int);
    if i == p.len() {
        return j == t.len();
    }
    assert(ps[0] == p@[i as int]);
    assert(ps.drop_first() == p@.skip(i + 1));
    if j < t.len() {
        assert(ts[0] == t@[j as int]);
        assert(ts.drop_first() == t@.skip(j + 1));
    }
    let c = p[i];
    if c == 42u8 {
        if wildcard_from(p, i + 1, t, j) {
            return true;
        }
        j < t.len() && wildcard_from(p, i, t, j + 1)
    } else if c == 63u8 {
        j < t.len() && wildcard_from(p, i + 1, t, j + 1)
    } else {
        j < t.len() && c == t[j] && wildcard_from(p, i + 1, t, j + 1)
    }
}

/// Whether `text` matches the wildcard `pattern`.
pub fn wildcard_matches(pattern: &str, text: &str) -> (res: bool)
    ensures
        res == wildcard_matches_spec(pattern@, text@),
{
    let p = pattern.as_bytes();
    let t = text.as_bytes();
    assert(p@.skip(0) == p@);
    assert(t@.skip(0) == t@);
    wildcard_from(p, 0, t, 0)
}

// ---------------------------------------------------------------------------
// Ordering by priority
// ---------------------------------------------------------------------------

/// Strategies ordered by priority.
pub open spec fn by_priority() -> spec_fn(StrategyView, StrategyView) -> bool {
    |a: StrategyView, b: StrategyView| a.priority <= b.priority
}

/// The strategies in ascending order of priority; strategies of equal
/// priority keep their order (a stable sort).
pub open spec fn sort_by_priority(s: Seq<StrategyView>) -> Seq<StrategyView> {
    stable_sort(s, by_priority())
}

/// Sorts strategies by ascending priority, keeping the order of strategies
/// with equal priority.
pub fn sort_strategies_by_priority(v: &Vec<TranslationStrategy>) -> (res: Vec<TranslationStrategy>)
    ensures
        strategies_view(res@) == sort_by_priority(strategies_view(v@)),
{
    let mut res: Vec<TranslationStrategy> = Vec::new();
    let mut i: usize = v.len();
    assert(strategies_view(v@).skip(v.len() as int) =~= Seq::<StrategyView>::empty());
    while i > 0
        invariant
            i <= v.len(),
            strategies_view(res@) == sort_by_priority(strategies_view(v@).skip(i as int)),
        decreases i,
    {
        let x = v[i - 1].duplicate();
        let ghost xs = strategies_view(v@).skip(i - 1);
        assert(xs[0] == x@);
        assert(xs.drop_first() =~= strategies_view(v@).skip(i as int));
        let mut k: usize = 0;
        while k < res.len() && x.priority > res[k].priority
            invariant
                k <= res.len(),
                forall|m: int|
                    0 <= m < k ==> !(by_priority())(x@, #[trigger] strategies_view(res@)[m]),
            decreases res.len() - k,
        {
            k = k + 1;
        }
        proof {
            lemma_insert_sorted_at(x@, strategies_view(res@), by_priority(), k as int);
        }
        let ghost before = res@;
        res.insert(k, x);
        assert(strategies_view(res@) =~= strategies_view(before).take(k as int) + seq![
            v@[i - 1]@,
        ] + strategies_view(before).skip(k as int));
        i = i - 1;
    }
    assert(strategies_view(v@).skip(0) =~= strategies_view(v@));
    res
}

/// Sorting by priority keeps exactly the given strategies and puts them in
/// ascending order of priority.
pub proof fn lemma_sort_by_priority_orders(s: Seq<StrategyView>)
    ensures
        sort_by_priority(s).to_multiset() == s.to_multiset(),
        forall|i: int, j: int|
            0 <= i < j < sort_by_priority(s).len() ==> #[trigger] sort_by_priority(s)[i].priority
                <= #[trigger] sort_by_priority(s)[j].priority,
{
    lemma_stable_sort_permutes(s, by_priority());
    lemma_stable_sort_sorted(s, by_priority());
    assert forall|i: int, j: int|
        0 <= i < j < sort_by_priority(s).len() implies #[trigger] sort_by_priority(s)[i].priority
        <= #[trigger] sort_by_priority(s)[j].priority by {
        assert((by_priority())(sort_by_priority(s)[i], sort_by_priority(s)[j]));
    }
}

// ---------------------------------------------------------------------------
// Matching
// ---------------------------------------------------------------------------

/// Index of the first rule, from `k` on, whose pattern matches the relative
/// path or the file name.
pub open spec fn first_matching_rule(rules: Seq<RuleView>, rel: Seq<char>, name: Seq<char>, k: int) -> Option<int>
    decreases rules.len() - k,
{
    if k < 0 || k >= rules.len() {
        None
    } else if wildcard_matches_spec(rules[k].pattern, rel) || wildcard_matches_spec(
        rules[k].pattern,
        name,
    ) {
        Some(k)
    } else {
        first_matching_rule(rules, rel, name, k + 1)
    }
}

/// A matched strategy takes the fields of its matching rule when it names
/// no fields itself.
pub open spec fn with_rule_fields(s: StrategyView, r: RuleView) -> StrategyView {
    if s.extract_fields is None {
        StrategyView { extract_fields: r.extract_fields, ..s }
    } else {
        s
    }
}

/// The strategies, in the given order, that have a rule matching the file,
/// each completed with the fields of its first matching rule.
pub open spec fn matched_strategies(s: Seq<StrategyView>, rel: Seq<char>, name: Seq<char>) -> Seq<
    StrategyView,
>
    decreases s.len(),
{
    if s.len() == 0 {
        seq![]
    } else {
        let last = s.last();
        let before = matched_strategies(s.drop_last(), rel, name);
        match first_matching_rule(last.file_patterns, rel, name, 0) {
            Some(k) => before.push(with_rule_fields(last, last.file_patterns[k])),
            None => before,
        }
    }
}

/// The first strategy named `default`, if any.
pub open spec fn first_default(s: Seq<StrategyView>) -> Option<StrategyView>
    decreases s.len(),
{
    if s.len() == 0 {
        None
    } else if s[0].name == "default"@ {
        Some(s[0])
    } else {
        first_default(s.drop_first())
    }
}

/// The strategies that apply to a file: those with a rule matching the
/// file's relative path or file name, by ascending priority; when none
/// does, the strategy named `default` alone (if there is one).
pub open spec fn matching_spec(s: Seq<StrategyView>, rel: Seq<char>, name: Seq<char>) -> Seq<
    StrategyView,
> {
    let m = matched_strategies(sort_by_priority(s), rel, name);
    if m.len() == 0 {
        match first_default(s) {
            Some(d) => seq![d],
            None => seq![],
        }
    } else {
        m
    }
}

/// The name that matching uses for a file: its file name, or the whole
/// relative path when it has none.
pub open spec fn name_or_path(name: Option<Seq<char>>, rel: Seq<char>) -> Seq<char> {
    match name {
        Some(n) => n,
        None => rel,
    }
}

fn first_rule_index(s: &TranslationStrategy, rel_path: &str, name: &str) -> (res: Option<usize>)
    ensures
        match res {
            Some(k) => k < s.file_patterns.len() && first_matching_rule(
                s@.file_patterns,
                rel_path@,
                name@,
                0,
            ) == Some(k as int),
            None => first_matching_rule(s@.file_patterns, rel_path@, name@, 0) is None,
        },
{
    let mut k: usize = 0;
    while k < s.file_patterns.len()
        invariant
            k <= s.file_patterns.len(),
            first_matching_rule(s@.file_patterns, rel_path@, name@, 0) == first_matching_rule(
                s@.file_patterns,
                rel_path@,
                name@,
                k as int,
            ),
        decreases s.file_patterns.len() - k,
    {
        let pattern = s.file_patterns[k].pattern.as_str();
        assert(s@.file_patterns[k as int].pattern == s.file_patterns@[k as int].pattern@);
        if wildcard_matches(pattern, rel_path) || wildcard_matches(pattern, name) {
            return Some(k);
        }
        k = k + 1;
    }
    None
}

/// The strategies that apply to the file at `rel_path` whose file name is
/// `file_name` (see `matching_spec`).
pub fn matching_strategies_for_name(
    strategies: &Vec<TranslationStrategy>,
    rel_path: &str,
    file_name: &str,
) -> (res: Vec<TranslationStrategy>)
    ensures
        strategies_view(res@) == matching_spec(strategies_view(strategies@), rel_path@, file_name@),
{
    let sorted = sort_strategies_by_priority(strategies);
    let mut matched: Vec<TranslationStrategy> = Vec::new();
    let mut i: usize = 0;
    while i < sorted.len()
        invariant
            i <= sorted.len(),
            strategies_view(sorted@) == sort_by_priority(strategies_view(strategies@)),
            strategies_view(matched@) == matched_strategies(
                strategies_view(sorted@).take(i as int),
                rel_path@,
                file_name@,
            ),
        decreases sorted.len() - i,
    {
        let ghost prefix = strategies_view(sorted@).take(i + 1);
        assert(prefix.drop_last() =~= strategies_view(sorted@).take(i as int));
        assert(prefix.last() == sorted@[i as int]@);
        let s = &sorted[i];
        match first_rule_index(s, rel_path, file_name) {
            Some(k) => {
                let mut chosen = s.duplicate();
                if s.extract_fields.is_none() {
                    chosen.extract_fields = copy_fields(&s.file_patterns[k].extract_fields);
                    assert(chosen@ == with_rule_fields(s@, s@.file_patterns[k as int]));
                }
                let ghost before = matched@;
                matched.push(chosen);
                assert(strategies_view(matched@) =~= strategies_view(before).push(
                    with_rule_fields(s@, s@.file_patterns[k as int]),
                ));
            },
            None => {},
        }
        i = i + 1;
    }
    assert(strategies_view(sorted@).take(sorted.len() as int) =~= strategies_view(sorted@));
    if matched.len() == 0 {
        let mut j: usize = 0;
        assert(strategies_view(strategies@).skip(0) =~= strategies_view(strategies@));
        while j < strategies.len()
            invariant
                j <= strategies.len(),
                matched_strategies(
                    sort_by_priority(strategies_view(strategies@)),
                    rel_path@,
                    file_name@,
                ).len() == 0,
                first_default(strategies_view(strategies@)) == first_default(
                    strategies_view(strategies@).skip(j as int),
                ),
            decreases strategies.len() - j,
        {
            let ghost rest = strategies_view(strategies@).skip(j as int);
            assert(rest[0] == strategies@[j as int]@);
            assert(rest.drop_first() =~= strategies_view(strategies@).skip(j + 1));
            if str_eq(strategies[j].name.as_str(), "default") {
                let d = strategies[j].duplicate();
                let mut out: Vec<TranslationStrategy> = Vec::new();
                out.push(d);
                assert(strategies_view(out@) =~= seq![strategies@[j as int]@]);
                return out;
            }
            j = j + 1;
        }
        assert(strategies_view(strategies@).skip(strategies.len() as int) =~= Seq::<
            StrategyView,
        >::empty());
    }
    matched
}

/// The strategies that apply to the file at `rel_path` (see
/// `matching_spec`); the file name is the path's last component, or the
/// whole path when it has none.
pub fn matching_strategies(strategies: &Vec<TranslationStrategy>, rel_path: &str) -> (res: Vec<
    TranslationStrategy,
>)
    ensures
        strategies_view(res@) == matching_spec(
            strategies_view(strategies@),
            rel_path@,
            name_or_path(file_name_component(rel_path@), rel_path@),
        ),
{
    match file_name(rel_path) {
        Some(name) => matching_strategies_for_name(strategies, rel_path, name.as_str()),
        None => matching_strategies_for_name(strategies, rel_path, rel_path),
    }
}

/// The fields to extract for a matched strategy: its own, or else those of
/// the first of its rules that names fields.
pub open spec fn strategy_fields(s: StrategyView) -> Option<Seq<Seq<char>>> {
    if s.extract_fields is Some {
        s.extract_fields
    } else {
        first_rule_fields(s.file_patterns, 0)
    }
}

/// The fields of the first rule, from `k` on, that names fields.
pub open spec fn first_rule_fields(rules: Seq<RuleView>, k: int) -> Option<Seq<Seq<char>>>
    decreases rules.len() - k,
{
    if k < 0 || k >= rules.len() {
        None
    } else if rules[k].extract_fields is Some {
        rules[k].extract_fields
    } else {
        first_rule_fields(rules, k + 1)
    }
}

/// The fields to extract for a matched strategy (see `strategy_fields`).
pub fn fields_for_strategy(s: &TranslationStrategy) -> (res: Option<Vec<String>>)
    ensures
        crate::json::fields_view(res) == strategy_fields(s@),
{
    if s.extract_fields.is_some() {
        return copy_fields(&s.extract_fields);
    }
    let mut k: usize = 0;
    while k < s.file_patterns.len()
        invariant
            k <= s.file_patterns.len(),
            s.extract_fields is None,
            strategy_fields(s@) == first_rule_fields(s@.file_patterns, k as int),
        decreases s.file_patterns.len() - k,
    {
        assert(s@.file_patterns[k as int] == s.file_patterns@[k as int]@);
        if s.file_patterns[k].extract_fields.is_some() {
            return copy_fields(&s.file_patterns[k].extract_fields);
        }
        k = k + 1;
    }
    None
}

// ---------------------------------------------------------------------------
// References
// ---------------------------------------------------------------------------

/// Which check a strategy fails first, if any: its model must exist, then
/// its prompt file, then its terminology file (when it names one).
pub enum ReferenceProblem {
    MissingModel,
    MissingPrompt,
    MissingTerminology,
}

/// The first check that strategy `s` fails, given whether its prompt and
/// its terminology file were found.
pub open spec fn strategy_problem(
    s: StrategyView,
    models: Seq<(String, ModelProfile)>,
    prompt_found: bool,
    terminology_found: bool,
) -> Option<ReferenceProblem> {
    if model_lookup(models, s.model) is None {
        Some(ReferenceProblem::MissingModel)
    } else if !prompt_found {
        Some(ReferenceProblem::MissingPrompt)
    } else if s.terminology_file is Some && !terminology_found {
        Some(ReferenceProblem::MissingTerminology)
    } else {
        None
    }
}

/// Index of the first strategy, from `i` on, that fails a check.
pub open spec fn first_problem(
    s: Seq<StrategyView>,
    models: Seq<(String, ModelProfile)>,
    found: Seq<(bool, bool)>,
    i: int,
) -> Option<int>
    decreases s.len() - i,
{
    if i < 0 || i >= s.len() {
        None
    } else if strategy_problem(s[i], models, found[i].0, found[i].1) is Some {
        Some(i)
    } else {
        first_problem(s, models, found, i + 1)
    }
}

/// The error reported for a strategy's failed check.
pub open spec fn problem_error(e: UserFacingError, s: StrategyView, p: ReferenceProblem) -> bool {
    match p {
        ReferenceProblem::MissingModel => e.is(
            "Invalid Strategy Reference"@,
            "Strategy '"@ + s.name + "' references missing model '"@ + s.model + "'."@,
            None,
        ),
        ReferenceProblem::MissingPrompt => e.is(
            "Missing Prompt"@,
            "Strategy '"@ + s.name + "' references missing prompt '"@ + s.prompt_file + "'."@,
            None,
        ),
        ReferenceProblem::MissingTerminology => e.is(
            "Missing Terminology"@,
            "Strategy '"@ + s.name + "' references missing terminology '"@
                + s.terminology_file->0 + "'."@,
            None,
        ),
    }
}

/// Finds the model slot named `name`.
pub fn find_model<'a>(models: &'a ModelsConfig, name: &str) -> (res: Option<&'a ModelProfile>)
    ensures
        match res {
            Some(p) => model_lookup(models.models@, name@) == Some(*p),
            None => model_lookup(models.models@, name@) is None,
        },
{
    let mut i: usize = 0;
    assert(models.models@.skip(0) =~= models.models@);
    while i < models.models.len()
        invariant
            i <= models.models.len(),
            model_lookup(models.models@, name@) == model_lookup(
                models.models@.skip(i as int),
                name@,
            ),
        decreases models.models.len() - i,
    {
        let ghost rest = models.models@.skip(i as int);
        assert(rest[0] == models.models@[i as int]);
        assert(rest.drop_first() =~= models.models@.skip(i + 1));
        if str_eq(models.models[i].0.as_str(), name) {
            return Some(&models.models[i].1);
        }
        i = i + 1;
    }
    None
}

fn message3(a: &str, b: &str, c: &str, d: &str, e: &str) -> (res: String)
    ensures
        res@ == a@ + b@ + c@ + d@ + e@,
{
    let x = concat(a, b);
    let y = concat(x.as_str(), c);
    let z = concat(y.as_str(), d);
    concat(z.as_str(), e)
}

/// Checks every strategy in order; `found[i]` tells whether the prompt of
/// strategy `i` and its terminology file (when it names one) exist. The
/// error names the first strategy that fails and what it lacks.
pub fn validate_references(
    strategies: &Vec<TranslationStrategy>,
    models: &ModelsConfig,
    found: &Vec<(bool, bool)>,
) -> (res: Result<(), UserFacingError>)
    requires
        found.len() == strategies.len(),
    ensures
        match first_problem(strategies_view(strategies@), models.models@, found@, 0) {
            None => res is Ok,
            Some(i) => res matches Err(e) && problem_error(
                e,
                strategies@[i]@,
                strategy_problem(
                    strategies@[i]@,
                    models.models@,
                    found@[i].0,
                    found@[i].1,
                )->0,
            ),
        },
{
    let ghost sv = strategies_view(strategies@);
    let mut i: usize = 0;
    while i < strategies.len()
        invariant
            i <= strategies.len() == found.len(),
            sv == strategies_view(strategies@),
            first_problem(sv, models.models@, found@, 0) == first_problem(
                sv,
                models.models@,
                found@,
                i as int,
            ),
        decreases strategies.len() - i,
    {
        let s = &strategies[i];
        assert(sv[i as int] == s@);
        if find_model(models, s.model.as_str()).is_none() {
            return Err(
                plain_error(
                    "Invalid Strategy Reference",
                    message3(
                        "Strategy '",
                        s.name.as_str(),
                        "' references missing model '",
                        s.model.as_str(),
                        "'.",
                    ).as_str(),
                ),
            );
        }
        if !found[i].0 {
            return Err(
                plain_error(
                    "Missing Prompt",
                    message3(
                        "Strategy '",
                        s.name.as_str(),
                        "' references missing prompt '",
                        s.prompt_file.as_str(),
                        "'.",
                    ).as_str(),
                ),
            );
        }
        match &s.terminology_file {
            Some(t) => {
                if !found[i].1 {
                    return Err(
                        plain_error(
                            "Missing Terminology",
                            message3(
                                "Strategy '",
                                s.name.as_str(),
                                "' references missing terminology '",
                                t.as_str(),
                                "'.",
                            ).as_str(),
                        ),
                    );
                }
            },
            None => {},
        }
        i = i + 1;
    }
    Ok(())
}

// ---------------------------------------------------------------------------
// Laws of matching
// ---------------------------------------------------------------------------

/// A rule applies to a file when its pattern matches the file's relative
/// path or its file name.
pub open spec fn rule_applies(r: RuleView, rel: Seq<char>, name: Seq<char>) -> bool {
    wildcard_matches_spec(r.pattern, rel) || wildcard_matches_spec(r.pattern, name)
}

/// Some rule of the strategy applies to the file.
pub open spec fn strategy_applies(s: StrategyView, rel: Seq<char>, name: Seq<char>) -> bool {
    exists|k: int| 0 <= k < s.file_patterns.len() && rule_applies(#[trigger] s.file_patterns[k], rel, name)
}

/// `x` is strategy `s` as chosen for the file: everything but the fields
/// is `s`'s own, and the fields are `s`'s own when it names any, else
/// those of the first of its rules that applies to the file.
pub open spec fn chosen_from(x: StrategyView, s: StrategyView, rel: Seq<char>, name: Seq<char>) -> bool {
    &&& x.name == s.name
    &&& x.priority == s.priority
    &&& x.file_patterns == s.file_patterns
    &&& x.model == s.model
    &&& x.prompt_file == s.prompt_file
    &&& x.terminology_file == s.terminology_file
    &&& exists|k: int|
        0 <= k < s.file_patterns.len() && rule_applies(#[trigger] s.file_patterns[k], rel, name) && (
        forall|q: int| 0 <= q < k ==> !rule_applies(#[trigger] s.file_patterns[q], rel, name)) && x.extract_fields
            == if s.extract_fields is None {
            s.file_patterns[k].extract_fields
        } else {
            s.extract_fields
        }
}

proof fn lemma_first_matching_rule_props(rules: Seq<RuleView>, rel: Seq<char>, name: Seq<char>, k0: int)
    requires
        0 <= k0,
    ensures
        match first_matching_rule(rules, rel, name, k0) {
            Some(k) => k0 <= k < rules.len() && rule_applies(rules[k], rel, name) && forall|q: int|
                k0 <= q < k ==> !rule_applies(#[trigger] rules[q], rel, name),
            None => forall|q: int| k0 <= q < rules.len() ==> !rule_applies(#[trigger] rules[q], rel, name),
        },
    decreases rules.len() - k0,
{
    if k0 < rules.len() && !rule_applies(rules[k0], rel, name) {
        lemma_first_matching_rule_props(rules, rel, name, k0 + 1);
    }
}

/// The strategies matched in a list are exactly those that apply to the
/// file, each chosen as `chosen_from` says, in the list's order.
pub proof fn lemma_matched_strategies_chosen(s: Seq<StrategyView>, rel: Seq<char>, name: Seq<char>)
    ensures
        matched_strategies(s, rel, name).len() <= s.len(),
        forall|i: int|
            0 <= i < matched_strategies(s, rel, name).len() ==> exists|j: int|
                0 <= j < s.len() && chosen_from(
                    #[trigger] matched_strategies(s, rel, name)[i],
                    s[j],
                    rel,
                    name,
                ),
        forall|j: int|
            0 <= j < s.len() && strategy_applies(#[trigger] s[j], rel, name) ==> exists|i: int|
                0 <= i < matched_strategies(s, rel, name).len() && chosen_from(
                    matched_strategies(s, rel, name)[i],
                    s[j],
                    rel,
                    name,
                ),
    decreases s.len(),
{
    if s.len() > 0 {
        let pre = s.drop_last();
        let last = s.last();
        let before = matched_strategies(pre, rel, name);
        let m = matched_strategies(s, rel, name);
        lemma_matched_strategies_chosen(pre, rel, name);
        lemma_first_matching_rule_props(last.file_patterns, rel, name, 0);
        match first_matching_rule(last.file_patterns, rel, name, 0) {
            Some(k) => {
                let x = with_rule_fields(last, last.file_patterns[k]);
                assert(m == before.push(x));
                assert(chosen_from(x, last, rel, name)) by {
                    assert(rule_applies(last.file_patterns[k], rel, name));
                }
                assert forall|i: int| 0 <= i < m.len() implies exists|j: int|
                    0 <= j < s.len() && chosen_from(#[trigger] m[i], s[j], rel, name) by {
                    if i < before.len() {
                        let j = choose|j: int| 0 <= j < pre.len() && chosen_from(before[i], pre[j], rel, name);
                        assert(pre[j] == s[j]);
                        assert(m[i] == before[i]);
                    } else {
                        assert(s[s.len() - 1] == last);
                    }
                }
                assert forall|j: int| 0 <= j < s.len() && strategy_applies(#[trigger] s[j], rel, name) implies exists|i: int|
                    0 <= i < m.len() && chosen_from(m[i], s[j], rel, name) by {
                    if j < pre.len() {
                        assert(pre[j] == s[j]);
                        assert(strategy_applies(pre[j], rel, name));
                        let i = choose|i: int| 0 <= i < before.len() && chosen_from(before[i], pre[j], rel, name);
                        assert(m[i] == before[i]);
                    } else {
                        assert(m[m.len() - 1] == x);
                    }
                }
            },
            None => {
                assert(m == before);
                assert forall|i: int| 0 <= i < m.len() implies exists|j: int|
                    0 <= j < s.len() && chosen_from(#[trigger] m[i], s[j], rel, name) by {
                    let j = choose|j: int| 0 <= j < pre.len() && chosen_from(before[i], pre[j], rel, name);
                    assert(pre[j] == s[j]);
                }
                assert forall|j: int| 0 <= j < s.len() && strategy_applies(#[trigger] s[j], rel, name) implies exists|i: int|
                    0 <= i < m.len() && chosen_from(m[i], s[j], rel, name) by {
                    if j < pre.len() {
                        assert(pre[j] == s[j]);
                        assert(strategy_applies(pre[j], rel, name));
                    } else {
                        assert(s[j] == last);
                        let k = choose|k: int| 0 <= k < last.file_patterns.len() && rule_applies(
                            #[trigger] last.file_patterns[k],
                            rel,
                            name,
                        );
                        assert(!rule_applies(last.file_patterns[k], rel, name));
                    }
                }
            },
        }
    }
}

proof fn lemma_sorted_same_elements(s: Seq<StrategyView>)
    ensures
        forall|x: StrategyView| #[trigger] sort_by_priority(s).contains(x) <==> s.contains(x),
{
    broadcast use vstd::seq_lib::group_to_multiset_ensures;

    lemma_sort_by_priority_orders(s);
    assert forall|x: StrategyView| #[trigger] sort_by_priority(s).contains(x) <==> s.contains(x) by {
        assert(sort_by_priority(s).to_multiset().count(x) == s.to_multiset().count(x));
    }
}

/// Every strategy of `r` is a strategy of `s` chosen for the file as
/// `chosen_from` says.
#[verifier::opaque]
pub open spec fn all_chosen_from(r: Seq<StrategyView>, s: Seq<StrategyView>, rel: Seq<char>, name: Seq<char>) -> bool {
    forall|i: int| 0 <= i < r.len() ==> #[trigger] chosen_somewhere(r[i], s, rel, name)
}

/// `x` is some strategy of `s` chosen for the file (see `chosen_from`).
pub open spec fn chosen_somewhere(x: StrategyView, s: Seq<StrategyView>, rel: Seq<char>, name: Seq<char>) -> bool {
    exists|j: int| 0 <= j < s.len() && chosen_from(x, #[trigger] s[j], rel, name)
}

/// Every strategy of `s` that applies to the file is chosen in `r`.
#[verifier::opaque]
pub open spec fn all_applying_chosen(r: Seq<StrategyView>, s: Seq<StrategyView>, rel: Seq<char>, name: Seq<char>) -> bool {
    forall|j: int|
        0 <= j < s.len() && strategy_applies(#[trigger] s[j], rel, name) ==> exists|i: int|
            #![trigger r[i]]
            0 <= i < r.len() && chosen_from(r[i], s[j], rel, name)
}

proof fn lemma_matched_from_list(
    sorted: Seq<StrategyView>,
    s: Seq<StrategyView>,
    rel: Seq<char>,
    name: Seq<char>,
)
    requires
        forall|x: StrategyView| #[trigger] sorted.contains(x) <==> s.contains(x),
    ensures
        all_chosen_from(matched_strategies(sorted, rel, name), s, rel, name),
        all_applying_chosen(matched_strategies(sorted, rel, name), s, rel, name),
{
    reveal(all_chosen_from);
    reveal(all_applying_chosen);
    lemma_matched_strategies_chosen(sorted, rel, name);
    let m = matched_strategies(sorted, rel, name);
    assert forall|i: int| 0 <= i < m.len() implies #[trigger] chosen_somewhere(m[i], s, rel, name) by {
        let q = choose|q: int| 0 <= q < sorted.len() && chosen_from(m[i], sorted[q], rel, name);
        assert(sorted.contains(sorted[q]));
        assert(s.contains(sorted[q]));
        let j = choose|j: int| 0 <= j < s.len() && s[j] == sorted[q];
        assert(chosen_from(m[i], s[j], rel, name));
    }
    assert forall|j: int| 0 <= j < s.len() && strategy_applies(#[trigger] s[j], rel, name) implies exists|i: int|
        #![trigger m[i]]
        0 <= i < m.len() && chosen_from(m[i], s[j], rel, name) by {
        assert(s.contains(s[j]));
        assert(sorted.contains(s[j]));
        let q = choose|q: int| 0 <= q < sorted.len() && sorted[q] == s[j];
        assert(strategy_applies(sorted[q], rel, name));
        let i = choose|i: int| 0 <= i < m.len() && chosen_from(m[i], sorted[q], rel, name);
        assert(chosen_from(m[i], s[j], rel, name));
    }
}

proof fn lemma_chosen_applies(x: StrategyView, t: StrategyView, rel: Seq<char>, name: Seq<char>)
    requires
        chosen_from(x, t, rel, name),
    ensures
        strategy_applies(t, rel, name),
{
}

/// The strategies chosen for a file: when some strategy applies, every
/// chosen one is a strategy of the list chosen as `chosen_from` says, and
/// every strategy that applies is among them; when none applies, only the
/// first strategy named `default` is chosen, unchanged (or none).
pub proof fn lemma_matching_spec_chosen(s: Seq<StrategyView>, rel: Seq<char>, name: Seq<char>)
    ensures
        (exists|j: int| 0 <= j < s.len() && strategy_applies(#[trigger] s[j], rel, name)) ==> (
        all_chosen_from(matching_spec(s, rel, name), s, rel, name) && all_applying_chosen(
            matching_spec(s, rel, name),
            s,
            rel,
            name,
        )),
        (forall|j: int| 0 <= j < s.len() ==> !strategy_applies(#[trigger] s[j], rel, name))
            ==> matching_spec(s, rel, name) == match first_default(s) {
            Some(d) => seq![d],
            None => Seq::<StrategyView>::empty(),
        },
{
    let sorted = sort_by_priority(s);
    let m = matched_strategies(sorted, rel, name);
    lemma_sorted_same_elements(s);
    lemma_matched_from_list(sorted, s, rel, name);
    if exists|j: int| 0 <= j < s.len() && strategy_applies(#[trigger] s[j], rel, name) {
        let j0 = choose|j: int| 0 <= j < s.len() && strategy_applies(#[trigger] s[j], rel, name);
        assert(m.len() > 0) by {
            reveal(all_applying_chosen);
            assert(strategy_applies(s[j0], rel, name));
        }
        assert(matching_spec(s, rel, name) == m);
    }
    if forall|j: int| 0 <= j < s.len() ==> !strategy_applies(#[trigger] s[j], rel, name) {
        assert(m.len() == 0) by {
            if m.len() > 0 {
                reveal(all_chosen_from);
                assert(chosen_somewhere(m[0], s, rel, name));
                let j = choose|j: int| 0 <= j < s.len() && chosen_from(m[0], s[j], rel, name);
                lemma_chosen_applies(m[0], s[j], rel, name);
            }
        }
    }
}

} // verus!
