//! The decisions a translation run makes between its outside steps: how many
//! batches are in flight at once, what the run logs, and how the
//! translations are written back into each file.
use vstd::prelude::*;

use crate::batching::{total_size, unit_size, TranslationUnit};
use crate::deltas::{data_list, with_data_list};
use crate::error::UserFacingError;
use crate::json::{
    find_member, set_text_in_list, update_list, update_list_failure, values_view, JsonValue,
    JsonView, PathStep,
};
use crate::response::{found_lookup, found_view, lookup_found};
use crate::models::{TaskSummary, TranslationStrategy};
use crate::paths::{
    eq_ignore_ascii_case, eq_ignore_ascii_case_seq, extension, extension_seq, file_name,
    file_name_component, strip_path_prefix, strip_prefix_components,
};
use crate::text::{concat, decimal, decimal_seq, owned, replace_char, replace_char_seq, str_eq, views};
use crate::units::{replacement_view, replacements_view, PendingReplacement};

verus! {

/// The most batches sent at the same time, whatever was asked for.
pub const EXTREME_CONCURRENCY_CAP: usize = 32768;

/// Runs with at most this many batches log every batch.
pub const VERBOSE_BATCH_LOG_LIMIT: usize = 512;

/// Larger runs log once per this many batches.
pub const PROGRESS_LOG_INTERVAL: usize = 1000;

// ---------------------------------------------------------------------------
// Concurrency and logging
// ---------------------------------------------------------------------------

/// How a run sends its batches.
#[derive(Debug, Clone, Copy, PartialEq, Eq)]
pub struct ConcurrencyPlan {
    /// The number of workers asked for (at least one).
    pub requested_workers: usize,
    /// The number of batches in flight at once.
    pub concurrency: usize,
    /// Whether every batch is logged.
    pub verbose_batch_logs: bool,
}

/// The smaller of two numbers.
pub open spec fn min_of(a: int, b: int) -> int {
    if a <= b {
        a
    } else {
        b
    }
}

/// The plan for `batch_count` batches when `max_workers` were asked for:
/// at least one worker; no more than the cap and no more than there are
/// batches (but at least one) in flight; every batch logged when there are
/// few.
pub fn plan_concurrency(max_workers: usize, batch_count: usize) -> (res: ConcurrencyPlan)
    ensures
        res.requested_workers == if max_workers >= 1 {
            max_workers
        } else {
            1
        },
        res.concurrency == min_of(
            min_of(res.requested_workers as int, EXTREME_CONCURRENCY_CAP as int),
            if batch_count >= 1 {
                batch_count as int
            } else {
                1
            },
        ),
        res.verbose_batch_logs == (batch_count <= VERBOSE_BATCH_LOG_LIMIT),
        1 <= res.concurrency <= EXTREME_CONCURRENCY_CAP,
{
    let requested_workers = if max_workers >= 1 {
        max_workers
    } else {
        1
    };
    let capped = if requested_workers <= EXTREME_CONCURRENCY_CAP {
        requested_workers
    } else {
        EXTREME_CONCURRENCY_CAP
    };
    let available = if batch_count >= 1 {
        batch_count
    } else {
        1
    };
    let concurrency = if capped <= available {
        capped
    } else {
        available
    };
    ConcurrencyPlan {
        requested_workers,
        concurrency,
        verbose_batch_logs: batch_count <= VERBOSE_BATCH_LOG_LIMIT,
    }
}

/// Whether a run that does not log every batch reports its progress after
/// the batch at `batch_index` (counted from zero): after every
/// `PROGRESS_LOG_INTERVAL` batches.
pub fn should_report_progress(verbose_batch_logs: bool, batch_index: usize) -> (res: bool)
    ensures
        res == (!verbose_batch_logs && (batch_index + 1) % (PROGRESS_LOG_INTERVAL as int) == 0),
{
    !verbose_batch_logs && batch_index % PROGRESS_LOG_INTERVAL == PROGRESS_LOG_INTERVAL - 1
}

proof fn lemma_total_size_prefix(units: Seq<TranslationUnit>, i: int)
    requires
        0 <= i <= units.len(),
    ensures
        total_size(units.take(i)) <= total_size(units),
    decreases units.len(),
{
    if i < units.len() {
        assert(units.drop_last().take(i) =~= units.take(i));
        lemma_total_size_prefix(units.drop_last(), i);
    } else {
        assert(units.take(i) =~= units);
    }
}

/// The text still to be sent, in UTF-8 bytes; `None` when the total does
/// not fit in `usize`.
pub fn pending_chars(units: &Vec<TranslationUnit>) -> (res: Option<usize>)
    ensures
        match res {
            Some(n) => n == total_size(units@),
            None => total_size(units@) > usize::MAX,
        },
{
    let mut sum: usize = 0;
    let mut i: usize = 0;
    while i < units.len()
        invariant
            i <= units.len(),
            sum == total_size(units@.take(i as int)),
        decreases units.len() - i,
    {
        let size = units[i].prepared_text.as_str().as_bytes().len();
        assert(units@.take(i + 1).drop_last() =~= units@.take(i as int));
        assert(size == unit_size(units@[i as int]));
        match sum.checked_add(size) {
            Some(s) => {
                sum = s;
            },
            None => {
                proof {
                    lemma_total_size_prefix(units@, i + 1);
                }
                return None;
            },
        }
        i = i + 1;
    }
    assert(units@.take(units.len() as int) =~= units@);
    Some(sum)
}

// ---------------------------------------------------------------------------
// Files a run reads
// ---------------------------------------------------------------------------

/// The names in order of first appearance, each once.
pub open spec fn first_appearances(s: Seq<Seq<char>>) -> Seq<Seq<char>>
    decreases s.len(),
{
    if s.len() == 0 {
        seq![]
    } else {
        let k = first_appearances(s.drop_last());
        if k.contains(s.last()) {
            k
        } else {
            k.push(s.last())
        }
    }
}

/// The prompt file named by each strategy, in order.
pub open spec fn prompt_names(strategies: Seq<TranslationStrategy>) -> Seq<Seq<char>>
    decreases strategies.len(),
{
    if strategies.len() == 0 {
        seq![]
    } else {
        prompt_names(strategies.drop_last()).push(strategies.last().prompt_file@)
    }
}

/// The terminology files named by the strategies that name one, in order.
pub open spec fn terminology_names(strategies: Seq<TranslationStrategy>) -> Seq<Seq<char>>
    decreases strategies.len(),
{
    if strategies.len() == 0 {
        seq![]
    } else {
        let before = terminology_names(strategies.drop_last());
        match strategies.last().terminology_file {
            Some(t) => before.push(t@),
            None => before,
        }
    }
}

fn contains_name(names: &Vec<String>, name: &str) -> (res: bool)
    ensures
        res == views(names@).contains(name@),
{
    let mut i: usize = 0;
    while i < names.len()
        invariant
            i <= names.len(),
            forall|j: int| 0 <= j < i ==> names@[j]@ != name@,
        decreases names.len() - i,
    {
        if str_eq(names[i].as_str(), name) {
            assert(views(names@)[i as int] == name@);
            return true;
        }
        i = i + 1;
    }
    assert forall|j: int| 0 <= j < views(names@).len() implies views(names@)[j] != name@ by {
        assert(views(names@)[j] == names@[j]@);
    }
    false
}

fn distinct_names(names: &Vec<String>) -> (res: Vec<String>)
    ensures
        views(res@) == first_appearances(views(names@)),
{
    let ghost nv = views(names@);
    let mut res: Vec<String> = Vec::new();
    let mut i: usize = 0;
    while i < names.len()
        invariant
            i <= names.len(),
            nv == views(names@),
            views(res@) == first_appearances(nv.take(i as int)),
        decreases names.len() - i,
    {
        assert(nv.take(i + 1).drop_last() =~= nv.take(i as int));
        assert(nv.take(i + 1).last() == names@[i as int]@);
        if !contains_name(&res, names[i].as_str()) {
            let ghost before = res@;
            res.push(names[i].clone());
            assert(views(res@) =~= views(before).push(names@[i as int]@));
        }
        i = i + 1;
    }
    assert(nv.take(names.len() as int) =~= nv);
    res
}

/// The prompt files a run reads, each once, in the order the strategies
/// first name them.
pub fn prompt_files_to_load(strategies: &Vec<TranslationStrategy>) -> (res: Vec<String>)
    ensures
        views(res@) == first_appearances(prompt_names(strategies@)),
{
    let mut names: Vec<String> = Vec::new();
    let mut i: usize = 0;
    while i < strategies.len()
        invariant
            i <= strategies.len(),
            views(names@) == prompt_names(strategies@.take(i as int)),
        decreases strategies.len() - i,
    {
        assert(strategies@.take(i + 1).drop_last() =~= strategies@.take(i as int));
        let ghost before = names@;
        names.push(strategies[i].prompt_file.clone());
        assert(views(names@) =~= views(before).push(strategies@[i as int].prompt_file@));
        i = i + 1;
    }
    assert(strategies@.take(strategies.len() as int) =~= strategies@);
    distinct_names(&names)
}

/// The terminology files a run reads, each once, in the order the
/// strategies first name them.
pub fn terminology_files_to_load(strategies: &Vec<TranslationStrategy>) -> (res: Vec<String>)
    ensures
        views(res@) == first_appearances(terminology_names(strategies@)),
{
    let mut names: Vec<String> = Vec::new();
    let mut i: usize = 0;
    while i < strategies.len()
        invariant
            i <= strategies.len(),
            views(names@) == terminology_names(strategies@.take(i as int)),
        decreases strategies.len() - i,
    {
        assert(strategies@.take(i + 1).drop_last() =~= strategies@.take(i as int));
        match &strategies[i].terminology_file {
            Some(t) => {
                let ghost before = names@;
                names.push(t.clone());
                assert(views(names@) =~= views(before).push(t@));
            },
            None => {},
        }
        i = i + 1;
    }
    assert(strategies@.take(strategies.len() as int) =~= strategies@);
    distinct_names(&names)
}

/// A prompt file named by a strategy is not in the workspace.
pub fn missing_prompt_error(prompt_file: &str) -> (res: UserFacingError)
    ensures
        res.is(
            "Missing Prompt"@,
            "Strategy references missing prompt '"@ + prompt_file@ + "'."@,
            None,
        ),
{
    let m = concat("Strategy references missing prompt '", prompt_file);
    UserFacingError::new(owned("Missing Prompt"), concat(m.as_str(), "'."), None)
}

/// A terminology file named by a strategy is not in the workspace.
pub fn missing_terminology_error(terminology_file: &str) -> (res: UserFacingError)
    ensures
        res.is(
            "Missing Terminology"@,
            "Strategy references missing terminology '"@ + terminology_file@ + "'."@,
            None,
        ),
{
    let m = concat("Strategy references missing terminology '", terminology_file);
    UserFacingError::new(owned("Missing Terminology"), concat(m.as_str(), "'."), None)
}

/// A path names a JSON file: its final component has the extension
/// `json`, in any ASCII case.
pub open spec fn is_json_path(path: Seq<char>) -> bool {
    match file_name_component(path) {
        Some(n) => match extension_seq(n) {
            Some(x) => eq_ignore_ascii_case_seq(x, "json"@),
            None => false,
        },
        None => false,
    }
}

/// The key under which a file found while scanning `root` is known: its
/// path below `root` (the whole path when it is not below `root`) with
/// backslashes turned into slashes; `None` for a file that is not JSON.
pub fn scanned_file_key(root: &str, path: &str) -> (res: Option<String>)
    ensures
        match res {
            Some(k) => is_json_path(path@) && k@ == replace_char_seq(
                match strip_prefix_components(path@, root@) {
                    Some(rel) => rel,
                    None => path@,
                },
                '\\',
                '/',
            ),
            None => !is_json_path(path@),
        },
{
    let is_json = match file_name(path) {
        Some(n) => match extension(n.as_str()) {
            Some(x) => eq_ignore_ascii_case(x.as_str(), "json"),
            None => false,
        },
        None => false,
    };
    if !is_json {
        return None;
    }
    let rel = match strip_path_prefix(path, root) {
        Some(r) => r,
        None => owned(path),
    };
    Some(replace_char(rel.as_str(), '\\', '/'))
}

// ---------------------------------------------------------------------------
// Log messages
// ---------------------------------------------------------------------------

/// Reports how many files have new entries.
pub fn found_files_message(files: usize) -> (res: String)
    ensures
        res@ == "Found "@ + decimal_seq(files as nat) + " files with new entries."@,
{
    let n = decimal(files);
    let m = concat("Found ", n.as_str());
    concat(m.as_str(), " files with new entries.")
}

/// Reports what the run prepared and how it will send it.
pub fn prepared_message(
    units: usize,
    batches: usize,
    max_workers: usize,
    concurrency: usize,
    verbose_batch_logs: bool,
) -> (res: String)
    ensures
        res@ == "Prepared "@ + decimal_seq(units as nat) + " translation units across "@
            + decimal_seq(batches as nat) + " batch(es). Requested workers: "@ + decimal_seq(
            max_workers as nat,
        ) + "; active concurrent batches: "@ + decimal_seq(concurrency as nat) + "; log mode: "@
            + (if verbose_batch_logs {
            "verbose"@
        } else {
            "aggregated"@
        }) + "."@,
{
    let m = concat("Prepared ", decimal(units).as_str());
    let m = concat(m.as_str(), " translation units across ");
    let m = concat(m.as_str(), decimal(batches).as_str());
    let m = concat(m.as_str(), " batch(es). Requested workers: ");
    let m = concat(m.as_str(), decimal(max_workers).as_str());
    let m = concat(m.as_str(), "; active concurrent batches: ");
    let m = concat(m.as_str(), decimal(concurrency).as_str());
    let m = concat(m.as_str(), "; log mode: ");
    let m = concat(
        m.as_str(),
        if verbose_batch_logs {
            "verbose"
        } else {
            "aggregated"
        },
    );
    concat(m.as_str(), ".")
}

/// Warns that fewer batches run at once than workers were asked for.
pub fn capped_workers_message(requested_workers: usize, concurrency: usize) -> (res: String)
    ensures
        res@ == "Requested max_workers="@ + decimal_seq(requested_workers as nat)
            + " exceeds the Rust extreme cap or batch count. Running with "@ + decimal_seq(
            concurrency as nat,
        ) + " concurrent batches."@,
{
    let m = concat("Requested max_workers=", decimal(requested_workers).as_str());
    let m = concat(m.as_str(), " exceeds the Rust extreme cap or batch count. Running with ");
    let m = concat(m.as_str(), decimal(concurrency).as_str());
    concat(m.as_str(), " concurrent batches.")
}

/// Reports that a batch is being sent (batches are numbered from one).
pub fn dispatch_message(batch_index: usize, items: usize, model: &str) -> (res: String)
    requires
        batch_index < usize::MAX,
    ensures
        res@ == "Dispatching batch "@ + decimal_seq(batch_index as nat + 1) + " with "@
            + decimal_seq(items as nat) + " item(s) on model '"@ + model@ + "'."@,
{
    let m = concat("Dispatching batch ", decimal(batch_index + 1).as_str());
    let m = concat(m.as_str(), " with ");
    let m = concat(m.as_str(), decimal(items).as_str());
    let m = concat(m.as_str(), " item(s) on model '");
    let m = concat(m.as_str(), model);
    concat(m.as_str(), "'.")
}

/// Reports that a batch was translated.
pub fn batch_completed_message(batch_index: usize, attempts: usize) -> (res: String)
    requires
        batch_index < usize::MAX,
    ensures
        res@ == "Batch "@ + decimal_seq(batch_index as nat + 1) + " completed in "@ + decimal_seq(
            attempts as nat,
        ) + " attempt(s)."@,
{
    let m = concat("Batch ", decimal(batch_index + 1).as_str());
    let m = concat(m.as_str(), " completed in ");
    let m = concat(m.as_str(), decimal(attempts).as_str());
    concat(m.as_str(), " attempt(s).")
}

/// Warns that a batch keeps its source text because its requests failed.
pub fn batch_failed_message(batch_index: usize, error_message: &str) -> (res: String)
    requires
        batch_index < usize::MAX,
    ensures
        res@ == "Batch "@ + decimal_seq(batch_index as nat + 1)
            + " failed after retries. Falling back to source text. "@ + error_message@,
{
    let m = concat("Batch ", decimal(batch_index + 1).as_str());
    let m = concat(m.as_str(), " failed after retries. Falling back to source text. ");
    concat(m.as_str(), error_message)
}

/// Reports progress in a run that does not log every batch.
pub fn progress_message(batch_index: usize) -> (res: String)
    requires
        batch_index < usize::MAX,
    ensures
        res@ == "Processed at least "@ + decimal_seq(batch_index as nat + 1)
            + " batch dispatch slots under aggregated extreme logging."@,
{
    let m = concat("Processed at least ", decimal(batch_index + 1).as_str());
    concat(m.as_str(), " batch dispatch slots under aggregated extreme logging.")
}

/// Warns how many batches kept their source text.
pub fn fallback_batches_message(fallback_batches: usize) -> (res: String)
    ensures
        res@ == decimal_seq(fallback_batches as nat)
            + " batch(es) used source-text fallback because the provider failed or was cancelled."@,
{
    concat(
        decimal(fallback_batches).as_str(),
        " batch(es) used source-text fallback because the provider failed or was cancelled.",
    )
}

// ---------------------------------------------------------------------------
// Writing translations back
// ---------------------------------------------------------------------------

/// The text written for a pending replacement: the translation recorded for
/// its unit, or else its own source text.
pub open spec fn translated_text(
    r: (usize, Seq<PathStep>, Seq<char>),
    found: Seq<(usize, Seq<char>)>,
) -> Seq<char> {
    match found_lookup(found, r.0) {
        Some(t) => t,
        None => r.2,
    }
}

/// The list after the replacements, made in order, and the message of the
/// first one that could not be made (the list is then as it was before
/// that one).
pub open spec fn apply_all(
    list: Seq<JsonView>,
    reps: Seq<(usize, Seq<PathStep>, Seq<char>)>,
    found: Seq<(usize, Seq<char>)>,
) -> (Seq<JsonView>, Option<Seq<char>>)
    decreases reps.len(),
{
    if reps.len() == 0 {
        (list, None)
    } else {
        let before = apply_all(list, reps.drop_last(), found);
        match before.1 {
            Some(m) => before,
            None => {
                let r = reps.last();
                match update_list(before.0, r.1, JsonView::Str(translated_text(r, found))) {
                    Some(nl) => (nl, None),
                    None => (before.0, Some(update_list_failure(before.0, r.1))),
                }
            },
        }
    }
}

proof fn lemma_apply_all_stops(
    list: Seq<JsonView>,
    reps: Seq<(usize, Seq<PathStep>, Seq<char>)>,
    found: Seq<(usize, Seq<char>)>,
    j: int,
    k: int,
)
    requires
        0 <= j <= k <= reps.len(),
        apply_all(list, reps.take(j), found).1 is Some,
    ensures
        apply_all(list, reps.take(k), found) == apply_all(list, reps.take(j), found),
    decreases k - j,
{
    if k > j {
        lemma_apply_all_stops(list, reps, found, j, k - 1);
        assert(reps.take(k).drop_last() =~= reps.take(k - 1));
    }
}

/// Writes the translations of one file's pending replacements into its
/// entries, in order (see `apply_all`); stops at the first path that cannot
/// be written, with a "Path Error".
pub fn apply_replacements(
    list: &mut Vec<JsonValue>,
    replacements: &Vec<PendingReplacement>,
    translated: &Vec<(usize, String)>,
) -> (res: Result<(), UserFacingError>)
    ensures
        values_view(final(list)@) == apply_all(
            values_view(old(list)@),
            replacements_view(replacements@),
            found_view(translated@),
        ).0,
        match apply_all(
            values_view(old(list)@),
            replacements_view(replacements@),
            found_view(translated@),
        ).1 {
            None => res is Ok,
            Some(m) => res matches Err(e) && e.is("Path Error"@, m, None),
        },
{
    let ghost l0 = values_view(list@);
    let ghost rv = replacements_view(replacements@);
    let ghost fv = found_view(translated@);
    let mut i: usize = 0;
    while i < replacements.len()
        invariant
            i <= replacements.len(),
            rv == replacements_view(replacements@),
            fv == found_view(translated@),
            l0 == values_view(old(list)@),
            values_view(list@) == apply_all(l0, rv.take(i as int), fv).0,
            apply_all(l0, rv.take(i as int), fv).1 is None,
        decreases replacements.len() - i,
    {
        let r = &replacements[i];
        let text = match lookup_found(translated, r.unit_index) {
            Some(t) => t,
            None => r.fallback_text.clone(),
        };
        proof {
            assert(rv.take(i + 1).drop_last() =~= rv.take(i as int));
            assert(rv.take(i + 1).last() == replacement_view(replacements@[i as int]));
            assert(text@ == translated_text(rv[i as int], fv));
        }
        let step = set_text_in_list(list, &r.path, text);
        if step.is_err() {
            proof {
                lemma_apply_all_stops(l0, rv, fv, i + 1, rv.len() as int);
                assert(rv.take(rv.len() as int) =~= rv);
            }
            return step;
        }
        i = i + 1;
    }
    assert(rv.take(replacements.len() as int) =~= rv);
    Ok(())
}

/// Writes the translations of one file into its document: `Ok(true)` when
/// the document's `dataList` array was written (see `apply_all`),
/// `Ok(false)` and the document unchanged when it has no such array, a
/// "Path Error" when a replacement's path cannot be written.
pub fn apply_to_content(
    content: JsonValue,
    replacements: &Vec<PendingReplacement>,
    translated: &Vec<(usize, String)>,
) -> (res: (JsonValue, Result<bool, UserFacingError>))
    ensures
        match data_list(content.view_of()) {
            None => res.0.view_of() == content.view_of() && res.1 == Ok::<bool, UserFacingError>(
                false,
            ),
            Some(items) => {
                let a = apply_all(
                    items,
                    replacements_view(replacements@),
                    found_view(translated@),
                );
                &&& res.0.view_of() == with_data_list(content.view_of(), a.0)
                &&& match a.1 {
                    None => res.1 == Ok::<bool, UserFacingError>(true),
                    Some(m) => res.1 matches Err(e) && e.is("Path Error"@, m, None),
                }
            },
        },
{
    match content {
        JsonValue::Object(mut m) => {
            let ghost mv = JsonValue::Object(m).view_of()->Object_0;
            match find_member(&m, "dataList") {
                Some(i) => {
                    let ghost old_m = m;
                    let (k, v) = m.remove(i);
                    match v {
                        JsonValue::Array(mut items) => {
                            let ghost old_items = items;
                            assert(values_view(old_items@) =~= JsonValue::Array(
                                old_items,
                            ).view_of()->Array_0);
                            let r = apply_replacements(&mut items, replacements, translated);
                            let ghost new_items = items;
                            m.insert(i, (k, JsonValue::Array(items)));
                            let res = JsonValue::Object(m);
                            proof {
                                assert(values_view(new_items@) =~= JsonValue::Array(
                                    new_items,
                                ).view_of()->Array_0);
                                assert(res.view_of()->Object_0 =~= mv.update(
                                    i as int,
                                    (mv[i as int].0, JsonValue::Array(new_items).view_of()),
                                ));
                            }
                            match r {
                                Ok(()) => (res, Ok(true)),
                                Err(e) => (res, Err(e)),
                            }
                        },
                        other => {
                            m.insert(i, (k, other));
                            let res = JsonValue::Object(m);
                            assert(res.view_of()->Object_0 =~= mv);
                            (res, Ok(false))
                        },
                    }
                },
                None => (JsonValue::Object(m), Ok(false)),
            }
        },
        other => (other, Ok(false)),
    }
}

// ---------------------------------------------------------------------------
// Run bookkeeping
// ---------------------------------------------------------------------------

/// A run ends at once, with nothing translated, when no file has new
/// entries or no text was found to translate.
pub fn nothing_to_translate(delta_count: usize, unit_count: usize) -> (res: bool)
    ensures
        res == (delta_count == 0 || unit_count == 0),
{
    delta_count == 0 || unit_count == 0
}

/// Records the outcome of one batch: its translations join those found so
/// far, and a batch that kept its source text is counted.
pub fn record_outcome(
    translated: &mut Vec<(usize, String)>,
    fallback_batches: &mut usize,
    translations: Vec<(usize, String)>,
    used_fallback: bool,
)
    requires
        used_fallback ==> *old(fallback_batches) < usize::MAX,
    ensures
        final(translated)@ == old(translated)@ + translations@,
        *final(fallback_batches) == if used_fallback {
            *old(fallback_batches) + 1
        } else {
            *old(fallback_batches) as int
        },
{
    let mut more = translations;
    translated.append(&mut more);
    if used_fallback {
        *fallback_batches = *fallback_batches + 1;
    }
}

/// Counts a file whose translations were written back.
pub fn count_written_file(translated_files: usize, written: bool) -> (res: usize)
    requires
        written ==> translated_files < usize::MAX,
    ensures
        res == if written {
            translated_files + 1
        } else {
            translated_files as int
        },
{
    if written {
        translated_files + 1
    } else {
        translated_files
    }
}

/// The summary of a successful run: what was translated, nothing left
/// pending, no error, and where the output, the backups and the log are.
pub fn run_summary(
    translated_files: usize,
    translated_entries: usize,
    output_directory: String,
    backup_directory: String,
    log_file: String,
) -> (res: TaskSummary)
    ensures
        res.translated_files == translated_files,
        res.translated_entries == translated_entries,
        res.pending_chars == 0,
        res.output_directory == Some(output_directory),
        res.backup_directory == Some(backup_directory),
        res.log_file == Some(log_file),
        res.error is None,
{
    TaskSummary {
        translated_files,
        translated_entries,
        pending_chars: 0,
        output_directory: Some(output_directory),
        backup_directory: Some(backup_directory),
        log_file: Some(log_file),
        error: None,
    }
}

} // verus!
