//! The workspace: where its files are, which configuration applies when a
//! file is missing or broken, the resource files it offers, and the game
//! folders detected from a Steam installation.
use vstd::prelude::*;

use crate::error::UserFacingError;
use crate::models::{
    resource_view, resources_view, AppConfig, AutoDetectedNotice, BlacklistConfig,
    DetectedGamePaths, ModelsConfig, ResourceFile, TranslationConfigs,
};
use crate::paths::{
    eq_ignore_ascii_case, eq_ignore_ascii_case_seq, extension, extension_seq, join_path,
    join_path_seq, opt_chars, parent_component, parent_of,
};
use crate::sorting::{
    insert_sorted, lemma_insert_sorted_at, lemma_stable_sort_permutes, lemma_stable_sort_sorted,
    stable_sort,
};
use crate::text::{
    blank, chars_of, concat, contains_seq, contains_str, is_blank, lines, lines_of, owned, replace_char,
    replace_char_seq, split_char, split_of, str_eq, string_of, trim, trim_seq, views,
};

verus! {

// ---------------------------------------------------------------------------
// Workspace files
// ---------------------------------------------------------------------------

/// The files and folders of a workspace.
#[derive(Debug, Clone)]
pub struct WorkspacePaths {
    pub root: String,
    pub config: String,
    pub models: String,
    pub translation_configs: String,
    pub blacklist: String,
    pub prompts_dir: String,
    pub terminology_dir: String,
}

impl WorkspacePaths {
    /// The workspace's files under `root`; the models and strategies files
    /// are those the settings name.
    pub fn from_root(root: &str, app_config: &AppConfig) -> (res: Self)
        ensures
            res.root@ == root@,
            res.config@ == join_path_seq(root@, "config.json"@),
            res.models@ == join_path_seq(root@, app_config.config_files.models@),
            res.translation_configs@ == join_path_seq(
                root@,
                app_config.config_files.translation_configs@,
            ),
            res.blacklist@ == join_path_seq(root@, "BlackList.json"@),
            res.prompts_dir@ == join_path_seq(root@, "prompts"@),
            res.terminology_dir@ == join_path_seq(root@, "terminology"@),
    {
        WorkspacePaths {
            root: owned(root),
            config: join_path(root, "config.json"),
            models: join_path(root, app_config.config_files.models.as_str()),
            translation_configs: join_path(root, app_config.config_files.translation_configs.as_str()),
            blacklist: join_path(root, "BlackList.json"),
            prompts_dir: join_path(root, "prompts"),
            terminology_dir: join_path(root, "terminology"),
        }
    }
}

/// The workspace's files under `root` with the default file names.
pub fn default_workspace_paths(root: &str) -> (res: WorkspacePaths)
    ensures
        res.root@ == root@,
        res.config@ == join_path_seq(root@, "config.json"@),
        res.models@ == join_path_seq(root@, "models.json"@),
        res.translation_configs@ == join_path_seq(root@, "translation_configs.json"@),
        res.blacklist@ == join_path_seq(root@, "BlackList.json"@),
        res.prompts_dir@ == join_path_seq(root@, "prompts"@),
        res.terminology_dir@ == join_path_seq(root@, "terminology"@),
{
    let config = AppConfig::default();
    WorkspacePaths::from_root(root, &config)
}

// ---------------------------------------------------------------------------
// Loading with defaults
// ---------------------------------------------------------------------------

/// The settings of a workspace: what was read from its settings file, or
/// the defaults when there is no such file (`None`). A read or parse error
/// is passed on.
pub fn load_or_default_app_config(read: Option<Result<AppConfig, UserFacingError>>) -> (res: Result<
    AppConfig,
    UserFacingError,
>)
    ensures
        match read {
            None => res matches Ok(c) && c.is_default(),
            Some(r) => res == r,
        },
{
    match read {
        None => Ok(AppConfig::default()),
        Some(r) => r,
    }
}

/// The model slots of a workspace: what was read from its models file, or
/// the default slot when there is no such file (`None`).
pub fn load_models(read: Option<Result<ModelsConfig, UserFacingError>>) -> (res: Result<
    ModelsConfig,
    UserFacingError,
>)
    requires
        read matches Some(Ok(c)) ==> c.well_formed(),
    ensures
        res matches Ok(c) ==> c.well_formed(),
        match read {
            None => res matches Ok(c) && c.is_default(),
            Some(r) => res == r,
        },
{
    match read {
        None => Ok(ModelsConfig::default()),
        Some(r) => r,
    }
}

/// The blacklist of a workspace: what was read from its blacklist file, or
/// an empty blacklist when there is no such file (`None`).
pub fn load_blacklist(read: Option<Result<BlacklistConfig, UserFacingError>>) -> (res: Result<
    BlacklistConfig,
    UserFacingError,
>)
    ensures
        match read {
            None => res matches Ok(c) && c.blacklist.len() == 0,
            Some(r) => res == r,
        },
{
    match read {
        None => Ok(BlacklistConfig::default()),
        Some(r) => r,
    }
}

/// The strategies shipped with the bundled translator: what was read from its
/// strategies file, or none when the tool or the file is absent (`None`).
pub fn load_original_translation_configs(read: Option<Result<TranslationConfigs, UserFacingError>>) -> (res:
    Result<TranslationConfigs, UserFacingError>)
    ensures
        match read {
            None => res matches Ok(c) && c.translation_strategies.len() == 0,
            Some(r) => res == r,
        },
{
    match read {
        None => Ok(TranslationConfigs::default()),
        Some(r) => r,
    }
}

/// The strategies of a workspace. `workspace` is what was read from the
/// workspace's strategies file (`None` when there is none) and `bundled`
/// the strategies of the bundled translator. A workspace file with strategies
/// wins; a read error of it is passed on; otherwise the bundled translator's
/// strategies apply, or none when they cannot be loaded.
pub fn load_translation_configs(
    workspace: Option<Result<TranslationConfigs, UserFacingError>>,
    bundled: Result<TranslationConfigs, UserFacingError>,
) -> (res: Result<TranslationConfigs, UserFacingError>)
    ensures
        match workspace {
            Some(Err(e)) => res == Err::<TranslationConfigs, UserFacingError>(e),
            Some(Ok(c)) if c.translation_strategies.len() > 0 => res == Ok::<
                TranslationConfigs,
                UserFacingError,
            >(c),
            _ => match bundled {
                Ok(o) => res == Ok::<TranslationConfigs, UserFacingError>(o),
                Err(_) => res matches Ok(c) && c.translation_strategies.len() == 0,
            },
        },
{
    match workspace {
        Some(Err(e)) => return Err(e),
        Some(Ok(c)) => {
            if c.translation_strategies.len() > 0 {
                return Ok(c);
            }
        },
        None => {},
    }
    match bundled {
        Ok(o) => Ok(o),
        Err(_) => Ok(TranslationConfigs::default()),
    }
}

/// What writing a document to a file takes, step by step: the folder to
/// create first (the file's parent, when it has one), then the text to
/// write, or the error that stops the write once the folder is made, and
/// the file.
#[derive(Debug)]
pub struct JsonWrite {
    pub parent: Option<String>,
    pub path: String,
    pub content: Result<String, UserFacingError>,
}

/// `w` is the write of a serialised document to `path`: `serialized` is
/// the pretty-printed text, or the serialiser's error message, which
/// becomes a "Serialization Error" reported after the folder is created.
pub open spec fn is_json_write(w: JsonWrite, path: Seq<char>, serialized: Result<String, String>) -> bool {
    &&& opt_chars(w.parent) == parent_component(path)
    &&& w.path@ == path
    &&& match serialized {
        Ok(text) => w.content == Ok::<String, UserFacingError>(text),
        Err(msg) => w.content matches Err(e) && e.is(
            "Serialization Error"@,
            "Failed to serialize "@ + path,
            Some(msg@),
        ),
    }
}

/// Prepares the write of a serialised document (see `is_json_write`).
pub fn prepare_json_write(path: &str, serialized: Result<String, String>) -> (res: JsonWrite)
    ensures
        is_json_write(res, path@, serialized),
{
    let content = match serialized {
        Ok(text) => Ok(text),
        Err(msg) => Err(
            UserFacingError::new(
                owned("Serialization Error"),
                concat("Failed to serialize ", path),
                Some(msg),
            ),
        ),
    };
    JsonWrite { parent: parent_of(path), path: owned(path), content }
}

/// Saves the settings (see `prepare_json_write`).
pub fn save_app_config(path: &str, serialized: Result<String, String>) -> (res: JsonWrite)
    ensures
        is_json_write(res, path@, serialized),
{
    prepare_json_write(path, serialized)
}

/// Saves the model profiles (see `prepare_json_write`).
pub fn save_models(path: &str, serialized: Result<String, String>) -> (res: JsonWrite)
    ensures
        is_json_write(res, path@, serialized),
{
    prepare_json_write(path, serialized)
}

/// Saves the strategies (see `prepare_json_write`).
pub fn save_translation_configs(path: &str, serialized: Result<String, String>) -> (res: JsonWrite)
    ensures
        is_json_write(res, path@, serialized),
{
    prepare_json_write(path, serialized)
}

/// Saves the blacklist (see `prepare_json_write`).
pub fn save_blacklist(path: &str, serialized: Result<String, String>) -> (res: JsonWrite)
    ensures
        is_json_write(res, path@, serialized),
{
    prepare_json_write(path, serialized)
}

/// Saves a terminology dictionary (see `prepare_json_write`).
pub fn write_terminology(path: &str, serialized: Result<String, String>) -> (res: JsonWrite)
    ensures
        is_json_write(res, path@, serialized),
{
    prepare_json_write(path, serialized)
}

/// Takes a loaded value, or records the error among the problems and takes
/// the fallback.
pub fn value_or_problem<T>(problems: &mut Vec<UserFacingError>, loaded: Result<T, UserFacingError>, fallback: T) -> (res: T)
    ensures
        match loaded {
            Ok(v) => res == v && final(problems)@ == old(problems)@,
            Err(e) => res == fallback && final(problems)@ == old(problems)@.push(e),
        },
{
    match loaded {
        Ok(v) => v,
        Err(e) => {
            problems.push(e);
            fallback
        },
    }
}

// ---------------------------------------------------------------------------
// Resource files
// ---------------------------------------------------------------------------

/// Lexicographic order of character sequences (`str` ordering).
pub open spec fn seq_le(a: Seq<char>, b: Seq<char>) -> bool
    decreases a.len(),
{
    if a.len() == 0 {
        true
    } else if b.len() == 0 {
        false
    } else if a[0] != b[0] {
        a[0] < b[0]
    } else {
        seq_le(a.drop_first(), b.drop_first())
    }
}

/// Compares two texts in lexicographic order.
pub fn str_le(a: &str, b: &str) -> (res: bool)
    ensures
        res == seq_le(a@, b@),
{
    let x = chars_of(a);
    let y = chars_of(b);
    let mut i: usize = 0;
    assert(x@.skip(0) =~= x@);
    assert(y@.skip(0) =~= y@);
    while i < x.len() && i < y.len() && x[i] == y[i]
        invariant
            i <= x.len(),
            i <= y.len(),
            x@ == a@,
            y@ == b@,
            seq_le(a@, b@) == seq_le(x@.skip(i as int), y@.skip(i as int)),
        decreases x.len() - i,
    {
        assert(x@.skip(i as int).drop_first() =~= x@.skip(i + 1));
        assert(y@.skip(i as int).drop_first() =~= y@.skip(i + 1));
        i = i + 1;
    }
    if i == x.len() {
        return true;
    }
    if i == y.len() {
        return false;
    }
    x[i] < y[i]
}

/// Resource files ordered by path.
pub open spec fn by_path() -> spec_fn((Seq<char>, Seq<char>), (Seq<char>, Seq<char>)) -> bool {
    |a: (Seq<char>, Seq<char>), b: (Seq<char>, Seq<char>)| seq_le(a.0, b.0)
}

/// A copy of a resource file.
pub fn copy_resource(r: &ResourceFile) -> (res: ResourceFile)
    ensures
        res == *r,
{
    ResourceFile { path: r.path.clone(), label: r.label.clone() }
}

/// Sorts resource files by path, keeping the order of equal paths.
pub fn sort_by_path(v: Vec<ResourceFile>) -> (res: Vec<ResourceFile>)
    ensures
        resources_view(res@) == stable_sort(resources_view(v@), by_path()),
{
    let mut res: Vec<ResourceFile> = Vec::new();
    let mut i: usize = v.len();
    let ghost vv = resources_view(v@);
    assert(vv.skip(v.len() as int) =~= Seq::<(Seq<char>, Seq<char>)>::empty());
    while i > 0
        invariant
            i <= v.len(),
            vv == resources_view(v@),
            resources_view(res@) == stable_sort(vv.skip(i as int), by_path()),
        decreases i,
    {
        let x = copy_resource(&v[i - 1]);
        assert(resource_view(x) == vv[i - 1]);
        let ghost xs = vv.skip(i - 1);
        assert(xs[0] == vv[i - 1]);
        assert(xs.drop_first() =~= vv.skip(i as int));
        let mut k: usize = 0;
        while k < res.len() && !str_le(x.path.as_str(), res[k].path.as_str())
            invariant
                k <= res.len(),
                forall|m: int|
                    0 <= m < k ==> !(by_path())(resource_view(x), #[trigger] resources_view(res@)[m]),
            decreases res.len() - k,
        {
            k = k + 1;
        }
        proof {
            lemma_insert_sorted_at(resource_view(x), resources_view(res@), by_path(), k as int);
        }
        let ghost before = res@;
        res.insert(k, x);
        assert(resources_view(res@) =~= resources_view(before).take(k as int) + seq![vv[i - 1]]
            + resources_view(before).skip(k as int));
        i = i - 1;
    }
    assert(vv.skip(0) =~= vv);
    res
}

/// A fallback file is added when no file of the primary list, and no
/// earlier fallback file, has its path.
pub open spec fn fresh_fallback(
    primary: Seq<(Seq<char>, Seq<char>)>,
    fallback: Seq<(Seq<char>, Seq<char>)>,
    i: int,
) -> bool {
    &&& forall|j: int| 0 <= j < primary.len() ==> primary[j].0 != fallback[i].0
    &&& forall|j: int| 0 <= j < i ==> fallback[j].0 != fallback[i].0
}

/// The fallback files among the first `n` that are added.
pub open spec fn added_fallback(
    primary: Seq<(Seq<char>, Seq<char>)>,
    fallback: Seq<(Seq<char>, Seq<char>)>,
    n: int,
) -> Seq<(Seq<char>, Seq<char>)>
    decreases n,
{
    if n <= 0 {
        seq![]
    } else if fresh_fallback(primary, fallback, n - 1) {
        added_fallback(primary, fallback, n - 1).push(fallback[n - 1])
    } else {
        added_fallback(primary, fallback, n - 1)
    }
}

/// The primary files plus the fallback files with new paths, ordered by
/// path.
pub open spec fn merged_spec(primary: Seq<(Seq<char>, Seq<char>)>, fallback: Seq<(Seq<char>, Seq<char>)>) -> Seq<
    (Seq<char>, Seq<char>),
> {
    stable_sort(primary + added_fallback(primary, fallback, fallback.len() as int), by_path())
}

/// Merges the resource files of the workspace with those of the bundled
/// translator: every workspace file, plus each of its files whose path is not
/// there yet, ordered by path.
pub fn merge_resource_files(primary: Vec<ResourceFile>, fallback: Vec<ResourceFile>) -> (res: Vec<
    ResourceFile,
>)
    ensures
        resources_view(res@) == merged_spec(resources_view(primary@), resources_view(fallback@)),
{
    let ghost pv = resources_view(primary@);
    let ghost fv = resources_view(fallback@);
    let mut merged = primary;
    let mut i: usize = 0;
    while i < fallback.len()
        invariant
            i <= fallback.len(),
            fv == resources_view(fallback@),
            resources_view(merged@) == pv + added_fallback(pv, fv, i as int),
        decreases fallback.len() - i,
    {
        let item = &fallback[i];
        let mut exists = false;
        let mut j: usize = 0;
        while j < merged.len()
            invariant
                j <= merged.len(),
                i < fallback.len(),
                *item == fallback@[i as int],
                fv == resources_view(fallback@),
                resources_view(merged@) == pv + added_fallback(pv, fv, i as int),
                exists == exists|m: int| 0 <= m < j && resources_view(merged@)[m].0 == fv[i as int].0,
            decreases merged.len() - j,
        {
            assert(resources_view(merged@)[j as int].0 == merged@[j as int].path@);
            assert(fv[i as int].0 == item.path@);
            if str_eq(merged[j].path.as_str(), item.path.as_str()) {
                exists = true;
            }
            j = j + 1;
        }
        proof {
            lemma_added_paths(pv, fv, i as int);
        }
        if !exists {
            let ghost before = merged@;
            merged.push(copy_resource(item));
            assert(resources_view(merged@) =~= resources_view(before).push(fv[i as int]));
        }
        i = i + 1;
    }
    sort_by_path(merged)
}

/// A path occurs in the primary files or among the added fallback files
/// exactly when it occurs in the primary files or in the fallback files
/// considered so far.
proof fn lemma_added_paths(
    primary: Seq<(Seq<char>, Seq<char>)>,
    fallback: Seq<(Seq<char>, Seq<char>)>,
    i: int,
)
    requires
        0 <= i < fallback.len(),
    ensures
        (exists|m: int|
            0 <= m < (primary + added_fallback(primary, fallback, i)).len() && (primary
                + added_fallback(primary, fallback, i))[m].0 == fallback[i].0) <==> !fresh_fallback(
            primary,
            fallback,
            i,
        ),
    decreases i,
{
    let all = primary + added_fallback(primary, fallback, i);
    if !fresh_fallback(primary, fallback, i) {
        if exists|j: int| 0 <= j < primary.len() && primary[j].0 == fallback[i].0 {
            let j = choose|j: int| 0 <= j < primary.len() && primary[j].0 == fallback[i].0;
            assert(all[j].0 == fallback[i].0);
        } else {
            let j = choose|j: int| 0 <= j < i && fallback[j].0 == fallback[i].0;
            lemma_fallback_path_present(primary, fallback, j, i);
        }
    } else {
        if exists|m: int| 0 <= m < all.len() && all[m].0 == fallback[i].0 {
            let m = choose|m: int| 0 <= m < all.len() && all[m].0 == fallback[i].0;
            if m >= primary.len() {
                lemma_added_from_earlier(primary, fallback, i, m - primary.len());
            }
        }
    }
}

proof fn lemma_fallback_path_present(
    primary: Seq<(Seq<char>, Seq<char>)>,
    fallback: Seq<(Seq<char>, Seq<char>)>,
    j: int,
    n: int,
)
    requires
        0 <= j < n <= fallback.len(),
    ensures
        exists|m: int|
            0 <= m < (primary + added_fallback(primary, fallback, n)).len() && (primary
                + added_fallback(primary, fallback, n))[m].0 == fallback[j].0,
    decreases n,
{
    let all = primary + added_fallback(primary, fallback, n);
    if j == n - 1 {
        if fresh_fallback(primary, fallback, j) {
            assert(all[all.len() - 1] == fallback[j]);
        } else {
            if exists|p: int| 0 <= p < primary.len() && primary[p].0 == fallback[j].0 {
                let p = choose|p: int| 0 <= p < primary.len() && primary[p].0 == fallback[j].0;
                assert(all[p].0 == fallback[j].0);
            } else {
                let k = choose|k: int| 0 <= k < j && fallback[k].0 == fallback[j].0;
                lemma_fallback_path_present(primary, fallback, k, n - 1);
                let prev = primary + added_fallback(primary, fallback, n - 1);
                let m = choose|m: int| 0 <= m < prev.len() && prev[m].0 == fallback[k].0;
                assert(all[m] == prev[m]);
            }
        }
    } else {
        lemma_fallback_path_present(primary, fallback, j, n - 1);
        let prev = primary + added_fallback(primary, fallback, n - 1);
        let m = choose|m: int| 0 <= m < prev.len() && prev[m].0 == fallback[j].0;
        assert(all[m] == prev[m]);
    }
}

proof fn lemma_added_from_earlier(
    primary: Seq<(Seq<char>, Seq<char>)>,
    fallback: Seq<(Seq<char>, Seq<char>)>,
    n: int,
    k: int,
)
    requires
        0 <= n <= fallback.len(),
        0 <= k < added_fallback(primary, fallback, n).len(),
    ensures
        exists|j: int| 0 <= j < n && fallback[j] == added_fallback(primary, fallback, n)[k],
    decreases n,
{
    if n > 0 {
        let prev = added_fallback(primary, fallback, n - 1);
        if k < prev.len() {
            if fresh_fallback(primary, fallback, n - 1) {
                assert(added_fallback(primary, fallback, n)[k] == prev[k]);
            }
            lemma_added_from_earlier(primary, fallback, n - 1, k);
        } else {
            assert(added_fallback(primary, fallback, n)[k] == fallback[n - 1]);
        }
    }
}

proof fn lemma_seq_le_total(a: Seq<char>, b: Seq<char>)
    ensures
        seq_le(a, b) || seq_le(b, a),
    decreases a.len(),
{
    if a.len() > 0 && b.len() > 0 && a[0] == b[0] {
        lemma_seq_le_total(a.drop_first(), b.drop_first());
    }
}

proof fn lemma_seq_le_transitive(a: Seq<char>, b: Seq<char>, c: Seq<char>)
    requires
        seq_le(a, b),
        seq_le(b, c),
    ensures
        seq_le(a, c),
    decreases a.len(),
{
    if a.len() > 0 && b.len() > 0 && c.len() > 0 && a[0] == b[0] && b[0] == c[0] {
        lemma_seq_le_transitive(a.drop_first(), b.drop_first(), c.drop_first());
    }
}

/// Merging keeps every workspace file, offers a file for every path of the
/// bundled translator's files, and lists the files in order of path.
pub proof fn lemma_merge_keeps_and_completes(
    primary: Seq<(Seq<char>, Seq<char>)>,
    fallback: Seq<(Seq<char>, Seq<char>)>,
)
    ensures
        forall|i: int| 0 <= i < primary.len() ==> merged_spec(primary, fallback).contains(
            #[trigger] primary[i],
        ),
        forall|i: int|
            0 <= i < fallback.len() ==> exists|m: int|
                0 <= m < merged_spec(primary, fallback).len() && (#[trigger] merged_spec(
                    primary,
                    fallback,
                )[m]).0 == (#[trigger] fallback[i]).0,
        forall|i: int, j: int|
            0 <= i < j < merged_spec(primary, fallback).len() ==> seq_le(
                (#[trigger] merged_spec(primary, fallback)[i]).0,
                (#[trigger] merged_spec(primary, fallback)[j]).0,
            ),
{
    broadcast use vstd::seq_lib::group_to_multiset_ensures;

    let all = primary + added_fallback(primary, fallback, fallback.len() as int);
    let merged = merged_spec(primary, fallback);
    lemma_stable_sort_permutes(all, by_path());
    assert forall|i: int| 0 <= i < primary.len() implies merged.contains(#[trigger] primary[i]) by {
        assert(all[i] == primary[i]);
        assert(all.to_multiset().count(primary[i]) > 0);
    }
    assert forall|i: int| 0 <= i < fallback.len() implies exists|m: int|
        0 <= m < merged.len() && (#[trigger] merged[m]).0 == (#[trigger] fallback[i]).0 by {
        lemma_fallback_path_present(primary, fallback, i, fallback.len() as int);
        let m = choose|m: int| 0 <= m < all.len() && all[m].0 == fallback[i].0;
        assert(all.to_multiset().count(all[m]) > 0);
        assert(merged.contains(all[m]));
        let k = choose|k: int| 0 <= k < merged.len() && merged[k] == all[m];
        assert(merged[k].0 == fallback[i].0);
    }
    assert forall|a: (Seq<char>, Seq<char>), b: (Seq<char>, Seq<char>)|
        #[trigger] (by_path())(a, b) || (by_path())(b, a) by {
        lemma_seq_le_total(a.0, b.0);
    }
    assert forall|a: (Seq<char>, Seq<char>), b: (Seq<char>, Seq<char>), c: (Seq<char>, Seq<char>)|
        #[trigger] (by_path())(a, b) && #[trigger] (by_path())(b, c) implies (by_path())(a, c) by {
        lemma_seq_le_transitive(a.0, b.0, c.0);
    }
    lemma_stable_sort_sorted(all, by_path());
    assert forall|i: int, j: int| 0 <= i < j < merged.len() implies seq_le(
        (#[trigger] merged[i]).0,
        (#[trigger] merged[j]).0,
    ) by {
        assert((by_path())(merged[i], merged[j]));
    }
}

/// A directory entry as listed by the file system: its name (lossily
/// decoded), whether the name is valid UTF-8, and whether it is a file.
#[derive(Debug, Clone)]
pub struct DirEntryInfo {
    pub name: String,
    pub name_is_utf8: bool,
    pub is_file: bool,
}

/// The entry is a file whose extension equals `ext` up to ASCII case.
pub open spec fn entry_selected(e: DirEntryInfo, ext: Seq<char>) -> bool {
    e.is_file && match extension_seq(e.name@) {
        Some(x) => eq_ignore_ascii_case_seq(x, ext),
        None => false,
    }
}

/// The resource file of a selected entry: its path relative to the
/// folder's parent (`dir/name`, or just the name when the folder has no
/// parent) with backslashes turned into slashes, and its name as label
/// (empty when the name is not valid UTF-8).
pub open spec fn entry_resource(dir: Option<Seq<char>>, e: DirEntryInfo) -> (Seq<char>, Seq<char>) {
    let rel = match dir {
        Some(d) => join_path_seq(d, e.name@),
        None => e.name@,
    };
    (replace_char_seq(rel, '\\', '/'), if e.name_is_utf8 {
        e.name@
    } else {
        seq![]
    })
}

/// The resource files among the first `n` entries, in listing order.
pub open spec fn selected_prefix(
    dir: Option<Seq<char>>,
    entries: Seq<DirEntryInfo>,
    ext: Seq<char>,
    n: int,
) -> Seq<(Seq<char>, Seq<char>)>
    decreases n,
{
    if n <= 0 {
        seq![]
    } else if entry_selected(entries[n - 1], ext) {
        selected_prefix(dir, entries, ext, n - 1).push(entry_resource(dir, entries[n - 1]))
    } else {
        selected_prefix(dir, entries, ext, n - 1)
    }
}

/// The resource files of a folder listing: the files with the given
/// extension (ignoring ASCII case), ordered by path. `dir` is the folder's
/// own name, the part of its path below its parent.
pub fn resource_files_from_entries(dir: &Option<String>, entries: &Vec<DirEntryInfo>, ext: &str) -> (res:
    Vec<ResourceFile>)
    ensures
        resources_view(res@) == stable_sort(
            selected_prefix(
                match dir {
                    Some(d) => Some(d@),
                    None => None,
                },
                entries@,
                ext@,
                entries.len() as int,
            ),
            by_path(),
        ),
{
    let ghost dv = match dir {
        Some(d) => Some(d@),
        None => None::<Seq<char>>,
    };
    let mut items: Vec<ResourceFile> = Vec::new();
    let mut i: usize = 0;
    while i < entries.len()
        invariant
            i <= entries.len(),
            dv == match dir {
                Some(d) => Some(d@),
                None => None::<Seq<char>>,
            },
            resources_view(items@) == selected_prefix(dv, entries@, ext@, i as int),
        decreases entries.len() - i,
    {
        let e = &entries[i];
        let matches = e.is_file && match extension(e.name.as_str()) {
            Some(x) => eq_ignore_ascii_case(x.as_str(), ext),
            None => false,
        };
        if matches {
            let rel = match dir {
                Some(d) => join_path(d.as_str(), e.name.as_str()),
                None => e.name.clone(),
            };
            let path = replace_char(rel.as_str(), '\\', '/');
            let label = if e.name_is_utf8 {
                e.name.clone()
            } else {
                String::new()
            };
            let ghost before = items@;
            items.push(ResourceFile { path, label });
            assert(resources_view(items@) =~= resources_view(before).push(
                entry_resource(dv, *e),
            ));
        }
        i = i + 1;
    }
    sort_by_path(items)
}

/// The resource files of a workspace folder, completed from the same
/// folder of the bundled translator: a listing error of the workspace folder is
/// recorded and leaves no files; a listing error of the bundled translator's
/// folder is recorded and leaves the workspace files alone.
pub fn resources_with_fallback(
    problems: &mut Vec<UserFacingError>,
    primary: Result<Vec<ResourceFile>, UserFacingError>,
    fallback: Option<Result<Vec<ResourceFile>, UserFacingError>>,
) -> (res: Vec<ResourceFile>)
    ensures
        match primary {
            Err(e) => res@.len() == 0 && final(problems)@ == old(problems)@.push(e),
            Ok(files) => match fallback {
                Some(Ok(fb)) => resources_view(res@) == merged_spec(
                    resources_view(files@),
                    resources_view(fb@),
                ) && final(problems)@ == old(problems)@,
                None => res == files && final(problems)@ == old(problems)@,
                Some(Err(e)) => res == files && final(problems)@ == old(problems)@.push(e),
            },
        },
{
    match primary {
        Err(e) => {
            problems.push(e);
            Vec::new()
        },
        Ok(files) => match fallback {
            Some(Ok(fb)) => merge_resource_files(files, fb),
            None => files,
            Some(Err(e)) => {
                problems.push(e);
                files
            },
        },
    }
}

// ---------------------------------------------------------------------------
// Game detection
// ---------------------------------------------------------------------------

/// The placeholder that the shipped settings put in place of a path.
pub open spec fn placeholder() -> Seq<char> {
    "<Puts your Game Directory Here>"@
}

/// A configured folder needs filling in when it is blank or still holds
/// the placeholder.
pub open spec fn needs_path(p: Seq<char>) -> bool {
    is_blank(p) || contains_seq(p, placeholder())
}

/// Fills the input and output folders of the settings from a detected game
/// installation where they are blank or hold the placeholder, and reports
/// what was filled in (nothing when nothing was).
pub fn hydrate_config_paths(config: AppConfig, detected: Option<&DetectedGamePaths>) -> (res: (
    AppConfig,
    Option<AutoDetectedNotice>,
))
    ensures
        match detected {
            None => res.0 == config && res.1 is None,
            Some(d) => {
                let input = needs_path(config.file_paths.input_direction@);
                let output = needs_path(config.file_paths.output_direction@);
                &&& res.0.translation_settings == config.translation_settings
                &&& res.0.config_files == config.config_files
                &&& res.0.options == config.options
                &&& res.0.file_paths.input_direction@ == if input {
                    d.localize_root@
                } else {
                    config.file_paths.input_direction@
                }
                &&& res.0.file_paths.output_direction@ == if output {
                    d.lang_root@
                } else {
                    config.file_paths.output_direction@
                }
                &&& if input || output {
                    res.1 matches Some(n) && n.game_root@ == d.game_root@ && n.input_applied == input
                        && n.output_applied == output
                } else {
                    res.1 is None
                }
            },
        },
{
    let d = match detected {
        Some(d) => d,
        None => return (config, None),
    };
    let mut config = config;
    let mut input_applied = false;
    if blank(config.file_paths.input_direction.as_str()) || contains_str(
        config.file_paths.input_direction.as_str(),
        "<Puts your Game Directory Here>",
    ) {
        config.file_paths.input_direction = d.localize_root.clone();
        input_applied = true;
    }
    let mut output_applied = false;
    if blank(config.file_paths.output_direction.as_str()) || contains_str(
        config.file_paths.output_direction.as_str(),
        "<Puts your Game Directory Here>",
    ) {
        config.file_paths.output_direction = d.lang_root.clone();
        output_applied = true;
    }
    let notice = if input_applied || output_applied {
        Some(AutoDetectedNotice { game_root: d.game_root.clone(), input_applied, output_applied })
    } else {
        None
    };
    (config, notice)
}

/// The folders of the game inside a Steam library.
pub fn limbus_paths_for_library(library: &str) -> (res: DetectedGamePaths)
    ensures
        res.steam_library_root@ == library@,
        res.game_root@ == join_path_seq(
            join_path_seq(join_path_seq(library@, "steamapps"@), "common"@),
            "Limbus Company"@,
        ),
        res.localize_root@ == join_path_seq(
            join_path_seq(
                join_path_seq(join_path_seq(res.game_root@, "LimbusCompany_Data"@), "Assets"@),
                "Resources_moved"@,
            ),
            "Localize"@,
        ),
        res.lang_root@ == join_path_seq(join_path_seq(res.game_root@, "LimbusCompany_Data"@), "Lang"@),
{
    let a = join_path(library, "steamapps");
    let b = join_path(a.as_str(), "common");
    let game_root = join_path(b.as_str(), "Limbus Company");
    let d = join_path(game_root.as_str(), "LimbusCompany_Data");
    let e = join_path(d.as_str(), "Assets");
    let f = join_path(e.as_str(), "Resources_moved");
    let localize_root = join_path(f.as_str(), "Localize");
    let lang_root = join_path(d.as_str(), "Lang");
    DetectedGamePaths { steam_library_root: owned(library), game_root, localize_root, lang_root }
}

/// Every `\\` pair replaced by a single backslash, left to right
/// (`str::replace("\\\\", "\\")`).
pub open spec fn collapse_backslashes(s: Seq<char>) -> Seq<char>
    decreases s.len(),
{
    if s.len() >= 2 && s[0] == '\\' && s[1] == '\\' {
        seq!['\\'] + collapse_backslashes(s.skip(2))
    } else if s.len() == 0 {
        s
    } else {
        seq![s[0]] + collapse_backslashes(s.drop_first())
    }
}

fn collapse_backslashes_exec(s: &str) -> (res: String)
    ensures
        res@ == collapse_backslashes(s@),
{
    let cs = chars_of(s);
    let mut out: Vec<char> = Vec::new();
    let mut i: usize = 0;
    assert(s@.skip(0) =~= s@);
    while i < cs.len()
        invariant
            i <= cs.len(),
            cs@ == s@,
            out@ + collapse_backslashes(s@.skip(i as int)) == collapse_backslashes(s@),
        decreases cs.len() - i,
    {
        let ghost rest = s@.skip(i as int);
        if i + 1 < cs.len() && cs[i] == '\\' && cs[i + 1] == '\\' {
            assert(rest.skip(2) =~= s@.skip(i + 2));
            out.push('\\');
            assert(out@ + collapse_backslashes(s@.skip(i + 2)) =~= collapse_backslashes(s@));
            i = i + 2;
        } else {
            assert(rest.drop_first() =~= s@.skip(i + 1));
            out.push(cs[i]);
            assert(out@ + collapse_backslashes(s@.skip(i + 1)) =~= collapse_backslashes(s@));
            i = i + 1;
        }
    }
    assert(s@.skip(i as int) =~= Seq::<char>::empty());
    assert(out@ =~= collapse_backslashes(s@));
    string_of(&out)
}

/// The last piece (by position) that is not blank and does not contain
/// `path`.
pub open spec fn last_path_piece(parts: Seq<Seq<char>>, n: int) -> Option<Seq<char>>
    decreases n,
{
    if n <= 0 {
        None
    } else if !is_blank(parts[n - 1]) && !contains_seq(parts[n - 1], "path"@) {
        Some(parts[n - 1])
    } else {
        last_path_piece(parts, n - 1)
    }
}

/// The library folder a line of `libraryfolders.vdf` names: on a trimmed
/// line holding `"path"`, the last quoted piece that is not blank and is
/// not the key itself, with doubled backslashes collapsed.
pub open spec fn vdf_line_path(line: Seq<char>) -> Option<Seq<char>> {
    let t = trim_seq(line);
    if !contains_seq(t, "\"path\""@) {
        None
    } else {
        let parts = split_of(t, '"');
        match last_path_piece(parts, parts.len() as int) {
            Some(p) => Some(collapse_backslashes(p)),
            None => None,
        }
    }
}

/// The library folders named by the first `n` lines, in order.
pub open spec fn vdf_paths_prefix(lines: Seq<Seq<char>>, n: int) -> Seq<Seq<char>>
    decreases n,
{
    if n <= 0 {
        seq![]
    } else {
        match vdf_line_path(lines[n - 1]) {
            Some(p) => vdf_paths_prefix(lines, n - 1).push(p),
            None => vdf_paths_prefix(lines, n - 1),
        }
    }
}

fn is_path_piece(p: &str) -> (res: bool)
    ensures
        res == (!is_blank(p@) && !contains_seq(p@, "path"@)),
{
    !blank(p) && !contains_str(p, "path")
}

/// The library folders that Steam's `libraryfolders.vdf` lists, line by
/// line (before checking which exist).
pub fn library_paths_from_vdf(content: &str) -> (res: Vec<String>)
    ensures
        views(res@) == vdf_paths_prefix(lines_of(content@), lines_of(content@).len() as int),
{
    let ls = lines(content);
    let mut out: Vec<String> = Vec::new();
    let mut i: usize = 0;
    while i < ls.len()
        invariant
            i <= ls.len(),
            views(ls@) == lines_of(content@),
            views(out@) == vdf_paths_prefix(views(ls@), i as int),
        decreases ls.len() - i,
    {
        assert(views(ls@)[i as int] == ls@[i as int]@);
        let t = trim(ls[i].as_str());
        if contains_str(t.as_str(), "\"path\"") {
            let parts = split_char(t.as_str(), '"');
            let mut k: usize = parts.len();
            while k > 0 && !is_path_piece(parts[k - 1].as_str())
                invariant
                    k <= parts.len(),
                    last_path_piece(views(parts@), parts.len() as int) == last_path_piece(
                        views(parts@),
                        k as int,
                    ),
                decreases k,
            {
                assert(views(parts@)[k - 1] == parts@[k - 1]@);
                k = k - 1;
            }
            if k > 0 {
                assert(views(parts@)[k - 1] == parts@[k - 1]@);
            }
            let found: Option<usize> = if k > 0 {
                Some(k - 1)
            } else {
                None
            };
            match found {
                Some(idx) => {
                    let p = collapse_backslashes_exec(parts[idx].as_str());
                    let ghost before = out@;
                    out.push(p);
                    assert(views(out@) =~= views(before).push(p@));
                },
                None => {},
            }
        }
        i = i + 1;
    }
    out
}

} // verus!
