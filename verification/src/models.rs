//! The workspace's configuration and the data exchanged with the user
//! interface.
use vstd::prelude::*;

use crate::config::{seq_le, str_le};
use crate::error::UserFacingError;
use crate::json::fields_view;
use crate::text::str_eq;
use crate::text::{copy_strings, owned, views};

verus! {

// ---------------------------------------------------------------------------
// Application configuration
// ---------------------------------------------------------------------------

/// The application's settings file.
#[derive(Debug, Clone)]
pub struct AppConfig {
    pub translation_settings: TranslationSettings,
    pub file_paths: FilePaths,
    pub config_files: ConfigFiles,
    pub options: AppOptions,
}

/// How translation runs.
#[derive(Debug, Clone)]
pub struct TranslationSettings {
    pub origin_language: String,
    pub target_direction: String,
    pub max_workers: usize,
    pub max_chars_per_batch: usize,
    pub max_retries: usize,
    pub timeout: u64,
}

/// Where source texts are read and translations written.
#[derive(Debug, Clone)]
pub struct FilePaths {
    pub input_direction: String,
    pub output_direction: String,
}

/// Names of the other configuration files.
#[derive(Debug, Clone)]
pub struct ConfigFiles {
    pub models: String,
    pub translation_configs: String,
}

/// Switches.
#[derive(Debug, Clone)]
pub struct AppOptions {
    pub keep_backup_files: bool,
    pub confirm_before_translation: bool,
}

impl AppConfig {
    /// The settings used when the workspace has no settings file.
    pub open spec fn is_default(self) -> bool {
        &&& self.translation_settings.origin_language@ == "jp"@
        &&& self.translation_settings.target_direction@ == "LCLT_zh"@
        &&& self.translation_settings.max_workers == 256
        &&& self.translation_settings.max_chars_per_batch == 2000
        &&& self.translation_settings.max_retries == 4
        &&& self.translation_settings.timeout == 90
        &&& self.file_paths.input_direction@ == Seq::<char>::empty()
        &&& self.file_paths.output_direction@ == Seq::<char>::empty()
        &&& self.config_files.models@ == "models.json"@
        &&& self.config_files.translation_configs@ == "translation_configs.json"@
        &&& !self.options.keep_backup_files
        &&& self.options.confirm_before_translation
    }
}

impl Default for AppConfig {
    fn default() -> (res: Self)
        ensures
            res.is_default(),
    {
        AppConfig {
            translation_settings: TranslationSettings {
                origin_language: owned("jp"),
                target_direction: owned("LCLT_zh"),
                max_workers: 256,
                max_chars_per_batch: 2000,
                max_retries: 4,
                timeout: 90,
            },
            file_paths: FilePaths { input_direction: String::new(), output_direction: String::new() },
            config_files: ConfigFiles {
                models: owned("models.json"),
                translation_configs: owned("translation_configs.json"),
            },
            options: AppOptions { keep_backup_files: false, confirm_before_translation: true },
        }
    }
}

// ---------------------------------------------------------------------------
// Models
// ---------------------------------------------------------------------------

/// A model slot. The sampling temperature is held as the bit pattern of
/// its `f64` value (`f64::to_bits`).
#[derive(Debug, Clone)]
pub struct ModelProfile {
    pub api_key: String,
    pub base_url: String,
    pub model: String,
    pub temperature_bits: u64,
    pub enable_thinking: bool,
}

/// The bit pattern of the `f64` value 0.3.
pub const TEMPERATURE_0_3_BITS: u64 = 0x3FD3_3333_3333_3333u64;

/// Model slots by name, in ascending name order without repeats (the
/// order of a sorted map).
#[derive(Debug, Clone)]
pub struct ModelsConfig {
    pub models: Vec<(String, ModelProfile)>,
}

/// The profile stored under `name`, if any.
pub open spec fn model_lookup(models: Seq<(String, ModelProfile)>, name: Seq<char>) -> Option<
    ModelProfile,
>
    decreases models.len(),
{
    if models.len() == 0 {
        None
    } else if models[0].0@ == name {
        Some(models[0].1)
    } else {
        model_lookup(models.drop_first(), name)
    }
}

/// The entries are keyed in strictly ascending order of key, as a sorted
/// map holds them: no key occurs twice.
pub open spec fn keys_in_order<V>(entries: Seq<(String, V)>) -> bool {
    forall|i: int, j: int|
        #![trigger entries[i], entries[j]]
        0 <= i < j < entries.len() ==> entries[i].0@ != entries[j].0@ && seq_le(
            entries[i].0@,
            entries[j].0@,
        )
}

/// Whether the entries are keyed in strictly ascending order (see
/// `keys_in_order`).
pub fn entries_in_order<V>(entries: &Vec<(String, V)>) -> (res: bool)
    ensures
        res == keys_in_order(entries@),
{
    let mut i: usize = 0;
    while i < entries.len()
        invariant
            i <= entries.len(),
            forall|a: int, b: int|
                #![trigger entries@[a], entries@[b]]
                0 <= a < b < entries.len() && a < i ==> entries@[a].0@ != entries@[b].0@ && seq_le(
                    entries@[a].0@,
                    entries@[b].0@,
                ),
        decreases entries.len() - i,
    {
        let mut j: usize = i + 1;
        while j < entries.len()
            invariant
                i < j <= entries.len(),
                forall|a: int, b: int|
                    #![trigger entries@[a], entries@[b]]
                    0 <= a < b < entries.len() && a < i ==> entries@[a].0@ != entries@[b].0@
                        && seq_le(entries@[a].0@, entries@[b].0@),
                forall|b: int|
                    i < b < j ==> entries@[i as int].0@ != (#[trigger] entries@[b]).0@ && seq_le(
                        entries@[i as int].0@,
                        entries@[b].0@,
                    ),
            decreases entries.len() - j,
        {
            if str_eq(entries[i].0.as_str(), entries[j].0.as_str()) || !str_le(
                entries[i].0.as_str(),
                entries[j].0.as_str(),
            ) {
                assert(!(entries@[i as int].0@ != entries@[j as int].0@ && seq_le(
                    entries@[i as int].0@,
                    entries@[j as int].0@,
                )));
                return false;
            }
            j = j + 1;
        }
        i = i + 1;
    }
    true
}

/// In a map keyed in order, looking up the key of an entry finds that
/// entry.
pub proof fn lemma_model_lookup_finds(models: Seq<(String, ModelProfile)>, i: int)
    requires
        keys_in_order(models),
        0 <= i < models.len(),
    ensures
        model_lookup(models, models[i].0@) == Some(models[i].1),
    decreases i,
{
    if i > 0 {
        assert(models[0].0@ != models[i].0@);
        let rest = models.drop_first();
        assert(keys_in_order(rest)) by {
            assert forall|a: int, b: int| 0 <= a < b < rest.len() implies #[trigger] rest[a].0@
                != #[trigger] rest[b].0@ && seq_le(rest[a].0@, rest[b].0@) by {
                assert(rest[a] == models[a + 1] && rest[b] == models[b + 1]);
            }
        }
        lemma_model_lookup_finds(rest, i - 1);
        assert(rest[i - 1] == models[i]);
    }
}

impl ModelsConfig {
    /// Slots are keyed in strictly ascending order of name.
    pub open spec fn well_formed(self) -> bool {
        keys_in_order(self.models@)
    }

    /// The configuration used when the workspace has no models file: one
    /// empty slot named `origin` at temperature 0.3.
    pub open spec fn is_default(self) -> bool {
        &&& self.models.len() == 1
        &&& self.models@[0].0@ == "origin"@
        &&& self.models@[0].1.api_key@ == Seq::<char>::empty()
        &&& self.models@[0].1.base_url@ == Seq::<char>::empty()
        &&& self.models@[0].1.model@ == Seq::<char>::empty()
        &&& self.models@[0].1.temperature_bits == TEMPERATURE_0_3_BITS
        &&& !self.models@[0].1.enable_thinking
    }
}

impl Default for ModelsConfig {
    fn default() -> (res: Self)
        ensures
            res.is_default(),
    {
        let mut models: Vec<(String, ModelProfile)> = Vec::new();
        models.push(
            (
                owned("origin"),
                ModelProfile {
                    api_key: String::new(),
                    base_url: String::new(),
                    model: String::new(),
                    temperature_bits: TEMPERATURE_0_3_BITS,
                    enable_thinking: false,
                },
            ),
        );
        ModelsConfig { models }
    }
}

// ---------------------------------------------------------------------------
// Strategies
// ---------------------------------------------------------------------------

/// A file pattern of a strategy, with the fields to translate in matching
/// files.
#[derive(Debug, Clone)]
pub struct FilePatternRule {
    pub pattern: String,
    pub extract_fields: Option<Vec<String>>,
}

/// The mathematical value of a file pattern rule.
pub struct RuleView {
    pub pattern: Seq<char>,
    pub extract_fields: Option<Seq<Seq<char>>>,
}

impl View for FilePatternRule {
    type V = RuleView;

    open spec fn view(&self) -> RuleView {
        RuleView { pattern: self.pattern@, extract_fields: fields_view(self.extract_fields) }
    }
}

/// The views of a sequence of rules.
pub open spec fn rules_view(v: Seq<FilePatternRule>) -> Seq<RuleView> {
    v.map_values(|r: FilePatternRule| r@)
}

/// Copies optional field names.
pub fn copy_fields(f: &Option<Vec<String>>) -> (res: Option<Vec<String>>)
    ensures
        fields_view(res) == fields_view(*f),
{
    match f {
        Some(v) => {
            let c = copy_strings(v);
            Some(c)
        },
        None => None,
    }
}

impl FilePatternRule {
    /// A copy of the rule.
    pub fn duplicate(&self) -> (res: Self)
        ensures
            res@ == self@,
    {
        FilePatternRule { pattern: self.pattern.clone(), extract_fields: copy_fields(&self.extract_fields) }
    }
}

/// Copies a list of rules.
pub fn copy_rules(v: &Vec<FilePatternRule>) -> (res: Vec<FilePatternRule>)
    ensures
        rules_view(res@) == rules_view(v@),
{
    let mut res: Vec<FilePatternRule> = Vec::new();
    let mut i: usize = 0;
    while i < v.len()
        invariant
            i <= v.len(),
            rules_view(res@) == rules_view(v@.take(i as int)),
        decreases v.len() - i,
    {
        let ghost before = res@;
        res.push(v[i].duplicate());
        assert(rules_view(res@) =~= rules_view(before).push(v@[i as int]@));
        assert(rules_view(v@.take(i + 1)) =~= rules_view(v@.take(i as int)).push(v@[i as int]@));
        i = i + 1;
    }
    assert(v@.take(v@.len() as int) == v@);
    res
}

/// A translation strategy: which files it applies to, which model and
/// prompt it uses, and which terminology it applies first.
#[derive(Debug, Clone)]
pub struct TranslationStrategy {
    pub name: String,
    pub priority: i64,
    pub file_patterns: Vec<FilePatternRule>,
    pub model: String,
    pub prompt_file: String,
    pub terminology_file: Option<String>,
    pub extract_fields: Option<Vec<String>>,
}

/// The mathematical value of a strategy.
pub struct StrategyView {
    pub name: Seq<char>,
    pub priority: i64,
    pub file_patterns: Seq<RuleView>,
    pub model: Seq<char>,
    pub prompt_file: Seq<char>,
    pub terminology_file: Option<Seq<char>>,
    pub extract_fields: Option<Seq<Seq<char>>>,
}

/// The character view of an optional string.
pub open spec fn opt_str(o: Option<String>) -> Option<Seq<char>> {
    match o {
        Some(s) => Some(s@),
        None => None,
    }
}

impl View for TranslationStrategy {
    type V = StrategyView;

    open spec fn view(&self) -> StrategyView {
        StrategyView {
            name: self.name@,
            priority: self.priority,
            file_patterns: rules_view(self.file_patterns@),
            model: self.model@,
            prompt_file: self.prompt_file@,
            terminology_file: opt_str(self.terminology_file),
            extract_fields: fields_view(self.extract_fields),
        }
    }
}

/// The views of a sequence of strategies.
pub open spec fn strategies_view(v: Seq<TranslationStrategy>) -> Seq<StrategyView> {
    v.map_values(|s: TranslationStrategy| s@)
}

/// Copies an optional string.
pub fn copy_opt_string(o: &Option<String>) -> (res: Option<String>)
    ensures
        res == *o,
{
    match o {
        Some(s) => Some(s.clone()),
        None => None,
    }
}

impl TranslationStrategy {
    /// A copy of the strategy.
    pub fn duplicate(&self) -> (res: Self)
        ensures
            res@ == self@,
    {
        TranslationStrategy {
            name: self.name.clone(),
            priority: self.priority,
            file_patterns: copy_rules(&self.file_patterns),
            model: self.model.clone(),
            prompt_file: self.prompt_file.clone(),
            terminology_file: copy_opt_string(&self.terminology_file),
            extract_fields: copy_fields(&self.extract_fields),
        }
    }
}

/// The strategies of a workspace.
#[derive(Debug, Clone)]
pub struct TranslationConfigs {
    pub translation_strategies: Vec<TranslationStrategy>,
}

impl Default for TranslationConfigs {
    fn default() -> (res: Self)
        ensures
            res.translation_strategies.len() == 0,
    {
        TranslationConfigs { translation_strategies: Vec::new() }
    }
}

/// Keys that extraction skips.
#[derive(Debug, Clone)]
pub struct BlacklistConfig {
    pub blacklist: Vec<String>,
}

impl Default for BlacklistConfig {
    fn default() -> (res: Self)
        ensures
            res.blacklist.len() == 0,
    {
        BlacklistConfig { blacklist: Vec::new() }
    }
}

/// Source terms and their fixed translations, in ascending order of the
/// source term without repeats (the order of a sorted map).
#[derive(Debug, Clone)]
pub struct TerminologyDictionary {
    pub terminology: Vec<(String, String)>,
}

/// The character views of a list of term pairs.
pub open spec fn terms_view(v: Seq<(String, String)>) -> Seq<(Seq<char>, Seq<char>)> {
    v.map_values(|p: (String, String)| (p.0@, p.1@))
}

impl TerminologyDictionary {
    /// Source terms are in strictly ascending order.
    pub open spec fn well_formed(self) -> bool {
        keys_in_order(self.terminology@)
    }
}

impl Default for TerminologyDictionary {
    fn default() -> (res: Self)
        ensures
            res.terminology.len() == 0,
    {
        TerminologyDictionary { terminology: Vec::new() }
    }
}

// ---------------------------------------------------------------------------
// Resources and detection
// ---------------------------------------------------------------------------

/// A resource file in the workspace: its path relative to the workspace
/// root and its file name.
#[derive(Debug, Clone)]
pub struct ResourceFile {
    pub path: String,
    pub label: String,
}

/// The mathematical value of a resource file.
pub open spec fn resource_view(r: ResourceFile) -> (Seq<char>, Seq<char>) {
    (r.path@, r.label@)
}

/// The views of a sequence of resource files.
pub open spec fn resources_view(v: Seq<ResourceFile>) -> Seq<(Seq<char>, Seq<char>)> {
    v.map_values(|r: ResourceFile| resource_view(r))
}

/// The folders of a detected game installation.
#[derive(Debug, Clone)]
pub struct DetectedGamePaths {
    pub steam_library_root: String,
    pub game_root: String,
    pub localize_root: String,
    pub lang_root: String,
}

/// What was filled in from a detected game installation.
#[derive(Debug, Clone)]
pub struct AutoDetectedNotice {
    pub game_root: String,
    pub input_applied: bool,
    pub output_applied: bool,
}

/// The workspace chosen by the user.
#[derive(Debug, Clone)]
pub struct WorkspaceSelection {
    pub workspace_root: String,
}

/// A text resource and its content.
#[derive(Debug, Clone)]
pub struct TextResourcePayload {
    pub path: String,
    pub content: String,
}

/// A text resource to save.
#[derive(Debug, Clone)]
pub struct SaveTextResourcePayload {
    pub path: String,
    pub content: String,
}

/// A terminology file to save.
#[derive(Debug, Clone)]
pub struct SaveTerminologyPayload {
    pub path: String,
    pub payload: TerminologyDictionary,
}

/// Options of a translation run.
#[derive(Debug, Clone)]
pub struct TranslationRunOptions {
    pub workspace_root: Option<String>,
    pub dry_run: Option<bool>,
}

// ---------------------------------------------------------------------------
// Tasks
// ---------------------------------------------------------------------------

/// The phase of a translation task.
#[derive(Debug, Clone, Copy, PartialEq, Eq, Structural)]
pub enum TaskStatus {
    Idle,
    Running,
    Cancelling,
    Cancelled,
    Succeeded,
    Failed,
}

/// Progress counters of a task.
#[derive(Debug, Clone)]
pub struct TaskProgressSnapshot {
    pub scanned_files: usize,
    pub pending_chars: usize,
    pub completed_batches: usize,
    pub total_batches: usize,
    pub elapsed_ms: u128,
    pub output_directory: Option<String>,
}

/// Severity of a log entry.
#[derive(Debug, Clone, Copy, PartialEq, Eq, Structural)]
pub enum LogLevel {
    Info,
    Warn,
    Error,
}

/// A log entry of a task.
#[derive(Debug, Clone)]
pub struct TaskLogEntry {
    pub level: LogLevel,
    pub message: String,
    pub timestamp_ms: u128,
}

/// The outcome of a finished task.
#[derive(Debug, Clone)]
pub struct TaskSummary {
    pub translated_files: usize,
    pub translated_entries: usize,
    pub pending_chars: usize,
    pub output_directory: Option<String>,
    pub backup_directory: Option<String>,
    pub log_file: Option<String>,
    pub error: Option<UserFacingError>,
}

/// A translation task as reported to the user interface.
#[derive(Debug, Clone)]
pub struct TranslationTask {
    pub task_id: String,
    pub status: TaskStatus,
    pub progress: TaskProgressSnapshot,
    pub logs: Vec<TaskLogEntry>,
    pub summary: Option<TaskSummary>,
}

/// Everything the user interface shows about a workspace.
#[derive(Debug, Clone)]
pub struct AppStatePayload {
    pub workspace_root: String,
    pub current_config: AppConfig,
    pub models_config: ModelsConfig,
    pub translation_configs: TranslationConfigs,
    pub blacklist_config: BlacklistConfig,
    pub prompt_files: Vec<ResourceFile>,
    pub terminology_files: Vec<ResourceFile>,
    pub auto_detected_game: Option<DetectedGamePaths>,
    pub auto_detected_notice: Option<AutoDetectedNotice>,
    pub problems: Vec<UserFacingError>,
    pub current_task: Option<TranslationTask>,
}

} // verus!
