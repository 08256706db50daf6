use lclt_translator::batching::{plan_batches, TranslationRuntime, TranslationUnit};
use lclt_translator::models::{
    FilePatternRule, ModelProfile, ModelsConfig, TranslationStrategy, TEMPERATURE_0_3_BITS,
};
use lclt_translator::strategy::{
    matching_strategies, sort_strategies_by_priority, validate_references, wildcard_matches,
};
use lclt_translator::task::{pending_chars, plan_concurrency, should_report_progress};

fn strategy(name: &str, priority: i64, patterns: &[&str], model: &str) -> TranslationStrategy {
    TranslationStrategy {
        name: name.to_string(),
        priority,
        file_patterns: patterns
            .iter()
            .map(|p| FilePatternRule { pattern: p.to_string(), extract_fields: None })
            .collect(),
        model: model.to_string(),
        prompt_file: format!("prompts/{}.txt", name),
        terminology_file: None,
        extract_fields: None,
    }
}

fn names(v: &[TranslationStrategy]) -> Vec<String> {
    v.iter().map(|s| s.name.clone()).collect()
}

#[test]
fn wildcards_match_bytes() {
    assert!(wildcard_matches("*.json", "story/a.json"));
    assert!(wildcard_matches("a?c", "abc"));
    assert!(!wildcard_matches("a?c", "ac"));
    assert!(wildcard_matches("*", ""));
    assert!(!wildcard_matches("", "x"));
    assert!(wildcard_matches("Story*", "Story_01.json"));
    assert!(!wildcard_matches("Story*", "story_01.json"));
    // `?` stands for one byte, so a two-byte character needs two of them.
    assert!(!wildcard_matches("?", "é"));
    assert!(wildcard_matches("??", "é"));
}

#[test]
fn sorting_by_priority_is_stable() {
    let v = vec![
        strategy("c", 5, &[], "m"),
        strategy("a", 1, &[], "m"),
        strategy("d", 5, &[], "m"),
        strategy("b", -3, &[], "m"),
    ];
    assert_eq!(names(&sort_strategies_by_priority(&v)), vec!["b", "a", "c", "d"]);
}

#[test]
fn matching_uses_priority_order_and_file_names() {
    let mut with_fields = strategy("fields", 2, &["*Story*"], "m");
    with_fields.file_patterns[0].extract_fields = Some(vec!["content".to_string()]);
    let v = vec![
        strategy("default", 0, &[], "m"),
        with_fields,
        strategy("byname", 1, &["a.json"], "m"),
        strategy("other", 0, &["*.txt"], "m"),
    ];
    let matched = matching_strategies(&v, "dir/Story/a.json");
    assert_eq!(names(&matched), vec!["byname", "fields"]);
    assert_eq!(matched[1].extract_fields, Some(vec!["content".to_string()]));

    let fallback = matching_strategies(&v, "dir/b.json");
    assert_eq!(names(&fallback), vec!["default"]);

    let none = matching_strategies(&vec![strategy("x", 0, &["*.txt"], "m")], "b.json");
    assert!(none.is_empty());
}

fn profile(model: &str) -> ModelProfile {
    ModelProfile {
        api_key: "key".to_string(),
        base_url: "https://api.example".to_string(),
        model: model.to_string(),
        temperature_bits: TEMPERATURE_0_3_BITS,
        enable_thinking: false,
    }
}

#[test]
fn references_are_checked_in_order() {
    let models = ModelsConfig { models: vec![("main".to_string(), profile("gpt"))] };
    let mut with_terms = strategy("t", 0, &[], "main");
    with_terms.terminology_file = Some("terminology/t.json".to_string());
    let v = vec![strategy("ok", 0, &[], "main"), with_terms];

    assert!(validate_references(&v, &models, &vec![(true, false), (true, true)]).is_ok());

    let e = validate_references(&v, &models, &vec![(true, false), (true, false)]).unwrap_err();
    assert_eq!(e.title, "Missing Terminology");
    assert_eq!(e.message, "Strategy 't' references missing terminology 'terminology/t.json'.");

    let e = validate_references(&v, &models, &vec![(false, false), (true, true)]).unwrap_err();
    assert_eq!(e.title, "Missing Prompt");
    assert_eq!(e.message, "Strategy 'ok' references missing prompt 'prompts/ok.txt'.");

    let bad = vec![strategy("lost", 0, &[], "nowhere")];
    let e = validate_references(&bad, &models, &vec![(true, true)]).unwrap_err();
    assert_eq!(e.title, "Invalid Strategy Reference");
    assert_eq!(e.message, "Strategy 'lost' references missing model 'nowhere'.");
}

fn runtime(model: &str, prompt_text: &str) -> TranslationRuntime {
    TranslationRuntime {
        api_key: "k".to_string(),
        base_url: "u".to_string(),
        model: model.to_string(),
        temperature_bits: TEMPERATURE_0_3_BITS,
        enable_thinking: false,
        prompt_file: "p.txt".to_string(),
        prompt_text: prompt_text.to_string(),
    }
}

fn unit(i: usize, text: &str, model: &str) -> TranslationUnit {
    TranslationUnit { unit_index: i, prepared_text: text.to_string(), runtime: runtime(model, "") }
}

#[test]
fn batches_group_by_model_and_respect_the_size_limit() {
    let units = vec![
        unit(0, "aaaa", "m1"),
        unit(1, "bbb", "m2"),
        unit(2, "cc", "m1"),
        unit(3, "dddddddddd", "m1"),
        unit(4, "e", "m1"),
    ];
    let batches = plan_batches(&units, 6);
    let shape: Vec<(usize, Vec<usize>, String)> = batches
        .iter()
        .map(|b| (b.batch_index, b.unit_indices.clone(), b.runtime.model.clone()))
        .collect();
    assert_eq!(
        shape,
        vec![
            (0, vec![0, 2], "m1".to_string()),
            (1, vec![3], "m1".to_string()),
            (2, vec![4], "m1".to_string()),
            (3, vec![1], "m2".to_string()),
        ]
    );
    assert_eq!(batches[0].texts, vec!["aaaa", "cc"]);
}

#[test]
fn every_unit_is_planned_exactly_once() {
    let units: Vec<TranslationUnit> = (0..20)
        .map(|i| unit(i, &"x".repeat(i % 7 + 1), if i % 3 == 0 { "a" } else { "b" }))
        .collect();
    let batches = plan_batches(&units, 9);
    let mut seen: Vec<usize> = batches.iter().flat_map(|b| b.unit_indices.clone()).collect();
    seen.sort();
    assert_eq!(seen, (0..20).collect::<Vec<_>>());
    for b in &batches {
        assert!(!b.unit_indices.is_empty());
        let size: usize = b.texts.iter().map(|t| t.len()).sum();
        assert!(b.unit_indices.len() == 1 || size <= 9);
    }
}

#[test]
fn units_differing_only_in_prompt_text_share_a_batch() {
    let mut second = unit(1, "b", "m");
    second.runtime.prompt_text = "other prompt".to_string();
    let units = vec![unit(0, "a", "m"), second];
    let batches = plan_batches(&units, 100);
    assert_eq!(batches.len(), 1);
    assert_eq!(batches[0].unit_indices, vec![0, 1]);
    assert_eq!(batches[0].runtime.prompt_text, "");
}

#[test]
fn pending_characters_count_utf8_bytes() {
    let units = vec![unit(0, "ab", "m"), unit(1, "é", "m"), unit(2, "", "m")];
    assert_eq!(pending_chars(&units), Some(4));
    assert_eq!(pending_chars(&vec![]), Some(0));
}

#[test]
fn concurrency_is_capped() {
    let p = plan_concurrency(0, 0);
    assert_eq!((p.requested_workers, p.concurrency, p.verbose_batch_logs), (1, 1, true));
    let p = plan_concurrency(256, 10);
    assert_eq!((p.requested_workers, p.concurrency, p.verbose_batch_logs), (256, 10, true));
    let p = plan_concurrency(100_000, 50_000);
    assert_eq!((p.requested_workers, p.concurrency, p.verbose_batch_logs), (100_000, 32_768, false));
    let p = plan_concurrency(8, 513);
    assert_eq!((p.requested_workers, p.concurrency, p.verbose_batch_logs), (8, 8, false));
    let p = plan_concurrency(8, 512);
    assert!(p.verbose_batch_logs);
}

#[test]
fn progress_is_reported_every_thousand_batches_when_not_verbose() {
    assert!(should_report_progress(false, 999));
    assert!(should_report_progress(false, 1999));
    assert!(!should_report_progress(false, 1000));
    assert!(!should_report_progress(true, 999));
}
