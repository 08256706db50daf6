use lclt_translator::models::TranslationStrategy;
use lclt_translator::task::{
    batch_completed_message, batch_failed_message, capped_workers_message, dispatch_message,
    fallback_batches_message, found_files_message, missing_prompt_error,
    missing_terminology_error, prepared_message, progress_message, prompt_files_to_load,
    scanned_file_key, terminology_files_to_load,
};

#[test]
fn run_messages_read_as_before() {
    assert_eq!(found_files_message(3), "Found 3 files with new entries.");
    assert_eq!(
        prepared_message(12, 2, 256, 2, true),
        "Prepared 12 translation units across 2 batch(es). Requested workers: 256; active concurrent batches: 2; log mode: verbose."
    );
    assert_eq!(
        prepared_message(1, 600, 8, 8, false),
        "Prepared 1 translation units across 600 batch(es). Requested workers: 8; active concurrent batches: 8; log mode: aggregated."
    );
    assert_eq!(
        capped_workers_message(256, 2),
        "Requested max_workers=256 exceeds the Rust extreme cap or batch count. Running with 2 concurrent batches."
    );
    assert_eq!(dispatch_message(0, 3, "gpt"), "Dispatching batch 1 with 3 item(s) on model 'gpt'.");
    assert_eq!(batch_completed_message(1, 2), "Batch 2 completed in 2 attempt(s).");
    assert_eq!(
        batch_failed_message(2, "timeout"),
        "Batch 3 failed after retries. Falling back to source text. timeout"
    );
    assert_eq!(
        progress_message(999),
        "Processed at least 1000 batch dispatch slots under aggregated extreme logging."
    );
    assert_eq!(
        fallback_batches_message(4),
        "4 batch(es) used source-text fallback because the provider failed or was cancelled."
    );
}

fn strategy(prompt: &str, terms: Option<&str>) -> TranslationStrategy {
    TranslationStrategy {
        name: "s".to_string(),
        priority: 0,
        file_patterns: vec![],
        model: "m".to_string(),
        prompt_file: prompt.to_string(),
        terminology_file: terms.map(|t| t.to_string()),
        extract_fields: None,
    }
}

#[test]
fn resource_files_are_read_once_each() {
    let v = vec![
        strategy("p/b.txt", Some("t/x.json")),
        strategy("p/a.txt", None),
        strategy("p/b.txt", Some("t/y.json")),
        strategy("p/a.txt", Some("t/x.json")),
    ];
    assert_eq!(prompt_files_to_load(&v), vec!["p/b.txt", "p/a.txt"]);
    assert_eq!(terminology_files_to_load(&v), vec!["t/x.json", "t/y.json"]);
    let e = missing_prompt_error("p/c.txt");
    assert_eq!((e.title.as_str(), e.message.as_str()), ("Missing Prompt", "Strategy references missing prompt 'p/c.txt'."));
    let e = missing_terminology_error("t/z.json");
    assert_eq!(e.message, "Strategy references missing terminology 't/z.json'.");
}

#[test]
fn scanned_files_are_keyed_by_their_path_below_the_root() {
    assert_eq!(scanned_file_key("/in/jp", "/in/jp/story/KR_a.JSON"), Some("story/KR_a.JSON".to_string()));
    assert_eq!(scanned_file_key("/in/jp", "/in/jp/a.json"), Some("a.json".to_string()));
    assert_eq!(scanned_file_key("/in/jp", "/elsewhere/b.json"), Some("/elsewhere/b.json".to_string()));
    assert_eq!(scanned_file_key("/in/jp", "/in/jp/readme.txt"), None);
    assert_eq!(scanned_file_key("/in/jp", "/in/jp/.json"), None);
}
