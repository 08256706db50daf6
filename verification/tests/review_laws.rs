use lclt_translator::batching::{TranslationBatch, TranslationRuntime};
use lclt_translator::json::{is_well_formed, JsonNumber, JsonValue};
use lclt_translator::models::{entries_in_order, TEMPERATURE_0_3_BITS};
use lclt_translator::paths::normalize_rel_path;
use lclt_translator::response::{batch_user_content, parse_translations, request_body};
use lclt_translator::task::{count_written_file, nothing_to_translate, record_outcome, run_summary};

#[test]
fn normalised_paths_settle() {
    for p in ["KR_dir\\JP_KR_a.json", "a\\\\b/EN_c", "", "/x/", "JP_"] {
        let n = normalize_rel_path(p);
        assert!(!n.contains('\\'));
        assert_eq!(normalize_rel_path(&n), n);
    }
    assert_eq!(normalize_rel_path("KR_dir\\JP_KR_a.json"), "dir/a.json");
}

#[test]
fn a_request_message_reads_back_as_its_texts() {
    let texts = vec!["  Bonjour ".to_string(), "le monde".to_string(), "x".to_string()];
    let message = batch_user_content(&texts);
    let mut back = parse_translations(&message);
    back.sort();
    assert_eq!(
        back,
        vec![(0, "Bonjour".to_string()), (1, "le monde".to_string()), (2, "x".to_string())]
    );
}

fn obj(members: Vec<(&str, JsonValue)>) -> JsonValue {
    JsonValue::Object(members.into_iter().map(|(k, v)| (k.to_string(), v)).collect())
}

#[test]
fn repeated_keys_are_detected() {
    let good = obj(vec![("a", JsonValue::Array(vec![obj(vec![("b", JsonValue::Null)])])), ("c", JsonValue::Bool(true))]);
    assert!(is_well_formed(&good));
    let bad = JsonValue::Array(vec![obj(vec![("a", JsonValue::Null), ("a", JsonValue::Null)])]);
    assert!(!is_well_formed(&bad));
}

fn show(v: &JsonValue) -> String {
    match v {
        JsonValue::Null => "null".to_string(),
        JsonValue::Bool(b) => b.to_string(),
        JsonValue::Number(n) => n.text.clone(),
        JsonValue::Str(t) => format!("{:?}", t),
        JsonValue::Array(items) => format!("[{}]", items.iter().map(show).collect::<Vec<_>>().join(",")),
        JsonValue::Object(m) => format!(
            "{{{}}}",
            m.iter().map(|(k, v)| format!("{:?}:{}", k, show(v))).collect::<Vec<_>>().join(",")
        ),
    }
}

#[test]
fn the_request_body_carries_model_prompt_texts_and_switches() {
    let mut batch = TranslationBatch {
        batch_index: 0,
        unit_indices: vec![0],
        texts: vec!["hi".to_string()],
        runtime: TranslationRuntime {
            api_key: "k".to_string(),
            base_url: "u".to_string(),
            model: "gpt".to_string(),
            temperature_bits: TEMPERATURE_0_3_BITS,
            enable_thinking: false,
            prompt_file: "p".to_string(),
            prompt_text: "Translate.".to_string(),
        },
    };
    let t = || JsonNumber { int_value: None, text: "0.3".to_string() };
    assert_eq!(
        show(&request_body(&batch, t())),
        "{\"model\":\"gpt\",\"messages\":[{\"role\":\"system\",\"content\":\"Translate.\"},{\"role\":\"user\",\"content\":\"1. hi\\n---\\n\"}],\"temperature\":0.3,\"max_tokens\":8192}"
    );
    batch.runtime.enable_thinking = true;
    assert!(show(&request_body(&batch, t())).ends_with(",\"max_tokens\":8192,\"thinking\":true}"));
}

#[test]
fn run_bookkeeping() {
    assert!(nothing_to_translate(0, 5));
    assert!(nothing_to_translate(2, 0));
    assert!(!nothing_to_translate(1, 1));
    let mut translated = vec![(0usize, "a".to_string())];
    let mut fallback = 0usize;
    record_outcome(&mut translated, &mut fallback, vec![(1, "b".to_string())], true);
    record_outcome(&mut translated, &mut fallback, vec![(2, "c".to_string())], false);
    assert_eq!(translated.len(), 3);
    assert_eq!(translated[2], (2, "c".to_string()));
    assert_eq!(fallback, 1);
    assert_eq!(count_written_file(4, true), 5);
    assert_eq!(count_written_file(4, false), 4);
    let s = run_summary(2, 7, "out".to_string(), "bak".to_string(), "log".to_string());
    assert_eq!((s.translated_files, s.translated_entries, s.pending_chars), (2, 7, 0));
    assert_eq!(s.output_directory, Some("out".to_string()));
    assert!(s.error.is_none());
}

#[test]
fn map_entries_are_checked_for_order() {
    let ok = vec![("a".to_string(), 1), ("b".to_string(), 2), ("ba".to_string(), 3)];
    assert!(entries_in_order(&ok));
    let repeated = vec![("a".to_string(), 1), ("a".to_string(), 2)];
    assert!(!entries_in_order(&repeated));
    let unsorted = vec![("b".to_string(), 1), ("a".to_string(), 2)];
    assert!(!entries_in_order(&unsorted));
    assert!(entries_in_order::<u8>(&vec![]));
}
