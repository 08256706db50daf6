use lclt_translator::batching::{TranslationBatch, TranslationRuntime};
use lclt_translator::json::{JsonValue, JsonNumber};
use lclt_translator::models::TEMPERATURE_0_3_BITS;
use lclt_translator::response::{
    attempt_failed_error, batch_translations, batch_user_content, check_runtime,
    fallback_translations, missing_content_error, next_attempt, parse_translations,
    rejected_batch_error, response_content, unknown_request_error, unreadable_reply_error,
};
use lclt_translator::terminology::apply_terminology;

fn sorted(mut v: Vec<(usize, String)>) -> Vec<(usize, String)> {
    v.sort();
    v
}

#[test]
fn numbered_replies_are_parsed() {
    let reply = "1. Bonjour\n---\n2) Le\nmonde\n---\n3、 fin";
    assert_eq!(
        sorted(parse_translations(reply)),
        vec![
            (0, "Bonjour".to_string()),
            (1, "Le\nmonde".to_string()),
            (2, "fin".to_string()),
        ]
    );
}

#[test]
fn thinking_blocks_and_stray_lines_are_ignored() {
    let reply = "preamble\n<thinking>1. not this\n</thinking>\n  2. deux  \n\n   \n";
    assert_eq!(parse_translations(reply), vec![(1, "deux".to_string())]);
}

#[test]
fn a_number_without_text_takes_the_following_lines() {
    assert_eq!(parse_translations("1.\nline a\nline b"), vec![(0, "line a\nline b".to_string())]);
    assert_eq!(parse_translations("0. zero"), vec![(0, "zero".to_string())]);
    assert!(parse_translations("1.\n---").is_empty());
    assert!(parse_translations("").is_empty());
}

fn runtime(api_key: &str, base_url: &str, model: &str) -> TranslationRuntime {
    TranslationRuntime {
        api_key: api_key.to_string(),
        base_url: base_url.to_string(),
        model: model.to_string(),
        temperature_bits: TEMPERATURE_0_3_BITS,
        enable_thinking: false,
        prompt_file: "p".to_string(),
        prompt_text: "system".to_string(),
    }
}

#[test]
fn model_slots_need_key_url_and_model() {
    assert!(check_runtime(&runtime("k", "u", "m")).is_ok());
    let e = check_runtime(&runtime(" ", "u", "gpt")).unwrap_err();
    assert_eq!((e.title.as_str(), e.message.as_str()), ("Model Config Error", "Model 'gpt' is missing an API key."));
    let e = check_runtime(&runtime("k", "", "gpt")).unwrap_err();
    assert_eq!(e.message, "Model 'gpt' is missing a base URL.");
    let e = check_runtime(&runtime("k", "u", "  ")).unwrap_err();
    assert_eq!(e.message, "The selected model slot does not declare a model id.");
}

#[test]
fn the_user_message_numbers_each_text() {
    let texts = vec!["a".to_string(), "b c".to_string()];
    assert_eq!(batch_user_content(&texts), "1. a\n---\n2. b c\n---\n");
    assert_eq!(batch_user_content(&vec![]), "");
}

fn obj(members: Vec<(&str, JsonValue)>) -> JsonValue {
    JsonValue::Object(members.into_iter().map(|(k, v)| (k.to_string(), v)).collect())
}

#[test]
fn reply_content_is_read_from_the_first_choice() {
    let payload = obj(vec![(
        "choices",
        JsonValue::Array(vec![obj(vec![(
            "message",
            obj(vec![("role", JsonValue::Str("assistant".into())), ("content", JsonValue::Str("1. x".into()))]),
        )])]),
    )]);
    assert_eq!(response_content(&payload), Some("1. x".to_string()));
    let empty = obj(vec![("choices", JsonValue::Array(vec![]))]);
    assert_eq!(response_content(&empty), None);
    let not_text = obj(vec![(
        "choices",
        JsonValue::Array(vec![obj(vec![(
            "message",
            obj(vec![("content", JsonValue::Number(JsonNumber { int_value: Some(1), text: "1".into() }))]),
        )])]),
    )]);
    assert_eq!(response_content(&not_text), None);
}

fn batch() -> TranslationBatch {
    TranslationBatch {
        batch_index: 4,
        unit_indices: vec![10, 11, 12],
        texts: vec!["a".to_string(), "b".to_string(), "c".to_string()],
        runtime: runtime("k", "u", "m"),
    }
}

#[test]
fn missing_translations_fall_back_to_the_source() {
    let found = vec![(0usize, "A".to_string()), (2usize, "C".to_string()), (7usize, "Z".to_string())];
    assert_eq!(
        batch_translations(&batch(), &found),
        vec![(10, "A".to_string()), (11, "b".to_string()), (12, "C".to_string())]
    );
    assert_eq!(
        fallback_translations(&batch()),
        vec![(10, "a".to_string()), (11, "b".to_string()), (12, "c".to_string())]
    );
}

#[test]
fn request_errors_name_the_batch_from_one() {
    let e = rejected_batch_error(4, "gpt", "HTTP 500");
    assert_eq!(e.title, "Translation Request Failed");
    assert_eq!(e.message, "The provider rejected batch 5 for model 'gpt'.");
    assert_eq!(e.details, Some("HTTP 500".to_string()));
    let e = attempt_failed_error(0, "gpt", 2, "timeout");
    assert_eq!(e.message, "Batch 1 for model 'gpt' failed after request attempt 3.");
    let e = unreadable_reply_error("eof");
    assert_eq!((e.title.as_str(), e.message.as_str()), ("Translation Response Error", "The provider returned an unreadable JSON payload."));
    let e = missing_content_error("{}");
    assert_eq!(e.message, "The provider response did not include choices[0].message.content.");
    assert_eq!(e.details, Some("{}".to_string()));
    let e = unknown_request_error();
    assert_eq!(e.message, "The provider request failed for an unknown reason.");
}

#[test]
fn retries_allow_max_retries_plus_one_attempts() {
    assert_eq!(next_attempt(0, 2), Some(1));
    assert_eq!(next_attempt(1, 2), Some(2));
    assert_eq!(next_attempt(2, 2), None);
    assert_eq!(next_attempt(0, 0), None);
}

fn terms(pairs: &[(&str, &str)]) -> Vec<(String, String)> {
    pairs.iter().map(|(a, b)| (a.to_string(), b.to_string())).collect()
}

#[test]
fn terminology_prefers_longer_terms() {
    let t = terms(&[("Dante", "但丁"), ("Dante's", "但丁的"), ("L.C.", "边狱公司")]);
    assert_eq!(apply_terminology("Dante's clock at L.C. and Dante", &t), "但丁的 clock at 边狱公司 and 但丁");
}

#[test]
fn terminology_treats_sources_literally() {
    let t = terms(&[("a.b", "X")]);
    assert_eq!(apply_terminology("a.b acb", &t), "X acb");
    assert_eq!(apply_terminology("", &t), "");
    assert_eq!(apply_terminology("abc", &vec![]), "abc");
}
