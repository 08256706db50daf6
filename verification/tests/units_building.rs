use lclt_translator::json::{JsonValue, PathSegment};
use lclt_translator::models::{
    ModelProfile, ModelsConfig, TerminologyDictionary, TranslationStrategy, TEMPERATURE_0_3_BITS,
};
use lclt_translator::units::{build_units, file_kept_candidates};

fn obj(members: Vec<(&str, JsonValue)>) -> JsonValue {
    JsonValue::Object(members.into_iter().map(|(k, v)| (k.to_string(), v)).collect())
}

fn s(text: &str) -> JsonValue {
    JsonValue::Str(text.to_string())
}

fn strategy(name: &str, model: &str, fields: Option<Vec<&str>>, terms: Option<&str>) -> TranslationStrategy {
    TranslationStrategy {
        name: name.to_string(),
        priority: 0,
        file_patterns: vec![],
        model: model.to_string(),
        prompt_file: format!("{}.txt", name),
        terminology_file: terms.map(|t| t.to_string()),
        extract_fields: fields.map(|f| f.into_iter().map(|x| x.to_string()).collect()),
    }
}

fn show_path(p: &[PathSegment]) -> String {
    p.iter()
        .map(|seg| match seg {
            PathSegment::Key(k) => format!(".{}", k),
            PathSegment::Index(i) => format!("[{}]", i),
        })
        .collect()
}

fn models() -> ModelsConfig {
    ModelsConfig {
        models: vec![(
            "main".to_string(),
            ModelProfile {
                api_key: "k".to_string(),
                base_url: "u".to_string(),
                model: "gpt".to_string(),
                temperature_bits: TEMPERATURE_0_3_BITS,
                enable_thinking: true,
            },
        )],
    }
}

fn content() -> JsonValue {
    obj(vec![(
        "dataList",
        JsonValue::Array(vec![
            obj(vec![("title", s("Dante")), ("desc", s("text"))]),
            obj(vec![("title", s("Second"))]),
        ]),
    )])
}

#[test]
fn each_text_is_kept_once_by_the_first_strategy_that_finds_it() {
    let matched = vec![
        strategy("titles", "main", Some(vec!["title"]), None),
        strategy("all", "main", None, None),
    ];
    let kept = file_kept_candidates(&content(), &matched, &vec![]);
    let shown: Vec<(usize, String, String)> =
        kept.iter().map(|c| (c.strategy, show_path(&c.entry.path), c.entry.text.clone())).collect();
    assert_eq!(
        shown,
        vec![
            (0, "[0].title".to_string(), "Dante".to_string()),
            (1, "[0].desc".to_string(), "text".to_string()),
            (0, "[1].title".to_string(), "Second".to_string()),
        ]
    );
    assert!(file_kept_candidates(&obj(vec![]), &matched, &vec![]).is_empty());
}

#[test]
fn units_carry_terminology_model_and_prompt() {
    let matched = vec![strategy("titles", "main", Some(vec!["title"]), Some("t.json"))];
    let files = vec![file_kept_candidates(&content(), &matched, &vec![])];
    let prompts = vec![("titles.txt".to_string(), "Translate.".to_string())];
    let terms = vec![(
        "t.json".to_string(),
        TerminologyDictionary { terminology: vec![("Dante".to_string(), "但丁".to_string())] },
    )];
    let (units, reps) = build_units(&files, &vec![matched], &models(), &prompts, &terms).unwrap();
    assert_eq!(units.len(), 2);
    assert_eq!(units[0].prepared_text, "但丁");
    assert_eq!(units[1].prepared_text, "Second");
    assert_eq!(units[1].unit_index, 1);
    assert_eq!(units[0].runtime.model, "gpt");
    assert!(units[0].runtime.enable_thinking);
    assert_eq!(units[0].runtime.prompt_text, "Translate.");
    assert_eq!(reps.len(), 1);
    assert_eq!(reps[0].len(), 2);
    assert_eq!(reps[0][0].unit_index, 0);
    assert_eq!(reps[0][0].fallback_text, "Dante");
    assert_eq!(show_path(&reps[0][1].path), "[1].title");
}

#[test]
fn a_missing_model_stops_the_build() {
    let matched = vec![strategy("lost", "nowhere", None, None)];
    let files = vec![file_kept_candidates(&content(), &matched, &vec![])];
    let e = build_units(&files, &vec![matched], &models(), &vec![], &vec![]).unwrap_err();
    assert_eq!(e.title, "Invalid Strategy Reference");
    assert_eq!(e.message, "Strategy 'lost' references missing model 'nowhere'.");
}
