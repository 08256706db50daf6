use lclt_translator::deltas::find_deltas;
use lclt_translator::json::{
    extract_text, set_text_in_list, ExtractedEntry, JsonNumber, JsonValue, PathSegment,
};
use lclt_translator::task::{apply_replacements, apply_to_content};
use lclt_translator::units::PendingReplacement;

fn s(text: &str) -> JsonValue {
    JsonValue::Str(text.to_string())
}

fn num(n: i64) -> JsonValue {
    JsonValue::Number(JsonNumber { int_value: Some(n), text: n.to_string() })
}

fn obj(members: Vec<(&str, JsonValue)>) -> JsonValue {
    JsonValue::Object(members.into_iter().map(|(k, v)| (k.to_string(), v)).collect())
}

fn show(v: &JsonValue) -> String {
    match v {
        JsonValue::Null => "null".to_string(),
        JsonValue::Bool(b) => b.to_string(),
        JsonValue::Number(n) => n.text.clone(),
        JsonValue::Str(t) => format!("{:?}", t),
        JsonValue::Array(items) => {
            format!("[{}]", items.iter().map(show).collect::<Vec<_>>().join(","))
        }
        JsonValue::Object(m) => format!(
            "{{{}}}",
            m.iter().map(|(k, v)| format!("{:?}:{}", k, show(v))).collect::<Vec<_>>().join(",")
        ),
    }
}

fn show_path(p: &[PathSegment]) -> String {
    p.iter()
        .map(|seg| match seg {
            PathSegment::Key(k) => format!(".{}", k),
            PathSegment::Index(i) => format!("[{}]", i),
        })
        .collect()
}

fn show_entries(v: &[ExtractedEntry]) -> Vec<(String, String)> {
    v.iter().map(|e| (show_path(&e.path), e.text.clone())).collect()
}

fn sample_item() -> JsonValue {
    obj(vec![
        ("id", num(1)),
        ("title", s("Hello")),
        ("model", s("skip me")),
        ("lines", JsonValue::Array(vec![s("one"), obj(vec![("content", s("two"))])])),
    ])
}

#[test]
fn extract_without_fields_takes_every_string_outside_the_blacklist() {
    let blacklist = vec!["model".to_string()];
    let entries = extract_text(&sample_item(), &blacklist, &vec![PathSegment::Index(0)], &None);
    assert_eq!(
        show_entries(&entries),
        vec![
            ("[0].title".to_string(), "Hello".to_string()),
            ("[0].lines[0]".to_string(), "one".to_string()),
            ("[0].lines[1].content".to_string(), "two".to_string()),
        ]
    );
}

#[test]
fn extract_with_fields_takes_only_named_string_members() {
    let fields = Some(vec!["content".to_string(), "title".to_string()]);
    let entries = extract_text(&sample_item(), &vec![], &vec![], &fields);
    assert_eq!(
        show_entries(&entries),
        vec![
            (".title".to_string(), "Hello".to_string()),
            (".lines[1].content".to_string(), "two".to_string()),
        ]
    );
}

#[test]
fn writing_a_text_replaces_it_in_place() {
    let mut list = vec![sample_item()];
    let path = vec![
        PathSegment::Index(0),
        PathSegment::Key("lines".to_string()),
        PathSegment::Index(1),
        PathSegment::Key("content".to_string()),
    ];
    assert!(set_text_in_list(&mut list, &path, "deux".to_string()).is_ok());
    let again = extract_text(&list[0], &vec![], &vec![], &Some(vec!["content".to_string()]));
    assert_eq!(show_entries(&again), vec![(".lines[1].content".to_string(), "deux".to_string())]);
}

#[test]
fn writing_through_a_bad_path_reports_the_problem() {
    let mut list = vec![sample_item()];
    let before = show(&list[0]);

    let e = set_text_in_list(&mut list, &vec![PathSegment::Index(3)], "x".to_string()).unwrap_err();
    assert_eq!(e.title, "Path Error");
    assert_eq!(e.message, "Could not locate target entry for translated text.");

    let e = set_text_in_list(&mut list, &vec![PathSegment::Key("a".to_string())], "x".to_string())
        .unwrap_err();
    assert_eq!(e.message, "Invalid translation path.");

    let missing = vec![PathSegment::Index(0), PathSegment::Key("nope".to_string())];
    let e = set_text_in_list(&mut list, &missing, "x".to_string()).unwrap_err();
    assert_eq!(e.message, "Missing field 'nope'.");

    let past_end = vec![
        PathSegment::Index(0),
        PathSegment::Key("lines".to_string()),
        PathSegment::Index(9),
    ];
    let e = set_text_in_list(&mut list, &past_end, "x".to_string()).unwrap_err();
    assert_eq!(e.message, "Missing list index 9.");

    let into_text = vec![
        PathSegment::Index(0),
        PathSegment::Key("title".to_string()),
        PathSegment::Key("deeper".to_string()),
    ];
    let e = set_text_in_list(&mut list, &into_text, "x".to_string()).unwrap_err();
    assert_eq!(e.message, "Encountered non-container value while writing translation.");

    assert_eq!(show(&list[0]), before);
    assert!(set_text_in_list(&mut list, &vec![], "x".to_string()).is_ok());
    assert_eq!(show(&list[0]), before);
}

fn file(items: Vec<JsonValue>) -> JsonValue {
    obj(vec![("dataList", JsonValue::Array(items)), ("meta", s("m"))])
}

#[test]
fn deltas_keep_only_entries_not_yet_translated() {
    let origin = vec![
        (
            "KR_story\\JP_a.json".to_string(),
            file(vec![
                obj(vec![("id", num(1)), ("t", s("old"))]),
                obj(vec![("id", num(2)), ("t", s("new"))]),
                obj(vec![("t", s("no id"))]),
            ]),
        ),
        ("b.json".to_string(), file(vec![obj(vec![("id", num(5))])])),
        ("c.json".to_string(), obj(vec![("other", s("x"))])),
    ];
    let existing = vec![
        ("story/a.json".to_string(), file(vec![obj(vec![("id", num(1))])])),
        ("EN_b.json".to_string(), file(vec![obj(vec![("id", num(5))])])),
    ];
    let deltas = find_deltas(&origin, &existing, "out").unwrap();
    assert_eq!(deltas.len(), 1);
    assert_eq!(deltas[0].rel_path, "story/a.json");
    assert_eq!(deltas[0].output_path, "out/story/a.json");
    assert_eq!(
        show(&deltas[0].content),
        "{\"dataList\":[{\"id\":2,\"t\":\"new\"},{\"t\":\"no id\"}],\"meta\":\"m\"}"
    );
}

#[test]
fn a_file_without_translation_is_entirely_new() {
    let origin = vec![("x.json".to_string(), file(vec![obj(vec![("id", num(3))])]))];
    let deltas = find_deltas(&origin, &vec![], "").unwrap();
    assert_eq!(deltas.len(), 1);
    assert!(lclt_translator::json::is_well_formed(&deltas[0].content));
    assert_eq!(deltas[0].output_path, "x.json");
}

fn replacement(unit: usize, path: Vec<PathSegment>, fallback: &str) -> PendingReplacement {
    PendingReplacement { unit_index: unit, path, fallback_text: fallback.to_string() }
}

#[test]
fn replacements_use_translations_or_fall_back_to_the_source() {
    let content = file(vec![obj(vec![("a", s("x")), ("b", s("y"))])]);
    let reps = vec![
        replacement(4, vec![PathSegment::Index(0), PathSegment::Key("a".to_string())], "x"),
        replacement(5, vec![PathSegment::Index(0), PathSegment::Key("b".to_string())], "y-src"),
    ];
    let translated = vec![(4usize, "X!".to_string()), (9usize, "unused".to_string())];
    let (out, r) = apply_to_content(content, &reps, &translated);
    assert_eq!(r.unwrap(), true);
    assert_eq!(show(&out), "{\"dataList\":[{\"a\":\"X!\",\"b\":\"y-src\"}],\"meta\":\"m\"}");
}

#[test]
fn a_document_without_entries_is_left_alone() {
    let content = obj(vec![("meta", s("m"))]);
    let (out, r) = apply_to_content(content, &vec![], &vec![]);
    assert_eq!(r.unwrap(), false);
    assert_eq!(show(&out), "{\"meta\":\"m\"}");
}

#[test]
fn replacements_stop_at_the_first_bad_path() {
    let mut list = vec![obj(vec![("a", s("x"))])];
    let reps = vec![
        replacement(0, vec![PathSegment::Index(0), PathSegment::Key("a".to_string())], "x"),
        replacement(1, vec![PathSegment::Index(7)], "y"),
        replacement(2, vec![PathSegment::Index(0), PathSegment::Key("a".to_string())], "z"),
    ];
    let translated = vec![(0usize, "first".to_string()), (2usize, "third".to_string())];
    let e = apply_replacements(&mut list, &reps, &translated).unwrap_err();
    assert_eq!(e.title, "Path Error");
    assert_eq!(show(&list[0]), "{\"a\":\"first\"}");
}

#[test]
fn writing_back_extracted_texts_changes_nothing() {
    let mut list = vec![sample_item()];
    let before = show(&list[0]);
    let entries = extract_text(&list[0], &vec![], &vec![PathSegment::Index(0)], &None);
    for e in &entries {
        assert!(set_text_in_list(&mut list, &e.path, e.text.clone()).is_ok());
    }
    assert_eq!(show(&list[0]), before);
}
