use spectra::probe::extract::{extract_metadata, try_extract_metadata};
use spectra::probe::schema::{Extraction, ExtractionKind};

fn get<'a>(m: &'a [(String, String)], k: &str) -> Option<&'a String> {
    m.iter().find(|(n, _)| n == k).map(|(_, v)| v)
}

#[test]
fn test_json_pointer_extraction() {
    let json = r#"{"user": {"name": "Alice", "bio": "Developer"}}"#;
    let extractions = vec![Extraction {
        name: "name".to_string(),
        selector: "/user/name".to_string(),
        kind: ExtractionKind::JsonPointer { pointer: "/user/name".to_string() },
    }];
    let result = extract_metadata(&extractions, json, "");
    assert_eq!(get(&result, "name"), Some(&"Alice".to_string()));
}

#[test]
fn test_regex_extraction() {
    let html = r#"<span class="username">@johndoe</span>"#;
    let extractions = vec![Extraction {
        name: "username".to_string(),
        selector: r#"class="username">([^<]+)"#.to_string(),
        kind: ExtractionKind::Regex { pattern: r#"class="username">([^<]+)"#.to_string() },
    }];
    let result = extract_metadata(&extractions, html, "");
    assert_eq!(get(&result, "username"), Some(&"@johndoe".to_string()));
}

#[test]
fn attribute_text_and_non_string_extraction() {
    let html = r#"<img src='avatar.png' alt="x">"#;
    let extractions = vec![
        Extraction { name: "avatar".to_string(), selector: String::new(), kind: ExtractionKind::Attribute { attr: "src".to_string() } },
        Extraction { name: "raw".to_string(), selector: String::new(), kind: ExtractionKind::Text },
        Extraction { name: "missing".to_string(), selector: String::new(), kind: ExtractionKind::Attribute { attr: "href".to_string() } },
    ];
    let result = extract_metadata(&extractions, html, "");
    assert_eq!(get(&result, "avatar"), Some(&"avatar.png".to_string()));
    assert_eq!(get(&result, "raw"), Some(&html.to_string()));
    assert_eq!(get(&result, "missing"), None);
    let json = r#"{"n": 3, "o": {"b": 1, "a": [true]}}"#;
    let ex = vec![
        Extraction { name: "n".to_string(), selector: String::new(), kind: ExtractionKind::JsonPointer { pointer: "/n".to_string() } },
        Extraction { name: "o".to_string(), selector: String::new(), kind: ExtractionKind::JsonPointer { pointer: "/o".to_string() } },
    ];
    let result = extract_metadata(&ex, json, "");
    assert_eq!(get(&result, "n"), Some(&"3".to_string()));
    assert_eq!(get(&result, "o"), Some(&r#"{"a":[true],"b":1}"#.to_string()));
}

#[test]
fn later_extraction_replaces_same_name() {
    let body = "abc 123";
    let ex = vec![
        Extraction { name: "v".to_string(), selector: String::new(), kind: ExtractionKind::Regex { pattern: "([a-z]+)".to_string() } },
        Extraction { name: "v".to_string(), selector: String::new(), kind: ExtractionKind::Regex { pattern: "([0-9]+)".to_string() } },
    ];
    let result = extract_metadata(&ex, body, "");
    assert_eq!(result.len(), 1);
    assert_eq!(get(&result, "v"), Some(&"123".to_string()));
}

#[test]
fn attribute_match_without_its_group_is_refused() {
    let ex = vec![Extraction { name: "a".to_string(), selector: String::new(), kind: ExtractionKind::Attribute { attr: "x|y".to_string() } }];
    assert!(try_extract_metadata(&ex, "x", "").is_none());
    let ok = vec![Extraction { name: "a".to_string(), selector: String::new(), kind: ExtractionKind::Attribute { attr: "id".to_string() } }];
    let r = try_extract_metadata(&ok, r#"<a id="7">"#, "").unwrap();
    assert_eq!(get(&r, "a"), Some(&"7".to_string()));
}
