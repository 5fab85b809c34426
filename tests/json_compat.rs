use serde_json::Value;
use todo_app::json_parser::{
    json_string_to_state, json_string_to_theme, state_list_to_json_string, state_to_json_string,
};
use todo_app::todo_func::{AppState, Content, StateList};

const TRICKY: [&str; 6] = [
    "plain",
    "quote \" and backslash \\",
    "slash / stays",
    "breaks \n \r \t \u{8} \u{c}",
    "controls \u{0} \u{1} \u{1b} \u{1f} \u{7f}",
    "wide é 中 😀",
];

fn one_note_page(text: &str) -> AppState {
    AppState { list: vec![Content { text: text.to_string(), is_checked: false }] }
}

#[test]
fn string_escapes_match_serde_json() {
    for t in TRICKY {
        let expected = format!(
            "{{\n  \"list\": [\n    {{\n      \"text\": {},\n      \"is_checked\": false\n    }}\n  ]\n}}",
            serde_json::to_string(t).unwrap()
        );
        assert_eq!(state_to_json_string(&one_note_page(t)), expected, "{:?}", t);
    }
}

#[test]
fn page_text_is_json_that_serde_json_reads() {
    for t in TRICKY {
        let text = state_to_json_string(&one_note_page(t));
        let v: Value = serde_json::from_str(&text).unwrap();
        assert_eq!(v["list"][0]["text"].as_str(), Some(t));
        assert_eq!(v["list"][0]["is_checked"].as_bool(), Some(false));
    }
}

#[test]
fn library_text_is_json_that_serde_json_reads() {
    let page = state_to_json_string(&one_note_page("milk"));
    let l = StateList {
        list: vec![("Work".to_string(), page.clone()), ("\"odd\" title".to_string(), String::new())],
        current_app_state: "Work".to_string(),
    };
    let v: Value = serde_json::from_str(&state_list_to_json_string(&l)).unwrap();
    assert_eq!(v["list"]["Work"].as_str(), Some(page.as_str()));
    assert_eq!(v["list"]["\"odd\" title"].as_str(), Some(""));
    assert_eq!(v["current_app_state"].as_str(), Some("Work"));
}

#[test]
fn serde_json_text_is_read() {
    let mut theme = serde_json::Map::new();
    theme.insert("is_dark_mode".to_string(), Value::Bool(false));
    let text = serde_json::to_string_pretty(&Value::Object(theme)).unwrap();
    assert!(!json_string_to_theme(Some(&text)).unwrap().is_dark_mode);

    let mut page = serde_json::Map::new();
    page.insert("list".to_string(), Value::Array(vec![]));
    let text = serde_json::to_string_pretty(&Value::Object(page)).unwrap();
    assert!(json_string_to_state(Some(&text)).unwrap().list.is_empty());

    for t in TRICKY {
        let text = format!(
            "{{\"list\":[{{\"text\":{},\"is_checked\":true}}]}}",
            serde_json::to_string(t).unwrap()
        );
        let state = json_string_to_state(Some(&text)).unwrap();
        assert_eq!(state.list[0].text, t);
        assert!(state.list[0].is_checked);
    }
}
