use todo_app::json_parser::{
    json_string_to_state, json_string_to_state_list, json_string_to_theme, state_list_or_default,
    state_list_to_json_string, state_or_default, state_to_json_string, theme_or_default,
    theme_to_json_string, PersistError,
};
use todo_app::todo_func::{AppState, Content, StateList, Theme};

fn note(text: &str, is_checked: bool) -> Content {
    Content { text: text.to_string(), is_checked }
}

fn texts(state: &AppState) -> Vec<(String, bool)> {
    state.list.iter().map(|c| (c.text.clone(), c.is_checked)).collect()
}

#[test]
fn empty_page_text_is_exact() {
    let state = AppState { list: vec![] };
    assert_eq!(state_to_json_string(&state), "{\n  \"list\": []\n}");
}

#[test]
fn page_text_is_exact() {
    let state = AppState { list: vec![note("A", false), note("B", true)] };
    let expected = "{\n  \"list\": [\n    {\n      \"text\": \"A\",\n      \"is_checked\": false\n    },\n    {\n      \"text\": \"B\",\n      \"is_checked\": true\n    }\n  ]\n}";
    assert_eq!(state_to_json_string(&state), expected);
}

#[test]
fn page_round_trip_with_escapes() {
    let state = AppState {
        list: vec![
            note("quote \" backslash \\ slash /", true),
            note("line\nbreak\ttab\r\u{8}\u{c}", false),
            note("control \u{1} \u{1f} and é ü 😀", true),
            note("", false),
        ],
    };
    let text = state_to_json_string(&state);
    let back = json_string_to_state(Some(&text)).unwrap();
    assert_eq!(texts(&back), texts(&state));
}

#[test]
fn control_chars_are_written_as_unicode_escapes() {
    let state = AppState { list: vec![note("\u{1}\u{1f}\n", false)] };
    let text = state_to_json_string(&state);
    assert!(text.contains("\\u0001\\u001f\\n"));
}

#[test]
fn compact_page_text_is_read() {
    let text = String::from("{\"list\":[{\"text\":\"a\",\"is_checked\":true},{\"text\":\"b\",\"is_checked\":false}]}");
    let state = json_string_to_state(Some(&text)).unwrap();
    assert_eq!(texts(&state), vec![("a".to_string(), true), ("b".to_string(), false)]);
}

#[test]
fn unicode_escapes_are_read() {
    let text = String::from("{\"list\": [{\"text\": \"\\u0041\\u00e9\\ud83d\\ude00\\/\", \"is_checked\": false}]}");
    let state = json_string_to_state(Some(&text)).unwrap();
    assert_eq!(texts(&state), vec![("Aé😀/".to_string(), false)]);
}

#[test]
fn lone_surrogate_escape_is_refused() {
    let text = String::from("{\"list\": [{\"text\": \"\\ud83d\", \"is_checked\": false}]}");
    assert_eq!(json_string_to_state(Some(&text)).unwrap_err(), PersistError::InvalidPersistedData);
}

#[test]
fn missing_page_text_gives_empty_page() {
    let state = json_string_to_state(None).unwrap();
    assert!(state.list.is_empty());
}

#[test]
fn corrupt_page_text_is_an_error() {
    for bad in ["", "not json", "{\"list\": [}", "{\"list\": []} x", "{\"items\": []}", "{\"list\": [{\"text\": \"a\"}]}"] {
        let text = bad.to_string();
        assert_eq!(
            json_string_to_state(Some(&text)).unwrap_err(),
            PersistError::InvalidPersistedData,
            "{}",
            bad
        );
    }
}

#[test]
fn corrupt_text_gives_defaults() {
    let bad = String::from("{ this is not json");
    assert!(state_or_default(Some(&bad)).list.is_empty());
    let l = state_list_or_default(Some(&bad));
    assert!(l.list.is_empty());
    assert_eq!(l.current_app_state, "");
    assert!(theme_or_default(Some(&bad)).is_dark_mode);
}

#[test]
fn good_text_is_kept_by_default_readers() {
    let page = String::from("{\"list\": [{\"text\": \"x\", \"is_checked\": true}]}");
    assert_eq!(texts(&state_or_default(Some(&page))), vec![("x".to_string(), true)]);
    let theme = String::from("{\"is_dark_mode\": false}");
    assert!(!theme_or_default(Some(&theme)).is_dark_mode);
    assert!(theme_or_default(None).is_dark_mode);
}

#[test]
fn library_text_is_exact() {
    let l = StateList {
        list: vec![("Work".to_string(), "{}".to_string()), ("Home".to_string(), String::new())],
        current_app_state: "Work".to_string(),
    };
    let expected = "{\n  \"list\": {\n    \"Work\": \"{}\",\n    \"Home\": \"\"\n  },\n  \"current_app_state\": \"Work\"\n}";
    assert_eq!(state_list_to_json_string(&l), expected);
}

#[test]
fn empty_library_text_is_exact() {
    let l = StateList::default();
    assert_eq!(state_list_to_json_string(&l), "{\n  \"list\": {},\n  \"current_app_state\": \"\"\n}");
}

#[test]
fn library_round_trip() {
    let page = state_to_json_string(&AppState { list: vec![note("milk \"2%\"", false)] });
    let l = StateList {
        list: vec![
            ("Work".to_string(), page),
            ("Home\nsweet".to_string(), String::new()),
            ("é".to_string(), "x".to_string()),
        ],
        current_app_state: "Home\nsweet".to_string(),
    };
    let text = state_list_to_json_string(&l);
    let back = json_string_to_state_list(Some(&text)).unwrap();
    assert_eq!(back.list, l.list);
    assert_eq!(back.current_app_state, l.current_app_state);
}

#[test]
fn library_later_duplicate_title_wins() {
    let text = String::from("{\"list\": {\"a\": \"1\", \"b\": \"2\", \"a\": \"3\"}, \"current_app_state\": \"a\"}");
    let l = json_string_to_state_list(Some(&text)).unwrap();
    assert_eq!(l.list, vec![("a".to_string(), "3".to_string()), ("b".to_string(), "2".to_string())]);
    assert_eq!(l.current_app_state, "a");
}

#[test]
fn library_current_title_without_page_is_cleared() {
    let text = String::from("{\"list\": {\"a\": \"\"}, \"current_app_state\": \"gone\"}");
    let l = json_string_to_state_list(Some(&text)).unwrap();
    assert_eq!(l.current_app_state, "");
}

#[test]
fn missing_library_gives_empty_index() {
    let l = json_string_to_state_list(None).unwrap();
    assert!(l.list.is_empty());
    assert_eq!(l.current_app_state, "");
}

#[test]
fn corrupt_library_is_an_error() {
    let text = String::from("[1, 2, 3]");
    assert_eq!(
        json_string_to_state_list(Some(&text)).unwrap_err(),
        PersistError::InvalidPersistedData
    );
}

#[test]
fn theme_text_and_round_trip() {
    let dark = Theme { is_dark_mode: true };
    let light = Theme { is_dark_mode: false };
    assert_eq!(theme_to_json_string(&dark), "{\n  \"is_dark_mode\": true\n}");
    assert_eq!(theme_to_json_string(&light), "{\n  \"is_dark_mode\": false\n}");
    for t in [dark, light] {
        let text = theme_to_json_string(&t);
        assert_eq!(json_string_to_theme(Some(&text)).unwrap(), t);
    }
}

#[test]
fn theme_defaults_to_dark() {
    assert!(Theme::default().is_dark_mode);
    assert!(json_string_to_theme(None).unwrap().is_dark_mode);
    let bad = String::from("{\"is_dark_mode\": 1}");
    assert_eq!(json_string_to_theme(Some(&bad)).unwrap_err(), PersistError::InvalidPersistedData);
}
