use todo_app::json_parser::{json_string_to_state, state_to_json_string};
use todo_app::todo_func::{AppState, Content, EditError, PanelManager, StateList, Theme, TodoApp};

fn note(text: &str, is_checked: bool) -> Content {
    Content { text: text.to_string(), is_checked }
}

fn texts(state: &AppState) -> Vec<String> {
    state.list.iter().map(|c| c.text.clone()).collect()
}

fn stored(app: &TodoApp, title: &str) -> Option<String> {
    app.state_list.list.iter().find(|(t, _)| t == title).map(|(_, v)| v.clone())
}

fn app_on_page(title: &str, notes: Vec<Content>) -> TodoApp {
    let page = state_to_json_string(&AppState { list: notes });
    let list = StateList { list: vec![(title.to_string(), page)], current_app_state: title.to_string() };
    TodoApp::start(list, Theme::default())
}

#[test]
fn empty_library_at_startup_has_no_page_selected() {
    let app = TodoApp::start(StateList::default(), Theme::default());
    assert_eq!(app.state_list.current_app_state, "");
    assert!(app.no_page_selected());
    assert!(app.state.list.is_empty());
}

#[test]
fn startup_reads_current_page() {
    let app = app_on_page("Work", vec![note("a", true)]);
    assert!(!app.no_page_selected());
    assert_eq!(texts(&app.state), vec!["a"]);
    assert!(app.state.list[0].is_checked);
}

#[test]
fn add_note_to_work_page_is_stored() {
    let empty = state_to_json_string(&AppState { list: vec![] });
    let list = StateList { list: vec![("Work".to_string(), empty)], current_app_state: "Work".to_string() };
    let mut app = TodoApp::start(list, Theme::default());
    assert_eq!(app.add_note("buy milk"), Ok(()));
    let text = stored(&app, "Work").unwrap();
    let page = json_string_to_state(Some(&text)).unwrap();
    assert_eq!(page.list.len(), 1);
    assert_eq!(page.list[0].text, "buy milk");
    assert!(!page.list[0].is_checked);
}

#[test]
fn add_empty_note_changes_nothing() {
    let mut app = app_on_page("Work", vec![note("a", false)]);
    let before = stored(&app, "Work");
    assert_eq!(app.add_note(""), Err(EditError::EmptyContent));
    assert_eq!(texts(&app.state), vec!["a"]);
    assert_eq!(app.state.list.len(), 1);
    assert_eq!(stored(&app, "Work"), before);
}

#[test]
fn add_then_delete_first_restores_empty_page() {
    let mut app = app_on_page("Work", vec![]);
    app.add_note("x").unwrap();
    assert_eq!(texts(&app.state), vec!["x"]);
    app.delete_notes(&mut vec![0]);
    assert!(app.state.list.is_empty());
    let page = json_string_to_state(Some(&stored(&app, "Work").unwrap())).unwrap();
    assert!(page.list.is_empty());
}

#[test]
fn delete_two_notes_keeps_the_middle_one() {
    let mut app = app_on_page("Work", vec![note("A", false), note("B", false), note("C", false)]);
    let mut indices = vec![0, 2];
    app.delete_notes(&mut indices);
    assert_eq!(texts(&app.state), vec!["B"]);
    assert_eq!(indices, vec![0, 2]);
    let page = json_string_to_state(Some(&stored(&app, "Work").unwrap())).unwrap();
    assert_eq!(texts(&page), vec!["B"]);
}

#[test]
fn delete_content_ignores_order_repeats_and_far_positions() {
    let mut app = app_on_page("Work", vec![note("A", false), note("B", false), note("C", false), note("D", false)]);
    let before = stored(&app, "Work");
    app.delete_content(&mut vec![3, 1, 1, 9]);
    assert_eq!(texts(&app.state), vec!["A", "C"]);
    assert_eq!(stored(&app, "Work"), before);
}

#[test]
fn new_page_refuses_empty_and_taken_titles() {
    let mut l = StateList::default();
    assert_eq!(l.new_page("Work"), Ok(()));
    assert_eq!(l.list, vec![("Work".to_string(), String::new())]);
    assert_eq!(l.new_page(""), Err(EditError::DuplicateOrEmptyTitle));
    assert_eq!(l.new_page("Work"), Err(EditError::DuplicateOrEmptyTitle));
    assert_eq!(l.list, vec![("Work".to_string(), String::new())]);
    assert_eq!(l.new_page("Home"), Ok(()));
    assert_eq!(l.list.len(), 2);
    assert_eq!(l.list[1].0, "Home");
}

#[test]
fn select_missing_page_gives_empty_page() {
    let mut app = app_on_page("Work", vec![note("a", false)]);
    app.select_page("missing");
    assert!(app.state.list.is_empty());
    assert!(app.no_page_selected());
    assert_eq!(app.state_list.list.len(), 1);
}

#[test]
fn select_new_page_with_empty_text_gives_empty_page() {
    let mut app = TodoApp::start(StateList::default(), Theme::default());
    app.state_list.new_page("Fresh").unwrap();
    app.select_page("Fresh");
    assert!(app.is_current_page("Fresh"));
    assert!(!app.is_current_page("Other"));
    assert!(app.state.list.is_empty());
    app.add_note("first").unwrap();
    app.select_page("Fresh");
    assert_eq!(texts(&app.state), vec!["first"]);
}

#[test]
fn toggle_note_flips_and_stores() {
    let mut app = app_on_page("Work", vec![note("a", false), note("b", false)]);
    app.toggle_note(1);
    assert!(!app.state.list[0].is_checked);
    assert!(app.state.list[1].is_checked);
    let page = json_string_to_state(Some(&stored(&app, "Work").unwrap())).unwrap();
    assert!(page.list[1].is_checked);
    app.toggle_note(5);
    assert_eq!(texts(&app.state), vec!["a", "b"]);
}

#[test]
fn update_state_without_current_page_stores_nothing() {
    let mut app = TodoApp::start(StateList::default(), Theme::default());
    app.state.list.push(note("loose", false));
    app.update_state();
    assert!(app.state_list.list.is_empty());
}

#[test]
fn show_updated_state_reads_stored_text() {
    let mut app = app_on_page("Work", vec![note("a", false)]);
    app.state.list.clear();
    app.show_updated_state();
    assert_eq!(texts(&app.state), vec!["a"]);
}

#[test]
fn delete_page_removes_current_page() {
    let mut app = app_on_page("Work", vec![note("a", false)]);
    app.state_list.new_page("Home").unwrap();
    app.delete_page();
    assert!(app.state.list.is_empty());
    assert!(app.no_page_selected());
    assert_eq!(app.state_list.list, vec![("Home".to_string(), String::new())]);
}

#[test]
fn state_list_delete_page_by_title() {
    let mut l = StateList::default();
    l.new_page("A").unwrap();
    l.new_page("B").unwrap();
    l.current_app_state = "B".to_string();
    l.delete_page("A");
    assert_eq!(l.current_app_state, "B");
    l.delete_page("B");
    assert_eq!(l.current_app_state, "");
    assert!(l.list.is_empty());
    l.delete_page("none");
    assert!(l.list.is_empty());
}

#[test]
fn delete_data_clears_everything() {
    let mut app = app_on_page("Work", vec![note("a", false)]);
    app.toggle_theme();
    app.delete_data();
    assert!(app.state.list.is_empty());
    assert!(app.state_list.list.is_empty());
    assert!(app.no_page_selected());
    assert!(!app.dark_mode.is_dark_mode);
}

#[test]
fn toggle_theme_flips() {
    let mut app = TodoApp::default();
    assert!(app.dark_mode.is_dark_mode);
    app.toggle_theme();
    assert!(!app.dark_mode.is_dark_mode);
    app.toggle_theme();
    assert!(app.dark_mode.is_dark_mode);
}

#[test]
fn panel_setters_change_one_flag() {
    let mut p = PanelManager::default();
    p.show_side_panel(true);
    p.show_add_panel(true);
    p.show_settings(true);
    p.show_reset_popup(true);
    p.show_delete_page_popup(true);
    p.show_add_page_panel(true);
    assert!(p.side_panel_visible && p.add_panel_visible && p.settings_visible);
    assert!(p.reset_popup_visible && p.delete_page_popup_visible && p.add_page_panel_visible);
    p.show_settings(false);
    assert!(!p.settings_visible);
    assert!(p.side_panel_visible && p.add_panel_visible && p.reset_popup_visible);
}

#[test]
fn well_formed_index_is_recognised() {
    let mut l = StateList::default();
    assert!(l.is_well_formed());
    l.new_page("A").unwrap();
    l.current_app_state = "A".to_string();
    assert!(l.is_well_formed());
    l.current_app_state = "B".to_string();
    assert!(!l.is_well_formed());
    l.current_app_state = String::new();
    l.list.push(("A".to_string(), String::new()));
    assert!(!l.is_well_formed());
}
