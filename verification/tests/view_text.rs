use notahub::app::{App, InputAction, InputState, Screen};
use notahub::search::SearchKind;
use notahub::view::{
    body_screen, check_box, clamped_row, count_label, footer_hint, home_row, kind_tag,
    note_marker, overlay, search_hint, shortcut_label, Overlay,
};

#[test]
fn help_keeps_the_screen_below() {
    assert_eq!(body_screen(Screen::Help, Screen::Projects), Screen::Projects);
    assert_eq!(body_screen(Screen::Ideas, Screen::Home), Screen::Ideas);
}

#[test]
fn row_labels_and_counts() {
    assert_eq!(shortcut_label(0), "[a]");
    assert_eq!(shortcut_label(17), "[aa]");
    assert_eq!(shortcut_label(459), "   ");
    assert_eq!(count_label(" ", 3, "tasks"), " (3 tasks)");
    assert_eq!(count_label("  ", 12, "notes"), "  (12 notes)");
    assert_eq!(check_box(true), "[x]");
    assert_eq!(check_box(false), "[ ]");
    assert_eq!(note_marker(true), "▸ ");
    assert_eq!(note_marker(false), "  ");
}

#[test]
fn cursor_rows() {
    assert_eq!(clamped_row(5, 3), Some(2));
    assert_eq!(clamped_row(1, 3), Some(1));
    assert_eq!(clamped_row(0, 0), None);
    assert_eq!(home_row(2, 3), Some(2));
    assert_eq!(home_row(3, 3), None);
}

#[test]
fn hints_and_tags() {
    assert_eq!(footer_hint(Screen::Help), "press ? / enter / esc to close");
    assert!(footer_hint(Screen::Home).ends_with("Q quit"));
    assert_eq!(kind_tag(SearchKind::IdeaNote), "[Note   ]");
    assert_eq!(search_hint(""), "type to search across projects, tasks, ideas and notes");
    assert_eq!(search_hint("x"), "no matches");
}

#[test]
fn prompts_drawn_over_the_screen() {
    let mut app = App::new(Vec::new(), Vec::new());
    assert_eq!(overlay(&app), Overlay::Nothing);
    app.input = Some(InputState {
        label: "Search".to_string(),
        value: String::new(),
        action: InputAction::Search,
    });
    assert_eq!(overlay(&app), Overlay::Nothing);
    app.input = Some(InputState {
        label: "New idea title".to_string(),
        value: String::new(),
        action: InputAction::NewIdea,
    });
    assert_eq!(overlay(&app), Overlay::Input);
}
