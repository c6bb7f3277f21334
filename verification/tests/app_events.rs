use notahub::app::{
    open_shortcut_by_char, open_shortcut_by_index, App, ConfirmAction, HomeFocus, IdeasFocus,
    InputAction, ProjectsFocus, Screen,
};
use notahub::event::{handle_event, toggle_home_focus, Effect, Input, Key, KeyPress, Mouse};
use notahub::model::{Idea, Project, Task};
use notahub::order::{sort_ideas_by_title, sort_projects_by_title};
use notahub::storage::project_file_name;

fn ev(code: Key) -> Input {
    Input::Key(KeyPress { code, control: false })
}

fn ch(c: char) -> Input {
    ev(Key::Char(c))
}

fn app_with(projects: Vec<Project>, ideas: Vec<Idea>) -> App {
    let mut projects = projects;
    let mut ideas = ideas;
    sort_projects_by_title(&mut projects);
    sort_ideas_by_title(&mut ideas);
    App::new(projects, ideas)
}

fn typed(app: &mut App, text: &str) {
    for c in text.chars() {
        handle_event(app, ch(c)).unwrap();
    }
}

fn status(app: &App) -> String {
    app.status.clone().unwrap_or_default()
}

#[test]
fn app_loads_empty_dir() {
    let app = app_with(Vec::new(), Vec::new());
    assert!(app.projects.is_empty());
    assert!(app.ideas.is_empty());
}

#[test]
fn quit_key_sets_should_quit() {
    let mut app = app_with(Vec::new(), Vec::new());
    handle_event(&mut app, ch('Q')).unwrap();
    assert!(app.should_quit);
}

#[test]
fn lowercase_q_does_not_quit() {
    let mut app = app_with(Vec::new(), Vec::new());
    handle_event(&mut app, ch('q')).unwrap();
    assert!(!app.should_quit);
}

#[test]
fn home_shortcut_opens_project_details() {
    let p = Project::new("First".to_string());
    let pid = p.id;
    let mut app = app_with(vec![p], Vec::new());
    assert_eq!(app.projects.len(), 1);

    handle_event(&mut app, ch('a')).unwrap();
    assert_eq!(app.screen, Screen::Projects);
    assert_eq!(app.project_idx, 0);
    assert_eq!(app.projects[0].id, pid);
}

#[test]
fn home_shortcut_opens_idea_details() {
    let i = Idea::new("First idea".to_string());
    let mut app = app_with(Vec::new(), vec![i]);
    assert_eq!(app.ideas.len(), 1);

    handle_event(&mut app, ch('a')).unwrap();
    assert_eq!(app.screen, Screen::Ideas);
    assert_eq!(app.idea_idx, 0);
}

#[test]
fn home_vim_nav_is_reserved_and_functional() {
    let mut app = app_with(
        vec![Project::new("First".to_string()), Project::new("Second".to_string())],
        vec![Idea::new("Idea A".to_string()), Idea::new("Idea B".to_string())],
    );
    assert_eq!(app.screen, Screen::Home);
    assert_eq!(app.home_focus, HomeFocus::Projects);
    assert_eq!(app.home_project_idx, 0);

    handle_event(&mut app, ch('l')).unwrap();
    assert_eq!(app.home_focus, HomeFocus::Ideas);
    assert_eq!(app.screen, Screen::Home, "l must not open a shortcut");

    handle_event(&mut app, ch('h')).unwrap();
    assert_eq!(app.home_focus, HomeFocus::Projects);
    assert_eq!(app.screen, Screen::Home, "h must not open a shortcut");

    handle_event(&mut app, ch('l')).unwrap();
    handle_event(&mut app, ch('j')).unwrap();
    assert_eq!(app.home_idea_idx, 1, "j should move down");
    assert_eq!(app.screen, Screen::Home, "j must not open a shortcut");

    handle_event(&mut app, ch('k')).unwrap();
    assert_eq!(app.home_idea_idx, 0, "k should move up");
    assert_eq!(app.screen, Screen::Home, "k must not open a shortcut");

    handle_event(&mut app, ch('h')).unwrap();
    handle_event(&mut app, ch('a')).unwrap();
    assert_eq!(app.screen, Screen::Projects, "a should still open first project");
}

#[test]
fn search_enter_navigates_to_project() {
    let mut app = app_with(vec![Project::new("Findme".to_string())], Vec::new());

    handle_event(&mut app, ch('/')).unwrap();
    assert_eq!(app.screen, Screen::Search);
    assert!(app.input.is_some());

    typed(&mut app, "findme");
    assert_eq!(app.search_results.len(), 1);
    assert_eq!(app.search_result_idx, 0);

    handle_event(&mut app, ev(Key::Enter)).unwrap();
    assert_eq!(app.screen, Screen::Projects);
    assert_eq!(app.project_idx, 0);
    assert_eq!(app.projects[0].title, "Findme");
}

#[test]
fn search_arrows_navigate_results() {
    let mut app = app_with(
        vec![Project::new("Alpha".to_string()), Project::new("Beta".to_string())],
        Vec::new(),
    );

    handle_event(&mut app, ch('/')).unwrap();
    typed(&mut app, "a");
    assert!(app.search_results.len() >= 2);
    assert_eq!(app.search_result_idx, 0);

    handle_event(&mut app, ev(Key::Down)).unwrap();
    assert_eq!(app.search_result_idx, 1);

    handle_event(&mut app, ev(Key::Up)).unwrap();
    assert_eq!(app.search_result_idx, 0);
}

#[test]
fn add_project_via_input_creates_file() {
    let mut app = app_with(Vec::new(), Vec::new());

    handle_event(&mut app, ch('p')).unwrap();
    assert!(app.input.is_some());

    typed(&mut app, "My Demo");
    let effect = handle_event(&mut app, ev(Key::Enter)).unwrap();
    assert!(app.input.is_none());
    assert_eq!(app.projects.len(), 1);
    assert_eq!(app.projects[0].title, "My Demo");
    match effect {
        Effect::SaveProject(p) => assert_eq!(project_file_name(&p), "my-demo.md"),
        _ => panic!("the new project must be saved"),
    }

    handle_event(&mut app, ch('2')).unwrap();
    assert_eq!(app.screen, Screen::Projects);
    handle_event(&mut app, ch('t')).unwrap();
    typed(&mut app, "First");
    handle_event(&mut app, ev(Key::Enter)).unwrap();
    assert_eq!(app.projects[0].tasks.len(), 1);
    assert_eq!(app.projects[0].tasks[0].title, "First");
}

#[test]
fn new_items_are_sorted_and_announced() {
    let mut app = app_with(vec![Project::new("beta".to_string())], Vec::new());
    handle_event(&mut app, ch('p')).unwrap();
    typed(&mut app, "  Alpha  ");
    handle_event(&mut app, ev(Key::Enter)).unwrap();
    assert_eq!(app.projects[0].title, "Alpha");
    assert_eq!(app.projects[1].title, "beta");
    assert_eq!(status(&app), "Created project 'Alpha'");

    handle_event(&mut app, ch('i')).unwrap();
    typed(&mut app, "Thought");
    match handle_event(&mut app, ev(Key::Enter)).unwrap() {
        Effect::SaveIdea(i) => assert_eq!(i.title, "Thought"),
        _ => panic!("the new idea must be saved"),
    }
    assert_eq!(app.ideas.len(), 1);
    assert_eq!(status(&app), "Created idea 'Thought'");
}

#[test]
fn empty_and_cancelled_input() {
    let mut app = app_with(Vec::new(), Vec::new());
    handle_event(&mut app, ch('p')).unwrap();
    typed(&mut app, "   ");
    handle_event(&mut app, ev(Key::Enter)).unwrap();
    assert!(app.projects.is_empty());
    assert_eq!(status(&app), "Empty input discarded");

    handle_event(&mut app, ch('p')).unwrap();
    typed(&mut app, "ab");
    handle_event(&mut app, ev(Key::Backspace)).unwrap();
    assert_eq!(app.input.as_ref().unwrap().value, "a");
    handle_event(&mut app, Input::Key(KeyPress { code: Key::Char('z'), control: true })).unwrap();
    assert_eq!(app.input.as_ref().unwrap().value, "a");
    handle_event(&mut app, ev(Key::Esc)).unwrap();
    assert!(app.input.is_none());
    assert_eq!(status(&app), "Cancelled");
}

#[test]
fn delete_mode_asks_and_deletes() {
    let mut app = app_with(vec![Project::new("First".to_string())], vec![Idea::new("Idea".to_string())]);
    handle_event(&mut app, ch('x')).unwrap();
    assert!(app.delete_mode.is_some());
    assert_eq!(status(&app), "Delete: press shortcut letter (esc to cancel)");
    handle_event(&mut app, ch('b')).unwrap();
    assert!(app.delete_mode.is_none());
    let confirm = app.confirm.clone().unwrap();
    assert_eq!(confirm.message, "Delete idea 'Idea'? (y/n)");
    match handle_event(&mut app, ch('y')).unwrap() {
        Effect::DeleteIdea(i) => assert_eq!(i.title, "Idea"),
        _ => panic!("the idea's file must be removed"),
    }
    assert!(app.ideas.is_empty());
    assert_eq!(status(&app), "Deleted idea 'Idea'");
}

#[test]
fn delete_mode_without_item_and_cancel() {
    let mut app = app_with(vec![Project::new("Only".to_string())], Vec::new());
    handle_event(&mut app, ch('x')).unwrap();
    handle_event(&mut app, ch('c')).unwrap();
    assert!(app.delete_mode.is_none());
    assert_eq!(status(&app), "No item with shortcut 'c'");

    handle_event(&mut app, ch('x')).unwrap();
    handle_event(&mut app, ev(Key::Esc)).unwrap();
    assert!(app.delete_mode.is_none());
    assert_eq!(status(&app), "Delete cancelled");

    let mut empty = app_with(Vec::new(), Vec::new());
    handle_event(&mut empty, ch('x')).unwrap();
    assert!(empty.delete_mode.is_none());
    assert_eq!(status(&empty), "Nothing to delete");
}

#[test]
fn confirmation_can_be_declined() {
    let mut app = app_with(vec![Project::new("Keep".to_string())], Vec::new());
    handle_event(&mut app, ch('2')).unwrap();
    handle_event(&mut app, ch('x')).unwrap();
    assert_eq!(app.confirm.as_ref().unwrap().message, "Delete project 'Keep'? (y/n)");
    handle_event(&mut app, ch('n')).unwrap();
    assert!(app.confirm.is_none());
    assert_eq!(app.projects.len(), 1);
    assert_eq!(status(&app), "Cancelled");
}

#[test]
fn tasks_toggle_and_delete() {
    let mut p = Project::new("Work".to_string());
    p.tasks.push(Task::new("One".to_string()));
    p.tasks[0].notes.push("n1".to_string());
    p.tasks.push(Task::new("Two".to_string()));
    let mut app = app_with(vec![p], Vec::new());
    handle_event(&mut app, ch('2')).unwrap();
    handle_event(&mut app, ev(Key::Tab)).unwrap();
    assert_eq!(app.projects_focus, ProjectsFocus::Tasks);
    match handle_event(&mut app, ch(' ')).unwrap() {
        Effect::SaveProject(q) => assert!(q.tasks[0].completed),
        _ => panic!("the project must be saved"),
    }
    assert!(app.projects[0].tasks[0].completed);
    handle_event(&mut app, ch(' ')).unwrap();
    assert!(!app.projects[0].tasks[0].completed);

    handle_event(&mut app, ch('j')).unwrap();
    assert_eq!(app.task_idx, 1);
    handle_event(&mut app, ch('j')).unwrap();
    assert_eq!(app.task_idx, 1);
    handle_event(&mut app, ch('x')).unwrap();
    assert_eq!(app.confirm.as_ref().unwrap().message, "Delete task 'Two'? (y/n)");
    handle_event(&mut app, ev(Key::Enter)).unwrap();
    assert_eq!(app.projects[0].tasks.len(), 1);
    assert_eq!(app.task_idx, 0);
    assert_eq!(status(&app), "Deleted task 'Two'");

    handle_event(&mut app, ch('l')).unwrap();
    assert_eq!(app.projects_focus, ProjectsFocus::Notes);
    handle_event(&mut app, ch('x')).unwrap();
    let c = app.confirm.clone().unwrap();
    assert_eq!(c.message, "Delete note 1? (y/n)");
    match c.action {
        ConfirmAction::DeleteProjectNote(_, _, 0) => {}
        _ => panic!("wrong action"),
    }
    handle_event(&mut app, ch('Y')).unwrap();
    assert!(app.projects[0].tasks[0].notes.is_empty());
    assert_eq!(status(&app), "Deleted note");
}

#[test]
fn notes_are_added_to_tasks_and_ideas() {
    let mut p = Project::new("Work".to_string());
    p.tasks.push(Task::new("One".to_string()));
    let mut app = app_with(vec![p], vec![Idea::new("Idea".to_string())]);
    handle_event(&mut app, ch('2')).unwrap();
    handle_event(&mut app, ch('n')).unwrap();
    match app.input.as_ref().unwrap().action {
        InputAction::NewTaskNote(_, _) => {}
        _ => panic!("a task note prompt"),
    }
    typed(&mut app, "remember");
    handle_event(&mut app, ev(Key::Enter)).unwrap();
    assert_eq!(app.projects[0].tasks[0].notes, vec!["remember"]);
    assert_eq!(status(&app), "Added note");

    handle_event(&mut app, ch('3')).unwrap();
    assert_eq!(app.screen, Screen::Ideas);
    handle_event(&mut app, ch('N')).unwrap();
    typed(&mut app, "more");
    match handle_event(&mut app, ev(Key::Enter)).unwrap() {
        Effect::SaveIdea(i) => assert_eq!(i.notes, vec!["more"]),
        _ => panic!("the idea must be saved"),
    }
    handle_event(&mut app, ev(Key::Tab)).unwrap();
    assert_eq!(app.ideas_focus, IdeasFocus::Notes);
    handle_event(&mut app, ch('x')).unwrap();
    assert_eq!(app.confirm.as_ref().unwrap().message, "Delete note 1? (y/n)");
}

#[test]
fn prompts_need_a_selection() {
    let mut app = app_with(Vec::new(), Vec::new());
    handle_event(&mut app, ch('2')).unwrap();
    handle_event(&mut app, ch('t')).unwrap();
    assert_eq!(status(&app), "Create or select a project first");
    handle_event(&mut app, ch('n')).unwrap();
    assert_eq!(status(&app), "Select a project first");
    handle_event(&mut app, ch('3')).unwrap();
    handle_event(&mut app, ch('n')).unwrap();
    assert_eq!(status(&app), "Select or create an idea first");

    let mut app = app_with(vec![Project::new("P".to_string())], Vec::new());
    handle_event(&mut app, ch('2')).unwrap();
    handle_event(&mut app, ch('n')).unwrap();
    assert_eq!(status(&app), "Add a task first");
}

#[test]
fn help_opens_and_returns() {
    let mut app = app_with(Vec::new(), Vec::new());
    handle_event(&mut app, ch('3')).unwrap();
    handle_event(&mut app, ch('?')).unwrap();
    assert_eq!(app.screen, Screen::Help);
    handle_event(&mut app, ev(Key::Esc)).unwrap();
    assert_eq!(app.screen, Screen::Ideas);
}

#[test]
fn search_without_results_goes_back() {
    let mut app = app_with(vec![Project::new("Alpha".to_string())], Vec::new());
    handle_event(&mut app, ch('2')).unwrap();
    handle_event(&mut app, ch('/')).unwrap();
    typed(&mut app, "zzz");
    assert!(app.search_results.is_empty());
    handle_event(&mut app, ev(Key::Enter)).unwrap();
    assert!(app.input.is_none());
    assert_eq!(app.screen, Screen::Projects);
}

#[test]
fn two_letter_shortcuts_wait_for_the_second_letter() {
    let mut projects = Vec::new();
    for k in 0..20 {
        projects.push(Project::new(format!("P{:02}", k)));
    }
    let mut app = app_with(projects, Vec::new());
    handle_event(&mut app, ch('a')).unwrap();
    assert_eq!(app.pending_shortcut, Some('a'));
    assert_eq!(app.screen, Screen::Home);
    handle_event(&mut app, ch('b')).unwrap();
    assert_eq!(app.pending_shortcut, None);
    assert_eq!(app.screen, Screen::Projects);
    assert_eq!(app.project_idx, 18);
    assert_eq!(app.projects[18].title, "P18");
}

#[test]
fn wheel_moves_the_cursor() {
    let mut app = app_with(
        vec![Project::new("A".to_string()), Project::new("B".to_string())],
        Vec::new(),
    );
    handle_event(&mut app, Input::Mouse(Mouse::ScrollDown)).unwrap();
    assert_eq!(app.home_project_idx, 1);
    handle_event(&mut app, Input::Mouse(Mouse::ScrollDown)).unwrap();
    assert_eq!(app.home_project_idx, 1);
    handle_event(&mut app, Input::Mouse(Mouse::ScrollUp)).unwrap();
    assert_eq!(app.home_project_idx, 0);
    handle_event(&mut app, Input::Other).unwrap();
    assert_eq!(app.home_project_idx, 0);
}

#[test]
fn enter_on_home_opens_the_item_under_the_cursor() {
    let mut app = app_with(
        vec![Project::new("A".to_string()), Project::new("B".to_string())],
        vec![Idea::new("I".to_string())],
    );
    handle_event(&mut app, ch('j')).unwrap();
    handle_event(&mut app, ev(Key::Enter)).unwrap();
    assert_eq!(app.screen, Screen::Projects);
    assert_eq!(app.project_idx, 1);
    handle_event(&mut app, ev(Key::Esc)).unwrap();
    assert_eq!(app.screen, Screen::Home);
    handle_event(&mut app, ev(Key::Tab)).unwrap();
    assert_eq!(app.home_focus, HomeFocus::Ideas);
    handle_event(&mut app, ev(Key::Enter)).unwrap();
    assert_eq!(app.screen, Screen::Ideas);
    assert_eq!(app.idea_idx, 0);
}

#[test]
fn keys_do_nothing_after_quit() {
    let mut app = app_with(vec![Project::new("A".to_string())], Vec::new());
    handle_event(&mut app, ch('Q')).unwrap();
    handle_event(&mut app, ch('a')).unwrap();
    assert_eq!(app.screen, Screen::Home);
}

#[test]
fn screens_and_focus_helpers() {
    assert_eq!(Screen::Home.label(), "Home");
    assert_eq!(Screen::Search.label(), "Search");
    assert_eq!(Screen::Help.tab_index(), 4);
    assert_eq!(Screen::Projects.tab_index(), 1);
    assert_eq!(toggle_home_focus(HomeFocus::Projects), HomeFocus::Ideas);
    assert_eq!(toggle_home_focus(HomeFocus::Ideas), HomeFocus::Projects);
}

#[test]
fn shortcuts_by_index_and_letter() {
    let mut app = app_with(vec![Project::new("A".to_string())], vec![Idea::new("I".to_string())]);
    open_shortcut_by_index(&mut app, 1);
    assert_eq!(app.screen, Screen::Ideas);
    open_shortcut_by_index(&mut app, 5);
    assert_eq!(status(&app), "No item with that shortcut");
    open_shortcut_by_char(&mut app, 'a');
    assert_eq!(app.screen, Screen::Projects);
    app.clear_status();
    open_shortcut_by_char(&mut app, 'h');
    assert_eq!(status(&app), "No item with that shortcut");
}

#[test]
fn lookups_and_clamping() {
    let mut p = Project::new("A".to_string());
    p.tasks.push(Task::new("t".to_string()));
    let tid = p.tasks[0].id;
    let pid = p.id;
    let i = Idea::new("I".to_string());
    let iid = i.id;
    let mut app = app_with(vec![p], vec![i]);
    assert_eq!(app.project_by_id(pid), Some(0));
    assert_eq!(app.project_by_id(pid ^ 1), None);
    assert_eq!(app.idea_by_id(iid), Some(0));
    assert_eq!(app.task_by_id(0, tid), Some(0));
    assert_eq!(app.task_by_id(3, tid), None);

    app.project_idx = 9;
    app.task_idx = 9;
    app.idea_idx = 9;
    app.home_project_idx = 9;
    app.clamp_indices();
    assert_eq!(app.project_idx, 0);
    assert_eq!(app.task_idx, 0);
    assert_eq!(app.idea_idx, 0);
    assert_eq!(app.home_project_idx, 0);
}

#[test]
fn selections_can_be_changed_in_place() {
    let mut p = Project::new("A".to_string());
    p.tasks.push(Task::new("t".to_string()));
    let mut app = app_with(vec![p], vec![Idea::new("I".to_string())]);
    app.current_project_mut().unwrap().title = "B".to_string();
    assert_eq!(app.current_project().unwrap().title, "B");
    app.current_task_mut().unwrap().completed = true;
    assert!(app.current_task().unwrap().completed);
    app.current_idea_mut().unwrap().notes.push("n".to_string());
    assert_eq!(app.current_idea().unwrap().notes.len(), 1);
    app.idea_idx = 4;
    assert!(app.current_idea_mut().is_none());
    assert_eq!(app.home_projects().len(), 1);
    assert_eq!(app.home_ideas().len(), 1);
}

#[test]
fn titles_sort_case_insensitively_and_stably() {
    let mut v = vec![
        Project::new("b".to_string()),
        Project::new("A".to_string()),
        Project::new("a".to_string()),
        Project::new("B".to_string()),
    ];
    let first_a = v[1].id;
    sort_projects_by_title(&mut v);
    let titles: Vec<&str> = v.iter().map(|p| p.title.as_str()).collect();
    assert_eq!(titles, vec!["A", "a", "b", "B"]);
    assert_eq!(v[0].id, first_a);
}

#[test]
fn search_escape_returns_to_the_screen_before() {
    let mut app = app_with(vec![Project::new("Alpha".to_string())], Vec::new());
    handle_event(&mut app, ch('3')).unwrap();
    handle_event(&mut app, ch('/')).unwrap();
    assert_eq!(app.screen, Screen::Search);
    typed(&mut app, "alp");
    assert_eq!(app.search_results.len(), 1);
    handle_event(&mut app, ev(Key::Esc)).unwrap();
    assert!(app.input.is_none());
    assert_eq!(app.screen, Screen::Ideas);
}

#[test]
fn number_keys_switch_screens() {
    let mut app = app_with(Vec::new(), Vec::new());
    handle_event(&mut app, ch('2')).unwrap();
    assert_eq!(app.screen, Screen::Projects);
    handle_event(&mut app, ch('3')).unwrap();
    assert_eq!(app.screen, Screen::Ideas);
    assert_eq!(app.prev_screen, Screen::Projects);
    handle_event(&mut app, ch('1')).unwrap();
    assert_eq!(app.screen, Screen::Home);
    handle_event(&mut app, ch('3')).unwrap();
    handle_event(&mut app, ev(Key::Esc)).unwrap();
    assert_eq!(app.screen, Screen::Home);
}

#[test]
fn unicode_white_space_is_trimmed_from_input() {
    let mut app = app_with(Vec::new(), Vec::new());
    handle_event(&mut app, ch('p')).unwrap();
    typed(&mut app, "\u{3000}Alpha\u{a0}");
    handle_event(&mut app, ev(Key::Enter)).unwrap();
    assert_eq!(app.projects[0].title, "Alpha");
}

#[test]
fn new_items_get_a_creation_instant_and_a_version_4_id() {
    let p = Project::new("P".to_string());
    assert!(chrono::DateTime::parse_from_rfc3339(&p.created).is_ok());
    assert_eq!((p.id >> 76) & 0xf, 4);
    assert_eq!((p.id >> 62) & 0x3, 2);
    let i = Idea::new("I".to_string());
    assert!(chrono::DateTime::parse_from_rfc3339(&i.created).is_ok());
    let t1 = Task::new("a".to_string());
    let t2 = Task::new("a".to_string());
    assert_ne!(t1.id, t2.id);
    assert!(!t1.completed);
}
