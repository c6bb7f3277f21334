//! What a key press or a mouse event does to the application: the next state,
//! and the storage request that goes with it. Storage is done by the caller,
//! which hands the library the events and performs the requests; a failed
//! request ends the program, so that the order in which the request and the
//! update are made cannot be observed.

use vstd::prelude::*;
use crate::app::{
    App, AppView, ConfirmAction, ConfirmState, ConfirmView, DeleteMode, DeleteTarget, HomeFocus,
    IdeasFocus, InputAction, InputState, InputView, ProjectsFocus, Screen, idea_position,
    open_shortcut_by_index, project_position, task_position,
};
use crate::model::{
    Idea, IdeaView, Project, ProjectView, Task, TaskView, lemma_map_push, lemma_map_remove,
    lemma_map_update, texts, task_views,
};
use crate::order::{
    law_sort_ideas, law_sort_projects, sort_ideas, sort_ideas_by_title, sort_projects,
    sort_projects_by_title, text_lt,
};
use crate::search::{search_is_ok, search_ok};
use crate::shortcut::{
    index_for_two_letter_shortcut, is_shortcut_letter, shortcut_has_two_letter_forms,
    single_shortcut_index, spec_letter_index,
};
use crate::text::{
    lowercase, chars_of, decimal, decimal_chars, join2, join3, string_of, trim, trimmed, with_char, without_last,
};
use vstd::string::StringExecFns;

verus! {

/// The key of a key press, as far as the application tells keys apart.
#[derive(Debug, Clone, Copy, PartialEq, Eq, Structural)]
pub enum Key {
    Char(char),
    Enter,
    Esc,
    Backspace,
    Tab,
    BackTab,
    Up,
    Down,
    Left,
    Right,
    Other,
}

/// A key press: the key, and whether Control was held.
#[derive(Debug, Clone, Copy, PartialEq, Eq, Structural)]
pub struct KeyPress {
    pub code: Key,
    pub control: bool,
}

/// A mouse event, as far as the application tells them apart.
#[derive(Debug, Clone, Copy, PartialEq, Eq, Structural)]
pub enum Mouse {
    ScrollUp,
    ScrollDown,
    Other,
}

/// An event from the terminal: a key press, a mouse event, or anything else
/// (a key release, a resize, ...), which changes nothing.
#[derive(Debug, Clone, Copy, PartialEq, Eq, Structural)]
pub enum Input {
    Key(KeyPress),
    Mouse(Mouse),
    Other,
}

/// What storage has to do after an event: write a project's or an idea's
/// file, remove one, or nothing.
pub enum Effect {
    Nothing,
    SaveProject(Project),
    SaveIdea(Idea),
    DeleteProject(Project),
    DeleteIdea(Idea),
}

/// A storage request as the contracts see it.
pub enum EffectView {
    Nothing,
    SaveProject(ProjectView),
    SaveIdea(IdeaView),
    DeleteProject(ProjectView),
    DeleteIdea(IdeaView),
}

impl View for Effect {
    type V = EffectView;

    open spec fn view(&self) -> EffectView {
        match self {
            Effect::Nothing => EffectView::Nothing,
            Effect::SaveProject(p) => EffectView::SaveProject(p@),
            Effect::SaveIdea(i) => EffectView::SaveIdea(i@),
            Effect::DeleteProject(p) => EffectView::DeleteProject(p@),
            Effect::DeleteIdea(i) => EffectView::DeleteIdea(i@),
        }
    }
}

/// The random id and the creation instant that a new item gets.
pub struct Fresh {
    pub id: u128,
    pub created: Seq<char>,
}

/// A fresh id is a random (version 4, RFC 4122 variant) UUID, and a fresh
/// creation instant is UTC text to the second at least.
pub open spec fn fresh_ok(f: Fresh) -> bool {
    crate::model::is_v4(f.id) && crate::model::is_utc_stamp(f.created)
}

/// Whether `c` is a lower-case ASCII letter.
pub open spec fn is_lower(c: char) -> bool {
    'a' <= c && c <= 'z'
}

/// Whether `c` is a lower-case letter that starts a shortcut.
pub open spec fn is_shortcut_key(c: char) -> bool {
    is_lower(c) && spec_letter_index(c) is Some
}

/// Whether, with `total` items, some two-letter shortcut starts with `c`.
pub open spec fn has_two_letter_forms(c: char, total: int) -> bool {
    total > 17 && match spec_letter_index(c) {
        Some(k) => 17 + k * 26 < total,
        None => false,
    }
}

/// The index addressed by the two letters `first`, `second`.
pub open spec fn two_letter_index(first: char, second: char) -> Option<int> {
    match spec_letter_index(first) {
        Some(k) => Some(17 + k * 26 + (second as u8 - 97)),
        None => None,
    }
}

/// The cursor `idx` moved by `delta` in a list of `len` items and kept in
/// the list, computed in `i32` (the conversions truncate and the arithmetic
/// wraps, as in an optimized build).
pub open spec fn moved(idx: usize, len: usize, delta: i32) -> usize {
    let n = len as i32;
    let i0 = vstd::wrapping::i32_specs::wrapping_add(idx as i32, delta);
    let i1 = if i0 < 0 {
        0i32
    } else {
        i0
    };
    let i2 = if i1 >= n {
        vstd::wrapping::i32_specs::wrapping_sub(n, 1)
    } else {
        i1
    };
    i2 as usize
}

/// The other column of the home screen.
pub open spec fn other_home_focus(f: HomeFocus) -> HomeFocus {
    match f {
        HomeFocus::Projects => HomeFocus::Ideas,
        HomeFocus::Ideas => HomeFocus::Projects,
    }
}

/// An empty input prompt with a label and a purpose.
pub open spec fn prompt(label: Seq<char>, action: InputAction) -> Option<InputView> {
    Some(InputView { label, value: seq![], action })
}

/// A confirmation prompt asking to delete `what`.
pub open spec fn delete_prompt(what: Seq<char>, action: ConfirmAction) -> Option<ConfirmView> {
    Some(ConfirmView { message: "Delete "@ + what + "? (y/n)"@, action })
}

/// `what 'title'`.
pub open spec fn quoted(what: Seq<char>, title: Seq<char>) -> Seq<char> {
    what + title + "'"@
}

/// `s` with its last character removed, as `String::pop` does.
pub open spec fn popped(s: Seq<char>) -> Seq<char> {
    if s.len() > 0 {
        s.drop_last()
    } else {
        s
    }
}

/// The cursor one result further, back to the first after the last (the
/// increment wraps as in an optimized build).
pub open spec fn next_result(idx: usize, n: nat) -> usize {
    (vstd::wrapping::usize_specs::wrapping_add(idx, 1) % (n as usize)) as usize
}

/// The cursor one result back, to the last before the first.
pub open spec fn prev_result(idx: usize, n: nat) -> usize {
    if idx == 0 {
        (n - 1) as usize
    } else {
        (idx - 1) as usize
    }
}

impl AppView {
    /// The number of items on the home screen.
    pub open spec fn total(self) -> int {
        (self.projects.len() + self.ideas.len()) as int
    }

    /// Sorts projects and ideas by title.
    pub open spec fn sort_all(self) -> AppView {
        AppView { projects: sort_projects(self.projects), ideas: sort_ideas(self.ideas), ..self }
    }

    /// The project at `pi` with its task at `ti` replaced by `t`.
    pub open spec fn with_task(self, pi: int, ti: int, t: TaskView) -> AppView {
        AppView {
            projects: self.projects.update(
                pi,
                ProjectView { tasks: self.projects[pi].tasks.update(ti, t), ..self.projects[pi] },
            ),
            ..self
        }
    }

    /// The project at `pi` with its tasks replaced by `ts`.
    pub open spec fn with_tasks(self, pi: int, ts: Seq<TaskView>) -> AppView {
        AppView {
            projects: self.projects.update(pi, ProjectView { tasks: ts, ..self.projects[pi] }),
            ..self
        }
    }

    /// The idea at `ii` with its notes replaced by `ns`.
    pub open spec fn with_idea_notes(self, ii: int, ns: Seq<Seq<char>>) -> AppView {
        AppView {
            ideas: self.ideas.update(ii, IdeaView { notes: ns, ..self.ideas[ii] }),
            ..self
        }
    }

    // ---------------------------------------------------------------------
    // Shortcuts.

    /// What the item at `idx` of the home numbering is called in a delete
    /// prompt, and the deletion it asks for.
    pub open spec fn lookup_index(self, idx: int) -> Option<(Seq<char>, ConfirmAction)> {
        if idx >= self.total() || idx < 0 {
            None
        } else if idx < self.projects.len() {
            Some(
                (
                    quoted("project '"@, self.projects[idx].title),
                    ConfirmAction::DeleteProject(self.projects[idx].id),
                ),
            )
        } else {
            let i = self.ideas[idx - self.projects.len()];
            Some((quoted("idea '"@, i.title), ConfirmAction::DeleteIdea(i.id)))
        }
    }

    /// `lookup_index` for the item whose one-letter shortcut is `c`.
    pub open spec fn lookup_char(self, c: char) -> Option<(Seq<char>, ConfirmAction)> {
        match spec_letter_index(c) {
            Some(k) => self.lookup_index(k),
            None => None,
        }
    }

    /// What the shortcut for the item at `idx` does on the current screen:
    /// on the home screen it opens the item; on the projects screen it
    /// selects a project; on the ideas screen, with the list focused, it
    /// selects an idea.
    pub open spec fn activate_index(self, idx: int) -> AppView {
        match self.screen {
            Screen::Home => self.open_shortcut_by_index(idx),
            Screen::Projects => if 0 <= idx < self.projects.len() {
                AppView { project_idx: idx as usize, task_idx: 0, task_note_idx: 0, ..self }
            } else {
                self
            },
            Screen::Ideas => if self.ideas_focus == IdeasFocus::List && 0 <= idx
                < self.ideas.len() {
                AppView { idea_idx: idx as usize, idea_note_idx: 0, ..self }
            } else {
                self
            },
            _ => self,
        }
    }

    /// `activate_index` for the item whose one-letter shortcut is `c`.
    pub open spec fn activate_char(self, c: char) -> AppView {
        match spec_letter_index(c) {
            Some(k) => self.activate_index(k),
            None => self,
        }
    }

    /// The number of items that shortcuts address on the current screen.
    pub open spec fn shortcut_limit(self) -> int {
        match self.screen {
            Screen::Home => self.total(),
            Screen::Projects => self.projects.len() as int,
            Screen::Ideas => self.ideas.len() as int,
            _ => 0,
        }
    }

    /// Asks to confirm the deletion looked up.
    pub open spec fn ask_delete(self, found: (Seq<char>, ConfirmAction)) -> AppView {
        AppView { delete_mode: None, confirm: delete_prompt(found.0, found.1), ..self }
    }

    /// The key that follows the first letter of a possible two-letter
    /// shortcut (the pending letter already cleared): the state, and whether
    /// the key has been used up.
    pub open spec fn pending_key(self, first: char, k: KeyPress) -> (AppView, bool) {
        match k.code {
            Key::Char(second) => if is_lower(second) {
                let early = match two_letter_index(first, second) {
                    Some(idx) => if self.delete_mode is Some {
                        match self.lookup_index(idx) {
                            Some(found) => Some(self.ask_delete(found)),
                            None => None,
                        }
                    } else if idx < self.shortcut_limit() {
                        Some(self.activate_index(idx))
                    } else {
                        None
                    },
                    None => None,
                };
                match early {
                    Some(a) => (a, true),
                    None => if self.delete_mode is Some {
                        match self.lookup_char(first) {
                            Some(found) => (self.ask_delete(found), true),
                            None => (self, false),
                        }
                    } else {
                        (self.activate_char(first), false)
                    },
                }
            } else {
                (self, false)
            },
            _ => (self, false),
        }
    }

    // ---------------------------------------------------------------------
    // Moving the cursors.

    /// Moves the cursor of the focused home column.
    pub open spec fn move_home(self, delta: i32) -> AppView {
        match self.home_focus {
            HomeFocus::Projects => if self.projects.len() > 0 {
                AppView {
                    home_project_idx: moved(
                        self.home_project_idx,
                        self.projects.len() as usize,
                        delta,
                    ),
                    ..self
                }
            } else {
                self
            },
            HomeFocus::Ideas => if self.ideas.len() > 0 {
                AppView {
                    home_idea_idx: moved(self.home_idea_idx, self.ideas.len() as usize, delta),
                    ..self
                }
            } else {
                self
            },
        }
    }

    /// Moves the cursor of the focused column of the projects screen.
    pub open spec fn move_in_projects(self, delta: i32) -> AppView {
        match self.projects_focus {
            ProjectsFocus::List => if self.projects.len() > 0 {
                AppView {
                    project_idx: moved(self.project_idx, self.projects.len() as usize, delta),
                    task_idx: 0,
                    task_note_idx: 0,
                    ..self
                }
            } else {
                self
            },
            ProjectsFocus::Tasks => match self.current_project() {
                Some(p) => if p.tasks.len() > 0 {
                    AppView {
                        task_idx: moved(self.task_idx, p.tasks.len() as usize, delta),
                        task_note_idx: 0,
                        ..self
                    }
                } else {
                    self
                },
                None => self,
            },
            ProjectsFocus::Notes => match self.current_task() {
                Some(t) => if t.notes.len() > 0 {
                    AppView {
                        task_note_idx: moved(self.task_note_idx, t.notes.len() as usize, delta),
                        ..self
                    }
                } else {
                    self
                },
                None => self,
            },
        }
    }

    /// Moves the cursor of the focused column of the ideas screen.
    pub open spec fn move_in_ideas(self, delta: i32) -> AppView {
        match self.ideas_focus {
            IdeasFocus::List => if self.ideas.len() > 0 {
                AppView {
                    idea_idx: moved(self.idea_idx, self.ideas.len() as usize, delta),
                    idea_note_idx: 0,
                    ..self
                }
            } else {
                self
            },
            IdeasFocus::Notes => match self.current_idea() {
                Some(i) => if i.notes.len() > 0 {
                    AppView {
                        idea_note_idx: moved(self.idea_note_idx, i.notes.len() as usize, delta),
                        ..self
                    }
                } else {
                    self
                },
                None => self,
            },
        }
    }
}

impl AppView {
    // ---------------------------------------------------------------------
    // The home screen.

    /// Enter on the home screen: opens the project or idea under the home
    /// cursor (the project only while the projects screen's selection is in
    /// range).
    pub open spec fn open_current_home(self) -> AppView {
        match self.home_focus {
            HomeFocus::Projects => if self.project_idx < self.projects.len() {
                AppView {
                    project_idx: if self.home_project_idx < self.projects.len() - 1 {
                        self.home_project_idx
                    } else {
                        (self.projects.len() - 1) as usize
                    },
                    task_idx: 0,
                    task_note_idx: 0,
                    projects_focus: ProjectsFocus::List,
                    ..self
                }.go(Screen::Projects)
            } else {
                self
            },
            HomeFocus::Ideas => if self.ideas.len() > 0 {
                AppView {
                    idea_idx: if self.home_idea_idx < self.ideas.len() - 1 {
                        self.home_idea_idx
                    } else {
                        (self.ideas.len() - 1) as usize
                    },
                    idea_note_idx: 0,
                    ideas_focus: IdeasFocus::List,
                    ..self
                }.go(Screen::Ideas)
            } else {
                self
            },
        }
    }

    /// A shortcut letter on a screen whose shortcuts address `n` items: waits
    /// for a second letter where two-letter shortcuts start with `c`, else
    /// activates the one-letter shortcut.
    pub open spec fn shortcut_letter(self, c: char, n: int) -> AppView {
        if has_two_letter_forms(c, n) {
            AppView { pending_shortcut: Some(c), ..self }
        } else {
            self.activate_char(c)
        }
    }

    /// A key on the home screen.
    pub open spec fn home_key(self, k: KeyPress) -> AppView {
        match k.code {
            Key::Char('Q') => AppView { should_quit: true, ..self },
            Key::Char('?') => self.go(Screen::Help),
            Key::Char('/') => self.open_search(),
            Key::Char('1') => self.go(Screen::Home),
            Key::Char('2') => AppView {
                projects_focus: ProjectsFocus::List,
                ..self.go(Screen::Projects)
            },
            Key::Char('3') => AppView { ideas_focus: IdeasFocus::List, ..self.go(Screen::Ideas) },
            Key::Tab | Key::BackTab => AppView {
                home_focus: other_home_focus(self.home_focus),
                ..self
            },
            Key::Char('p') | Key::Char('P') => AppView {
                input: prompt("New project title"@, InputAction::NewProject),
                ..self
            },
            Key::Char('i') | Key::Char('I') => AppView {
                input: prompt("New idea title"@, InputAction::NewIdea),
                ..self
            },
            Key::Char('x') | Key::Char('X') => if self.total() == 0 {
                self.with_status("Nothing to delete"@)
            } else {
                AppView {
                    delete_mode: Some(DeleteMode { target: DeleteTarget::Project }),
                    ..self
                }.with_status("Delete: press shortcut letter (esc to cancel)"@)
            },
            Key::Enter => self.open_current_home(),
            Key::Down | Key::Char('j') => self.move_home(1i32),
            Key::Up | Key::Char('k') => self.move_home(-1i32),
            Key::Left | Key::Char('h') => AppView { home_focus: HomeFocus::Projects, ..self },
            Key::Right | Key::Char('l') => AppView { home_focus: HomeFocus::Ideas, ..self },
            Key::Char(c) => if is_shortcut_key(c) {
                self.shortcut_letter(c, self.total())
            } else {
                self
            },
            _ => self,
        }
    }

    // ---------------------------------------------------------------------
    // The projects screen.

    /// The next column of the projects screen, round.
    pub open spec fn projects_focus_cycled(self) -> ProjectsFocus {
        match self.projects_focus {
            ProjectsFocus::List => ProjectsFocus::Tasks,
            ProjectsFocus::Tasks => ProjectsFocus::Notes,
            ProjectsFocus::Notes => ProjectsFocus::List,
        }
    }

    /// The column left of the focused one on the projects screen.
    pub open spec fn projects_focus_left(self) -> ProjectsFocus {
        match self.projects_focus {
            ProjectsFocus::List => ProjectsFocus::List,
            ProjectsFocus::Tasks => ProjectsFocus::List,
            ProjectsFocus::Notes => ProjectsFocus::Tasks,
        }
    }

    /// The column right of the focused one on the projects screen.
    pub open spec fn projects_focus_right(self) -> ProjectsFocus {
        match self.projects_focus {
            ProjectsFocus::List => ProjectsFocus::Tasks,
            ProjectsFocus::Tasks => ProjectsFocus::Notes,
            ProjectsFocus::Notes => ProjectsFocus::Notes,
        }
    }

    /// `t` on the projects screen: the prompt for a new task of the selected
    /// project.
    pub open spec fn ask_new_task(self) -> AppView {
        match self.current_project() {
            Some(p) => AppView {
                input: prompt("New task title"@, InputAction::NewTask(p.id)),
                ..self
            },
            None => self.with_status("Create or select a project first"@),
        }
    }

    /// `n` on the projects screen: the prompt for a new note of the selected
    /// task.
    pub open spec fn ask_new_task_note(self) -> AppView {
        match (self.current_project(), self.current_task()) {
            (Some(p), Some(t)) => AppView {
                input: prompt("New note"@, InputAction::NewTaskNote(p.id, t.id)),
                ..self
            },
            _ => match self.current_project() {
                Some(p) => if p.tasks.len() == 0 {
                    self.with_status("Add a task first"@)
                } else {
                    self.with_status("Select a task in the middle column"@)
                },
                None => self.with_status("Select a project first"@),
            },
        }
    }

    /// Flips the completion of the selected task; the project is saved.
    pub open spec fn toggle_task_completed(self) -> (AppView, EffectView) {
        match (self.current_project(), self.current_task()) {
            (Some(p), Some(t)) => match project_position(self.projects, p.id) {
                Some(pi) => match task_position(self.projects[pi].tasks, t.id) {
                    Some(ti) => {
                        let old_t = self.projects[pi].tasks[ti];
                        let a = self.with_task(pi, ti, TaskView { completed: !old_t.completed, ..old_t });
                        (a, EffectView::SaveProject(a.projects[pi]))
                    },
                    None => (self, EffectView::Nothing),
                },
                None => (self, EffectView::Nothing),
            },
            _ => (self, EffectView::Nothing),
        }
    }

    /// `x` on the projects screen: asks to delete the selected project, task
    /// or note, by the focused column.
    pub open spec fn confirm_delete_in_projects(self) -> AppView {
        match self.projects_focus {
            ProjectsFocus::List => match self.current_project() {
                Some(p) => AppView {
                    confirm: delete_prompt(
                        quoted("project '"@, p.title),
                        ConfirmAction::DeleteProject(p.id),
                    ),
                    ..self
                },
                None => self.with_status("Nothing to delete"@),
            },
            ProjectsFocus::Tasks => match (self.current_project(), self.current_task()) {
                (Some(p), Some(t)) => AppView {
                    confirm: delete_prompt(
                        quoted("task '"@, t.title),
                        ConfirmAction::DeleteTask(p.id, t.id),
                    ),
                    ..self
                },
                _ => self.with_status("Nothing to delete"@),
            },
            ProjectsFocus::Notes => match (self.current_project(), self.current_task()) {
                (Some(p), Some(t)) => if self.task_note_idx < t.notes.len() {
                    AppView {
                        confirm: delete_prompt(
                            "note "@ + decimal((self.task_note_idx + 1) as nat),
                            ConfirmAction::DeleteProjectNote(p.id, t.id, self.task_note_idx),
                        ),
                        ..self
                    }
                } else {
                    self.with_status("No note selected"@)
                },
                _ => self.with_status("Nothing to delete"@),
            },
        }
    }

    /// A key on the projects screen.
    pub open spec fn projects_key(self, k: KeyPress) -> (AppView, EffectView) {
        match k.code {
            Key::Char(' ') => if self.projects_focus == ProjectsFocus::Tasks {
                self.toggle_task_completed()
            } else {
                (self, EffectView::Nothing)
            },
            _ => (
                match k.code {
                    Key::Char('Q') => AppView { should_quit: true, ..self },
                    Key::Esc => self.go(Screen::Home),
                    Key::Char('?') => self.go(Screen::Help),
                    Key::Char('/') => self.open_search(),
                    Key::Char('1') => self.go(Screen::Home),
                    Key::Char('2') => self.go(Screen::Projects),
                    Key::Char('3') => AppView {
                        ideas_focus: IdeasFocus::List,
                        ..self.go(Screen::Ideas)
                    },
                    Key::Tab | Key::BackTab => AppView {
                        projects_focus: self.projects_focus_cycled(),
                        ..self
                    },
                    Key::Char('p') | Key::Char('P') => AppView {
                        input: prompt("New project title"@, InputAction::NewProject),
                        ..self
                    },
                    Key::Char('t') | Key::Char('T') => self.ask_new_task(),
                    Key::Char('n') | Key::Char('N') => self.ask_new_task_note(),
                    Key::Char('x') | Key::Char('X') => self.confirm_delete_in_projects(),
                    Key::Down | Key::Char('j') => self.move_in_projects(1i32),
                    Key::Up | Key::Char('k') => self.move_in_projects(-1i32),
                    Key::Left | Key::Char('h') => AppView {
                        projects_focus: self.projects_focus_left(),
                        ..self
                    },
                    Key::Right | Key::Char('l') => AppView {
                        projects_focus: self.projects_focus_right(),
                        ..self
                    },
                    Key::Char(c) => if is_shortcut_key(c) {
                        self.shortcut_letter(c, self.projects.len() as int)
                    } else {
                        self
                    },
                    _ => self,
                },
                EffectView::Nothing,
            ),
        }
    }

    // ---------------------------------------------------------------------
    // The ideas screen.

    /// `x` on the ideas screen: asks to delete the selected idea or note, by
    /// the focused column.
    pub open spec fn confirm_delete_in_ideas(self) -> AppView {
        match self.ideas_focus {
            IdeasFocus::List => match self.current_idea() {
                Some(i) => AppView {
                    confirm: delete_prompt(quoted("idea '"@, i.title), ConfirmAction::DeleteIdea(i.id)),
                    ..self
                },
                None => self.with_status("Nothing to delete"@),
            },
            IdeasFocus::Notes => match self.current_idea() {
                Some(i) => if self.idea_note_idx < i.notes.len() {
                    AppView {
                        confirm: delete_prompt(
                            "note "@ + decimal((self.idea_note_idx + 1) as nat),
                            ConfirmAction::DeleteIdeaNote(i.id, self.idea_note_idx),
                        ),
                        ..self
                    }
                } else {
                    self.with_status("No note selected"@)
                },
                None => self,
            },
        }
    }

    /// A key on the ideas screen.
    pub open spec fn ideas_key(self, k: KeyPress) -> AppView {
        match k.code {
            Key::Char('Q') => AppView { should_quit: true, ..self },
            Key::Esc => self.go(Screen::Home),
            Key::Char('?') => self.go(Screen::Help),
            Key::Char('/') => self.open_search(),
            Key::Char('1') => self.go(Screen::Home),
            Key::Char('2') => AppView {
                projects_focus: ProjectsFocus::List,
                ..self.go(Screen::Projects)
            },
            Key::Char('3') => self.go(Screen::Ideas),
            Key::Tab | Key::BackTab => AppView {
                ideas_focus: match self.ideas_focus {
                    IdeasFocus::List => IdeasFocus::Notes,
                    IdeasFocus::Notes => IdeasFocus::List,
                },
                ..self
            },
            Key::Char('i') | Key::Char('I') => AppView {
                input: prompt("New idea title"@, InputAction::NewIdea),
                ..self
            },
            Key::Char('n') | Key::Char('N') => match self.current_idea() {
                Some(i) => AppView {
                    input: prompt("New note"@, InputAction::NewIdeaNote(i.id)),
                    ..self
                },
                None => self.with_status("Select or create an idea first"@),
            },
            Key::Char('x') | Key::Char('X') => self.confirm_delete_in_ideas(),
            Key::Down | Key::Char('j') => self.move_in_ideas(1i32),
            Key::Up | Key::Char('k') => self.move_in_ideas(-1i32),
            Key::Left | Key::Char('h') => AppView { ideas_focus: IdeasFocus::List, ..self },
            Key::Right | Key::Char('l') => AppView { ideas_focus: IdeasFocus::Notes, ..self },
            Key::Char(c) => if is_shortcut_key(c) && self.ideas_focus == IdeasFocus::List {
                self.shortcut_letter(c, self.ideas.len() as int)
            } else {
                self
            },
            _ => self,
        }
    }

    // ---------------------------------------------------------------------
    // The search and help screens, and the mouse.

    /// Closes the prompt and goes back to the screen before.
    pub open spec fn leave_search(self) -> AppView {
        AppView { input: None, ..self }.go(self.prev_screen)
    }

    /// A key on the search screen.
    pub open spec fn search_key(self, k: KeyPress) -> AppView {
        let n = self.search_results.len();
        match k.code {
            Key::Esc => self.leave_search(),
            Key::Enter => if n == 0 {
                self.leave_search()
            } else if self.open_search_result().1 {
                self.open_search_result().0.with_status("Opened"@)
            } else {
                self.open_search_result().0.with_status("Item not found"@)
            },
            Key::Down | Key::Char('j') => if n > 0 {
                AppView { search_result_idx: next_result(self.search_result_idx, n), ..self }
            } else {
                self
            },
            Key::Up | Key::Char('k') => if n > 0 {
                AppView { search_result_idx: prev_result(self.search_result_idx, n), ..self }
            } else {
                self
            },
            _ => self,
        }
    }

    /// A key on the help screen: back to the screen before.
    pub open spec fn help_key(self, k: KeyPress) -> AppView {
        match k.code {
            Key::Esc | Key::Enter | Key::Char('?') | Key::Char('Q') => self.go(self.prev_screen),
            _ => self,
        }
    }

    /// A mouse event: the wheel moves the cursor of the focused column,
    /// unless a prompt or the delete mode is open.
    pub open spec fn mouse(self, m: Mouse) -> AppView {
        if self.confirm is Some || self.input is Some || self.delete_mode is Some {
            self
        } else {
            let delta: i32 = match m {
                Mouse::ScrollUp => -1i32,
                _ => 1i32,
            };
            match m {
                Mouse::Other => self,
                _ => match self.screen {
                    Screen::Home => self.move_home(delta),
                    Screen::Projects => self.move_in_projects(delta),
                    Screen::Ideas => self.move_in_ideas(delta),
                    _ => self,
                },
            }
        }
    }
}

impl AppView {
    // ---------------------------------------------------------------------
    // The delete mode.

    /// A key in the delete mode: a shortcut letter asks to delete its item
    /// (or waits for a second letter); Esc leaves the mode.
    pub open spec fn delete_mode_key(self, k: KeyPress) -> AppView {
        match k.code {
            Key::Esc => AppView { delete_mode: None, ..self }.with_status("Delete cancelled"@),
            Key::Char(c) => if is_shortcut_key(c) {
                if has_two_letter_forms(c, self.total()) {
                    AppView { pending_shortcut: Some(c), ..self }
                } else {
                    match self.lookup_char(c) {
                        Some(found) => self.ask_delete(found),
                        None => AppView {
                            delete_mode: None,
                            ..self.with_status("No item with shortcut '"@ + seq![c] + "'"@)
                        },
                    }
                }
            } else {
                self
            },
            _ => self,
        }
    }

    // ---------------------------------------------------------------------
    // Confirmations.

    /// Carries out a confirmed deletion.
    pub open spec fn execute_confirm(self, action: ConfirmAction) -> (AppView, EffectView) {
        let nothing = (self, EffectView::Nothing);
        match action {
            ConfirmAction::DeleteProject(id) => match project_position(self.projects, id) {
                Some(pos) => {
                    let p = self.projects[pos];
                    (
                        AppView { projects: self.projects.remove(pos), ..self }.clamp().with_status(
                            quoted("Deleted project '"@, p.title),
                        ),
                        EffectView::DeleteProject(p),
                    )
                },
                None => nothing,
            },
            ConfirmAction::DeleteIdea(id) => match idea_position(self.ideas, id) {
                Some(pos) => {
                    let i = self.ideas[pos];
                    (
                        AppView { ideas: self.ideas.remove(pos), ..self }.clamp().with_status(
                            quoted("Deleted idea '"@, i.title),
                        ),
                        EffectView::DeleteIdea(i),
                    )
                },
                None => nothing,
            },
            ConfirmAction::DeleteTask(pid, tid) => match project_position(self.projects, pid) {
                Some(pi) => match task_position(self.projects[pi].tasks, tid) {
                    Some(ti) => {
                        let t = self.projects[pi].tasks[ti];
                        let a = self.with_tasks(pi, self.projects[pi].tasks.remove(ti));
                        (
                            a.clamp().with_status(quoted("Deleted task '"@, t.title)),
                            EffectView::SaveProject(a.projects[pi]),
                        )
                    },
                    None => nothing,
                },
                None => nothing,
            },
            ConfirmAction::DeleteProjectNote(pid, tid, n) => match project_position(
                self.projects,
                pid,
            ) {
                Some(pi) => match task_position(self.projects[pi].tasks, tid) {
                    Some(ti) => {
                        let t = self.projects[pi].tasks[ti];
                        if n < t.notes.len() {
                            let a = self.with_task(
                                pi,
                                ti,
                                TaskView { notes: t.notes.remove(n as int), ..t },
                            );
                            (
                                a.clamp().with_status("Deleted note"@),
                                EffectView::SaveProject(a.projects[pi]),
                            )
                        } else {
                            nothing
                        }
                    },
                    None => nothing,
                },
                None => nothing,
            },
            ConfirmAction::DeleteIdeaNote(id, n) => match idea_position(self.ideas, id) {
                Some(ii) => if n < self.ideas[ii].notes.len() {
                    let a = self.with_idea_notes(ii, self.ideas[ii].notes.remove(n as int));
                    (a.clamp().with_status("Deleted note"@), EffectView::SaveIdea(a.ideas[ii]))
                } else {
                    nothing
                },
                None => nothing,
            },
        }
    }

    /// A key while a confirmation is asked: `y` or Enter carries it out, `n`
    /// or Esc cancels it.
    pub open spec fn confirm_key(self, k: KeyPress) -> (AppView, EffectView) {
        match k.code {
            Key::Char('y') | Key::Char('Y') | Key::Enter => match self.confirm {
                Some(c) => AppView { confirm: None, ..self }.execute_confirm(c.action),
                None => (self, EffectView::Nothing),
            },
            Key::Char('n') | Key::Char('N') | Key::Esc => (
                AppView { confirm: None, ..self }.with_status("Cancelled"@),
                EffectView::Nothing,
            ),
            _ => (self, EffectView::Nothing),
        }
    }

    // ---------------------------------------------------------------------
    // The input prompt.

    /// Carries out what was typed into a prompt (already closed), with `f`
    /// as the id and creation instant of a new item.
    pub open spec fn execute_input(self, text: Seq<char>, action: InputAction, f: Fresh) -> (
        AppView,
        EffectView,
    ) {
        let value = trim(text);
        if value.len() == 0 {
            (self.with_status("Empty input discarded"@), EffectView::Nothing)
        } else {
            self.apply_input(value, action, f)
        }
    }

    /// Carries out the non-empty trimmed text `value` typed into a prompt.
    pub open spec fn apply_input(self, value: Seq<char>, action: InputAction, f: Fresh) -> (
        AppView,
        EffectView,
    ) {
        let nothing = (self, EffectView::Nothing);
        {
            match action {
                InputAction::NewProject => {
                    let p = ProjectView { id: f.id, title: value, created: f.created, tasks: seq![] };
                    (
                        AppView { projects: self.projects.push(p), ..self }.sort_all().clamp().with_status(
                            quoted("Created project '"@, value),
                        ),
                        EffectView::SaveProject(p),
                    )
                },
                InputAction::NewTask(pid) => match project_position(self.projects, pid) {
                    Some(pi) => {
                        let t = TaskView { id: f.id, title: value, completed: false, notes: seq![] };
                        let a = self.with_tasks(pi, self.projects[pi].tasks.push(t));
                        (
                            a.with_status(quoted("Added task '"@, value)),
                            EffectView::SaveProject(a.projects[pi]),
                        )
                    },
                    None => nothing,
                },
                InputAction::NewTaskNote(pid, tid) => match project_position(self.projects, pid) {
                    Some(pi) => match task_position(self.projects[pi].tasks, tid) {
                        Some(ti) => {
                            let t = self.projects[pi].tasks[ti];
                            let a = self.with_task(pi, ti, TaskView { notes: t.notes.push(value), ..t });
                            (a.with_status("Added note"@), EffectView::SaveProject(a.projects[pi]))
                        },
                        None => nothing,
                    },
                    None => nothing,
                },
                InputAction::NewIdea => {
                    let i = IdeaView { id: f.id, title: value, created: f.created, notes: seq![] };
                    (
                        AppView { ideas: self.ideas.push(i), ..self }.sort_all().clamp().with_status(
                            quoted("Created idea '"@, value),
                        ),
                        EffectView::SaveIdea(i),
                    )
                },
                InputAction::NewIdeaNote(id) => match idea_position(self.ideas, id) {
                    Some(ii) => {
                        let a = self.with_idea_notes(ii, self.ideas[ii].notes.push(value));
                        (a.with_status("Added note"@), EffectView::SaveIdea(a.ideas[ii]))
                    },
                    None => nothing,
                },
                InputAction::Search => (
                    AppView { search_query: value, ..self }.refresh_search(),
                    EffectView::Nothing,
                ),
            }
        }
    }

    /// Whether the prompt open is the search prompt.
    pub open spec fn in_search(self) -> bool {
        self.input matches Some(s) && s.action == InputAction::Search
    }

    /// The prompt's text after a key that edits it.
    pub open spec fn edited(self, k: KeyPress) -> AppView {
        match self.input {
            Some(st) => match k.code {
                Key::Backspace => AppView {
                    input: Some(InputView { value: popped(st.value), ..st }),
                    ..self
                },
                Key::Char(c) => if !k.control {
                    AppView { input: Some(InputView { value: st.value.push(c), ..st }), ..self }
                } else {
                    self
                },
                _ => self,
            },
            None => self,
        }
    }

    /// Enter in the search prompt: searches for the trimmed text and opens
    /// the result under the cursor.
    pub open spec fn submit_search(self, text: Seq<char>) -> AppView {
        let a = AppView { search_query: trim(text), ..self }.refresh_search();
        let (b, opened) = a.open_search_result();
        if opened {
            b.with_status("Opened"@)
        } else if b.search_results.len() > 0 {
            b.with_status("No match to open"@)
        } else {
            b.leave_search()
        }
    }

    /// A key while the prompt is open. In the search prompt the arrows move
    /// the cursor over the results, and every edit searches again.
    pub open spec fn input_key(self, k: KeyPress, f: Fresh) -> (AppView, EffectView) {
        let n = self.search_results.len();
        if self.in_search() && k.code == Key::Down {
            (
                if n > 0 {
                    AppView { search_result_idx: next_result(self.search_result_idx, n), ..self }
                } else {
                    self
                },
                EffectView::Nothing,
            )
        } else if self.in_search() && k.code == Key::Up {
            (
                if n > 0 {
                    AppView { search_result_idx: prev_result(self.search_result_idx, n), ..self }
                } else {
                    self
                },
                EffectView::Nothing,
            )
        } else if self.input is Some && k.code == Key::Esc {
            let a = AppView { input: None, ..self };
            (
                if self.in_search() {
                    a.go(a.prev_screen)
                } else {
                    a.with_status("Cancelled"@)
                },
                EffectView::Nothing,
            )
        } else if self.input is Some && k.code == Key::Enter {
            let st = self.input->0;
            let a = AppView { input: None, ..self };
            if st.action == InputAction::Search {
                (a.submit_search(st.value), EffectView::Nothing)
            } else {
                a.execute_input(st.value, st.action, f)
            }
        } else {
            let a = self.edited(k);
            if self.in_search() {
                (
                    AppView { search_query: a.input->0.value, ..a }.refresh_search(),
                    EffectView::Nothing,
                )
            } else {
                (a, EffectView::Nothing)
            }
        }
    }

    /// Whether every search that a key in the prompt runs can cut its
    /// snippets (cutting one otherwise panics; see `search_ok`).
    pub open spec fn input_key_ok(self, k: KeyPress) -> bool {
        if self.in_search() && (k.code == Key::Down || k.code == Key::Up) {
            true
        } else if self.input is Some && k.code == Key::Esc {
            true
        } else if self.input is Some && k.code == Key::Enter {
            let st = self.input->0;
            st.action == InputAction::Search ==> search_ok(
                self.projects,
                self.ideas,
                trim(st.value),
            )
        } else {
            self.in_search() ==> search_ok(self.projects, self.ideas, self.edited(k).input->0.value)
        }
    }

    // ---------------------------------------------------------------------
    // Dispatch.

    /// A key, after a pending shortcut letter was dealt with: a prompt or
    /// the delete mode takes it first, else the screen shown.
    pub open spec fn dispatch_key(self, k: KeyPress, f: Fresh) -> (AppView, EffectView) {
        if self.confirm is Some {
            self.confirm_key(k)
        } else if self.input is Some {
            self.input_key(k, f)
        } else if self.delete_mode is Some {
            (self.delete_mode_key(k), EffectView::Nothing)
        } else {
            match self.screen {
                Screen::Home => (self.home_key(k), EffectView::Nothing),
                Screen::Projects => self.projects_key(k),
                Screen::Ideas => (self.ideas_key(k), EffectView::Nothing),
                Screen::Search => (self.search_key(k), EffectView::Nothing),
                Screen::Help => (self.help_key(k), EffectView::Nothing),
            }
        }
    }

    /// The state after the pending shortcut letter, if any, has seen the
    /// key, and whether the key was used up there.
    pub open spec fn after_pending(self, k: KeyPress) -> (AppView, bool) {
        match self.pending_shortcut {
            Some(first) => AppView { pending_shortcut: None, ..self }.pending_key(first, k),
            None => (self, false),
        }
    }

    /// A key press. Nothing happens once the application is quitting.
    pub open spec fn key(self, k: KeyPress, f: Fresh) -> (AppView, EffectView) {
        if self.should_quit {
            (self, EffectView::Nothing)
        } else {
            let (a, used) = self.after_pending(k);
            if used {
                (a, EffectView::Nothing)
            } else {
                a.dispatch_key(k, f)
            }
        }
    }

    /// An event, with `f` as the id and creation instant of a new item.
    pub open spec fn step(self, input: Input, f: Fresh) -> (AppView, EffectView) {
        match input {
            Input::Key(k) => self.key(k, f),
            Input::Mouse(m) => (self.mouse(m), EffectView::Nothing),
            Input::Other => (self, EffectView::Nothing),
        }
    }

    /// Whether the event can be handled without a panic: every search it
    /// runs can cut its snippets.
    pub open spec fn step_ok(self, input: Input) -> bool {
        match input {
            Input::Key(k) => !self.should_quit ==> {
                let (a, used) = self.after_pending(k);
                !used && a.confirm is None && a.input is Some ==> a.input_key_ok(k)
            },
            _ => true,
        }
    }
}

// -------------------------------------------------------------------------
// Shortcuts.

/// Whether `c` is a lower-case ASCII letter.
fn is_ascii_lower(c: char) -> (r: bool)
    ensures
        r == is_lower(c),
{
    'a' <= c && c <= 'z'
}

/// What the item at `idx` of the home numbering is called in a delete
/// prompt, and the deletion it asks for.
fn lookup_shortcut_by_index(app: &App, idx: usize) -> (r: Option<(String, ConfirmAction)>)
    requires
        app@.total() <= usize::MAX,
    ensures
        match r {
            Some((label, action)) => app@.lookup_index(idx as int) == Some((label@, action)),
            None => app@.lookup_index(idx as int) is None,
        },
{
    let np = app.projects.len();
    let total = np + app.ideas.len();
    if idx >= total {
        return None;
    }
    if idx < np {
        let p = &app.projects[idx];
        assert(app@.projects[idx as int] == p@);
        let title = chars_of(p.title.as_str());
        Some((join3("project '", title.as_slice(), "'"), ConfirmAction::DeleteProject(p.id)))
    } else {
        let i = &app.ideas[idx - np];
        assert(app@.ideas[idx - np] == i@);
        let title = chars_of(i.title.as_str());
        Some((join3("idea '", title.as_slice(), "'"), ConfirmAction::DeleteIdea(i.id)))
    }
}

/// `lookup_shortcut_by_index` for the item whose one-letter shortcut is `c`.
fn lookup_shortcut_by_char(app: &App, c: char) -> (r: Option<(String, ConfirmAction)>)
    requires
        app@.total() <= usize::MAX,
    ensures
        match r {
            Some((label, action)) => app@.lookup_char(c) == Some((label@, action)),
            None => app@.lookup_char(c) is None,
        },
{
    match single_shortcut_index(c) {
        Some(idx) => lookup_shortcut_by_index(app, idx),
        None => None,
    }
}

/// Asks to confirm the deletion of `label`.
fn ask_delete(app: &mut App, label: String, action: ConfirmAction)
    ensures
        final(app)@ == old(app)@.ask_delete((label@, action)),
{
    app.delete_mode = None;
    let l = chars_of(label.as_str());
    app.confirm = Some(ConfirmState { message: join3("Delete ", l.as_slice(), "? (y/n)"), action });
}

/// What the shortcut for the item at `idx` does on the current screen.
fn activate_shortcut_by_index(app: &mut App, idx: usize)
    requires
        old(app)@.total() <= usize::MAX,
    ensures
        final(app)@ == old(app)@.activate_index(idx as int),
{
    match app.screen {
        Screen::Home => open_shortcut_by_index(app, idx),
        Screen::Projects => {
            if idx < app.projects.len() {
                app.project_idx = idx;
                app.task_idx = 0;
                app.task_note_idx = 0;
            }
        },
        Screen::Ideas => {
            if app.ideas_focus == IdeasFocus::List {
                if idx < app.ideas.len() {
                    app.idea_idx = idx;
                    app.idea_note_idx = 0;
                }
            }
        },
        _ => {},
    }
}

/// `activate_shortcut_by_index` for the item whose one-letter shortcut is
/// `c`.
fn activate_shortcut_by_char(app: &mut App, c: char)
    requires
        old(app)@.total() <= usize::MAX,
    ensures
        final(app)@ == old(app)@.activate_char(c),
{
    if let Some(idx) = single_shortcut_index(c) {
        activate_shortcut_by_index(app, idx);
    }
}

/// The key after the first letter of a possible two-letter shortcut (the
/// pending letter already cleared); tells whether the key was used up.
fn handle_pending_key(app: &mut App, first: char, key: KeyPress) -> (used: bool)
    requires
        old(app)@.total() <= usize::MAX,
    ensures
        (final(app)@, used) == old(app)@.pending_key(first, key),
{
    match key.code {
        Key::Char(second) => {
            if !is_ascii_lower(second) {
                return false;
            }
            if let Some(idx) = index_for_two_letter_shortcut(first, second) {
                if app.delete_mode.is_some() {
                    if let Some((label, action)) = lookup_shortcut_by_index(app, idx) {
                        ask_delete(app, label, action);
                        return true;
                    }
                } else {
                    let limit = match app.screen {
                        Screen::Home => app.projects.len() + app.ideas.len(),
                        Screen::Projects => app.projects.len(),
                        Screen::Ideas => app.ideas.len(),
                        _ => 0,
                    };
                    if idx < limit {
                        activate_shortcut_by_index(app, idx);
                        return true;
                    }
                }
            }
            if app.delete_mode.is_some() {
                if let Some((label, action)) = lookup_shortcut_by_char(app, first) {
                    ask_delete(app, label, action);
                    return true;
                }
            } else {
                activate_shortcut_by_char(app, first);
            }
            false
        },
        _ => false,
    }
}

// -------------------------------------------------------------------------
// Moving the cursors.

/// The cursor `idx` moved by `delta` in a list of `len` items (see `moved`).
fn move_index(idx: usize, len: usize, delta: i32) -> (r: usize)
    ensures
        r == moved(idx, len, delta),
{
    let n = len as i32;
    let mut i = (idx as i32).wrapping_add(delta);
    if i < 0 {
        i = 0;
    }
    if i >= n {
        i = n.wrapping_sub(1);
    }
    i as usize
}

/// Moves the cursor of the focused home column.
fn move_home(app: &mut App, delta: i32)
    ensures
        final(app)@ == old(app)@.move_home(delta),
{
    match app.home_focus {
        HomeFocus::Projects => {
            if app.projects.len() > 0 {
                app.home_project_idx = move_index(app.home_project_idx, app.projects.len(), delta);
            }
        },
        HomeFocus::Ideas => {
            if app.ideas.len() > 0 {
                app.home_idea_idx = move_index(app.home_idea_idx, app.ideas.len(), delta);
            }
        },
    }
}

/// Moves the cursor of the focused column of the projects screen.
fn move_in_projects(app: &mut App, delta: i32)
    ensures
        final(app)@ == old(app)@.move_in_projects(delta),
{
    match app.projects_focus {
        ProjectsFocus::List => {
            if app.projects.len() > 0 {
                app.project_idx = move_index(app.project_idx, app.projects.len(), delta);
                app.task_idx = 0;
                app.task_note_idx = 0;
            }
        },
        ProjectsFocus::Tasks => {
            let len = match app.current_project() {
                Some(p) => p.tasks.len(),
                None => 0,
            };
            if len > 0 {
                app.task_idx = move_index(app.task_idx, len, delta);
                app.task_note_idx = 0;
            }
        },
        ProjectsFocus::Notes => {
            let len = match app.current_task() {
                Some(t) => t.notes.len(),
                None => 0,
            };
            if len > 0 {
                app.task_note_idx = move_index(app.task_note_idx, len, delta);
            }
        },
    }
}

/// Moves the cursor of the focused column of the ideas screen.
fn move_in_ideas(app: &mut App, delta: i32)
    ensures
        final(app)@ == old(app)@.move_in_ideas(delta),
{
    match app.ideas_focus {
        IdeasFocus::List => {
            if app.ideas.len() > 0 {
                app.idea_idx = move_index(app.idea_idx, app.ideas.len(), delta);
                app.idea_note_idx = 0;
            }
        },
        IdeasFocus::Notes => {
            let len = match app.current_idea() {
                Some(i) => i.notes.len(),
                None => 0,
            };
            if len > 0 {
                app.idea_note_idx = move_index(app.idea_note_idx, len, delta);
            }
        },
    }
}

// -------------------------------------------------------------------------
// Prompts and messages.

/// An empty input prompt with a label and a purpose.
fn new_prompt(label: &str, action: InputAction) -> (r: Option<InputState>)
    ensures
        opt_input_of(r) == prompt(label@, action),
{
    Some(InputState { label: String::from_str(label), value: String::new(), action })
}

/// The view of an optional prompt.
pub open spec fn opt_input_of(o: Option<InputState>) -> Option<InputView> {
    match o {
        Some(s) => Some(s@),
        None => None,
    }
}

/// Sets the status line to `msg`.
fn say(app: &mut App, msg: &str)
    ensures
        final(app)@ == old(app)@.with_status(msg@),
{
    app.set_status(String::from_str(msg));
}

/// Asks to confirm a deletion of what `label` names.
fn ask_to_delete(app: &mut App, label: &[char], action: ConfirmAction)
    ensures
        final(app)@ == (AppView { confirm: delete_prompt(label@, action), ..old(app)@ }),
{
    app.confirm = Some(ConfirmState { message: join3("Delete ", label, "? (y/n)"), action });
}

/// `what 'title'`.
fn quote(what: &str, title: &str) -> (r: Vec<char>)
    ensures
        r@ == quoted(what@, title@),
{
    let t = chars_of(title);
    let s = join3(what, t.as_slice(), "'");
    chars_of(s.as_str())
}

/// `note n`, with `n` counted from 1.
fn note_label(idx: usize) -> (r: Vec<char>)
    requires
        idx < usize::MAX,
    ensures
        r@ == "note "@ + decimal((idx + 1) as nat),
{
    let d = decimal_chars(idx + 1);
    let s = join2("note ", d.as_slice());
    chars_of(s.as_str())
}

// -------------------------------------------------------------------------
// The home screen.

/// The other column of the home screen.
pub fn toggle_home_focus(f: HomeFocus) -> (r: HomeFocus)
    ensures
        r == other_home_focus(f),
{
    match f {
        HomeFocus::Projects => HomeFocus::Ideas,
        HomeFocus::Ideas => HomeFocus::Projects,
    }
}

/// Enter on the home screen: opens the item under the home cursor.
fn open_current_home(app: &mut App)
    ensures
        final(app)@ == old(app)@.open_current_home(),
{
    match app.home_focus {
        HomeFocus::Projects => {
            if app.project_idx < app.projects.len() {
                let last = app.projects.len() - 1;
                app.project_idx = if app.home_project_idx < last {
                    app.home_project_idx
                } else {
                    last
                };
                app.task_idx = 0;
                app.task_note_idx = 0;
                app.projects_focus = ProjectsFocus::List;
                app.go(Screen::Projects);
            }
        },
        HomeFocus::Ideas => {
            if app.ideas.len() > 0 {
                let last = app.ideas.len() - 1;
                app.idea_idx = if app.home_idea_idx < last {
                    app.home_idea_idx
                } else {
                    last
                };
                app.idea_note_idx = 0;
                app.ideas_focus = IdeasFocus::List;
                app.go(Screen::Ideas);
            }
        },
    }
}

/// A shortcut letter on a screen whose shortcuts address `n` items.
fn shortcut_letter(app: &mut App, c: char, n: usize)
    requires
        old(app)@.total() <= usize::MAX,
    ensures
        final(app)@ == old(app)@.shortcut_letter(c, n as int),
{
    if n > 17 && shortcut_has_two_letter_forms(c, n) {
        app.pending_shortcut = Some(c);
    } else {
        activate_shortcut_by_char(app, c);
    }
}

/// A key on the home screen.
fn handle_home_key(app: &mut App, key: KeyPress)
    requires
        old(app)@.total() <= usize::MAX,
    ensures
        final(app)@ == old(app)@.home_key(key),
{
    match key.code {
        Key::Char('Q') => app.should_quit = true,
        Key::Char('?') => app.go(Screen::Help),
        Key::Char('/') => app.open_search(),
        Key::Char('1') => app.go(Screen::Home),
        Key::Char('2') => {
            app.go(Screen::Projects);
            app.projects_focus = ProjectsFocus::List;
        },
        Key::Char('3') => {
            app.go(Screen::Ideas);
            app.ideas_focus = IdeasFocus::List;
        },
        Key::Tab | Key::BackTab => {
            app.home_focus = toggle_home_focus(app.home_focus);
        },
        Key::Char('p') | Key::Char('P') => {
            app.input = new_prompt("New project title", InputAction::NewProject);
        },
        Key::Char('i') | Key::Char('I') => {
            app.input = new_prompt("New idea title", InputAction::NewIdea);
        },
        Key::Char('x') | Key::Char('X') => {
            let total = app.projects.len() + app.ideas.len();
            if total == 0 {
                say(app, "Nothing to delete");
            } else {
                app.delete_mode = Some(DeleteMode { target: DeleteTarget::Project });
                say(app, "Delete: press shortcut letter (esc to cancel)");
            }
        },
        Key::Enter => open_current_home(app),
        Key::Down | Key::Char('j') => move_home(app, 1),
        Key::Up | Key::Char('k') => move_home(app, -1),
        Key::Left | Key::Char('h') => {
            app.home_focus = HomeFocus::Projects;
        },
        Key::Right | Key::Char('l') => {
            app.home_focus = HomeFocus::Ideas;
        },
        Key::Char(c) => {
            if is_ascii_lower(c) && is_shortcut_letter(c) {
                let total = app.projects.len() + app.ideas.len();
                shortcut_letter(app, c, total);
            }
        },
        _ => {},
    }
}

// -------------------------------------------------------------------------
// The projects screen.

/// Flips the completion of the selected task; asks to save its project.
fn toggle_task_completed(app: &mut App) -> (e: Effect)
    ensures
        (final(app)@, e@) == old(app)@.toggle_task_completed(),
{
    let (pid, tid) = match (app.current_project(), app.current_task()) {
        (Some(p), Some(t)) => (p.id, t.id),
        _ => return Effect::Nothing,
    };
    if let Some(p_idx) = app.project_by_id(pid) {
        if let Some(t_idx) = app.task_by_id(p_idx, tid) {
            let ghost a0 = app@;
            let ghost ps0 = app.projects@;
            let done = app.projects[p_idx].tasks[t_idx].completed;
            app.projects[p_idx].tasks[t_idx].completed = !done;
            proof {
                let pi = p_idx as int;
                let ti = t_idx as int;
                assert(a0.projects[pi] == ps0[pi]@);
                assert(a0.projects[pi].tasks[ti] == ps0[pi].tasks@[ti]@);
                let want = a0.with_task(
                    pi,
                    ti,
                    TaskView { completed: !done, ..a0.projects[pi].tasks[ti] },
                );
                assert(app.projects@.len() == ps0.len());
                assert(app.projects@[pi].tasks@.len() == ps0[pi].tasks@.len());
                assert(app.projects@[pi]@.tasks =~= want.projects[pi].tasks) by {
                    assert forall|j: int| 0 <= j < ps0[pi].tasks@.len() implies #[trigger] app.projects@[pi]@.tasks[j]
                        == want.projects[pi].tasks[j] by {
                        if j != ti {
                            assert(app.projects@[pi].tasks@[j] == ps0[pi].tasks@[j]);
                        }
                    }
                }
                assert forall|k: int| 0 <= k < ps0.len() implies #[trigger] app@.projects[k]
                    == want.projects[k] by {
                    if k != pi {
                        assert(app.projects@[k] == ps0[k]);
                    }
                }
                assert(app@.projects =~= want.projects);
            }
            return Effect::SaveProject(app.projects[p_idx].duplicate());
        }
    }
    Effect::Nothing
}

/// `x` on the projects screen: asks to delete the selected project, task or
/// note, by the focused column.
fn confirm_delete_in_projects(app: &mut App)
    ensures
        final(app)@ == old(app)@.confirm_delete_in_projects(),
{
    match app.projects_focus {
        ProjectsFocus::List => {
            match app.current_project() {
                Some(p) => {
                    let id = p.id;
                    let label = quote("project '", p.title.as_str());
                    ask_to_delete(app, label.as_slice(), ConfirmAction::DeleteProject(id));
                },
                None => say(app, "Nothing to delete"),
            }
        },
        ProjectsFocus::Tasks => {
            match (app.current_project(), app.current_task()) {
                (Some(p), Some(t)) => {
                    let pid = p.id;
                    let tid = t.id;
                    let label = quote("task '", t.title.as_str());
                    ask_to_delete(app, label.as_slice(), ConfirmAction::DeleteTask(pid, tid));
                },
                _ => say(app, "Nothing to delete"),
            }
        },
        ProjectsFocus::Notes => {
            match (app.current_project(), app.current_task()) {
                (Some(p), Some(t)) => {
                    let pid = p.id;
                    let tid = t.id;
                    if app.task_note_idx < t.notes.len() {
                        let idx = app.task_note_idx;
                        let label = note_label(idx);
                        ask_to_delete(
                            app,
                            label.as_slice(),
                            ConfirmAction::DeleteProjectNote(pid, tid, idx),
                        );
                    } else {
                        say(app, "No note selected");
                    }
                },
                _ => say(app, "Nothing to delete"),
            }
        },
    }
}

/// `t` on the projects screen: the prompt for a new task of the selected
/// project.
fn ask_new_task(app: &mut App)
    ensures
        final(app)@ == old(app)@.ask_new_task(),
{
    match app.current_project() {
        Some(p) => {
            let id = p.id;
            app.input = new_prompt("New task title", InputAction::NewTask(id));
        },
        None => say(app, "Create or select a project first"),
    }
}

/// `n` on the projects screen: the prompt for a new note of the selected
/// task.
fn ask_new_task_note(app: &mut App)
    ensures
        final(app)@ == old(app)@.ask_new_task_note(),
{
    match (app.current_project(), app.current_task()) {
        (Some(p), Some(t)) => {
            let pid = p.id;
            let tid = t.id;
            app.input = new_prompt("New note", InputAction::NewTaskNote(pid, tid));
        },
        _ => {
            match app.current_project() {
                Some(p) => {
                    if p.tasks.len() == 0 {
                        say(app, "Add a task first");
                    } else {
                        say(app, "Select a task in the middle column");
                    }
                },
                None => say(app, "Select a project first"),
            }
        },
    }
}

/// A key on the projects screen.
fn handle_projects_key(app: &mut App, key: KeyPress) -> (e: Effect)
    requires
        old(app)@.total() <= usize::MAX,
    ensures
        (final(app)@, e@) == old(app)@.projects_key(key),
{
    match key.code {
        Key::Char('Q') => app.should_quit = true,
        Key::Esc => app.go_home(),
        Key::Char('?') => app.go(Screen::Help),
        Key::Char('/') => app.open_search(),
        Key::Char('1') => app.go_home(),
        Key::Char('2') => app.go(Screen::Projects),
        Key::Char('3') => {
            app.go(Screen::Ideas);
            app.ideas_focus = IdeasFocus::List;
        },
        Key::Tab | Key::BackTab => {
            app.projects_focus = match app.projects_focus {
                ProjectsFocus::List => ProjectsFocus::Tasks,
                ProjectsFocus::Tasks => ProjectsFocus::Notes,
                ProjectsFocus::Notes => ProjectsFocus::List,
            };
        },
        Key::Char('p') | Key::Char('P') => {
            app.input = new_prompt("New project title", InputAction::NewProject);
        },
        Key::Char('t') | Key::Char('T') => ask_new_task(app),
        Key::Char('n') | Key::Char('N') => ask_new_task_note(app),
        Key::Char(' ') => {
            if app.projects_focus == ProjectsFocus::Tasks {
                return toggle_task_completed(app);
            }
        },
        Key::Char('x') | Key::Char('X') => confirm_delete_in_projects(app),
        Key::Down | Key::Char('j') => move_in_projects(app, 1),
        Key::Up | Key::Char('k') => move_in_projects(app, -1),
        Key::Left | Key::Char('h') => {
            app.projects_focus = match app.projects_focus {
                ProjectsFocus::List => ProjectsFocus::List,
                ProjectsFocus::Tasks => ProjectsFocus::List,
                ProjectsFocus::Notes => ProjectsFocus::Tasks,
            };
        },
        Key::Right | Key::Char('l') => {
            app.projects_focus = match app.projects_focus {
                ProjectsFocus::List => ProjectsFocus::Tasks,
                ProjectsFocus::Tasks => ProjectsFocus::Notes,
                ProjectsFocus::Notes => ProjectsFocus::Notes,
            };
        },
        Key::Char(c) => {
            if is_ascii_lower(c) && is_shortcut_letter(c) {
                let n = app.projects.len();
                shortcut_letter(app, c, n);
            }
        },
        _ => {},
    }
    Effect::Nothing
}

// -------------------------------------------------------------------------
// The ideas screen.

/// `x` on the ideas screen: asks to delete the selected idea or note, by the
/// focused column.
fn confirm_delete_in_ideas(app: &mut App)
    ensures
        final(app)@ == old(app)@.confirm_delete_in_ideas(),
{
    match app.ideas_focus {
        IdeasFocus::List => {
            match app.current_idea() {
                Some(i) => {
                    let id = i.id;
                    let label = quote("idea '", i.title.as_str());
                    ask_to_delete(app, label.as_slice(), ConfirmAction::DeleteIdea(id));
                },
                None => say(app, "Nothing to delete"),
            }
        },
        IdeasFocus::Notes => {
            match app.current_idea() {
                Some(i) => {
                    if app.idea_note_idx < i.notes.len() {
                        let id = i.id;
                        let idx = app.idea_note_idx;
                        let label = note_label(idx);
                        ask_to_delete(app, label.as_slice(), ConfirmAction::DeleteIdeaNote(id, idx));
                    } else {
                        say(app, "No note selected");
                    }
                },
                None => {},
            }
        },
    }
}

/// A key on the ideas screen.
fn handle_ideas_key(app: &mut App, key: KeyPress)
    requires
        old(app)@.total() <= usize::MAX,
    ensures
        final(app)@ == old(app)@.ideas_key(key),
{
    match key.code {
        Key::Char('Q') => app.should_quit = true,
        Key::Esc => app.go_home(),
        Key::Char('?') => app.go(Screen::Help),
        Key::Char('/') => app.open_search(),
        Key::Char('1') => app.go_home(),
        Key::Char('2') => {
            app.go(Screen::Projects);
            app.projects_focus = ProjectsFocus::List;
        },
        Key::Char('3') => app.go(Screen::Ideas),
        Key::Tab | Key::BackTab => {
            app.ideas_focus = match app.ideas_focus {
                IdeasFocus::List => IdeasFocus::Notes,
                IdeasFocus::Notes => IdeasFocus::List,
            };
        },
        Key::Char('i') | Key::Char('I') => {
            app.input = new_prompt("New idea title", InputAction::NewIdea);
        },
        Key::Char('n') | Key::Char('N') => {
            match app.current_idea() {
                Some(i) => {
                    let id = i.id;
                    app.input = new_prompt("New note", InputAction::NewIdeaNote(id));
                },
                None => say(app, "Select or create an idea first"),
            }
        },
        Key::Char('x') | Key::Char('X') => confirm_delete_in_ideas(app),
        Key::Down | Key::Char('j') => move_in_ideas(app, 1),
        Key::Up | Key::Char('k') => move_in_ideas(app, -1),
        Key::Left | Key::Char('h') => app.ideas_focus = IdeasFocus::List,
        Key::Right | Key::Char('l') => app.ideas_focus = IdeasFocus::Notes,
        Key::Char(c) => {
            if is_ascii_lower(c) && is_shortcut_letter(c) && app.ideas_focus == IdeasFocus::List {
                let n = app.ideas.len();
                shortcut_letter(app, c, n);
            }
        },
        _ => {},
    }
}

// -------------------------------------------------------------------------
// The search and help screens, and the mouse.

/// Closes the prompt and goes back to the screen before.
fn leave_search(app: &mut App)
    ensures
        final(app)@ == old(app)@.leave_search(),
{
    app.input = None;
    let prev = app.prev_screen;
    app.go(prev);
}

/// The cursor one result further, back to the first after the last.
fn next_result_index(idx: usize, n: usize) -> (r: usize)
    requires
        n > 0,
    ensures
        r == next_result(idx, n as nat),
{
    idx.wrapping_add(1) % n
}

/// The cursor one result back, to the last before the first.
fn prev_result_index(idx: usize, n: usize) -> (r: usize)
    requires
        n > 0,
    ensures
        r == prev_result(idx, n as nat),
{
    if idx == 0 {
        n - 1
    } else {
        idx - 1
    }
}

/// A key on the search screen.
fn handle_search_key(app: &mut App, key: KeyPress)
    ensures
        final(app)@ == old(app)@.search_key(key),
{
    match key.code {
        Key::Esc => leave_search(app),
        Key::Enter => {
            if app.search_results.len() == 0 {
                leave_search(app);
            } else if app.open_search_result() {
                say(app, "Opened");
            } else {
                say(app, "Item not found");
            }
        },
        Key::Down | Key::Char('j') => {
            if app.search_results.len() > 0 {
                let n = app.search_results.len();
                app.search_result_idx = next_result_index(app.search_result_idx, n);
            }
        },
        Key::Up | Key::Char('k') => {
            if app.search_results.len() > 0 {
                let n = app.search_results.len();
                app.search_result_idx = prev_result_index(app.search_result_idx, n);
            }
        },
        _ => {},
    }
}

/// A key on the help screen: back to the screen before.
fn handle_help_key(app: &mut App, key: KeyPress)
    ensures
        final(app)@ == old(app)@.help_key(key),
{
    match key.code {
        Key::Esc | Key::Enter | Key::Char('?') | Key::Char('Q') => {
            let prev = app.prev_screen;
            app.go(prev);
        },
        _ => {},
    }
}

/// A mouse event: the wheel moves the cursor of the focused column, unless
/// a prompt or the delete mode is open.
fn handle_mouse(app: &mut App, mouse: Mouse)
    ensures
        final(app)@ == old(app)@.mouse(mouse),
{
    if app.confirm.is_some() || app.input.is_some() || app.delete_mode.is_some() {
        return;
    }
    match mouse {
        Mouse::ScrollUp => match app.screen {
            Screen::Home => move_home(app, -1),
            Screen::Projects => move_in_projects(app, -1),
            Screen::Ideas => move_in_ideas(app, -1),
            _ => {},
        },
        Mouse::ScrollDown => match app.screen {
            Screen::Home => move_home(app, 1),
            Screen::Projects => move_in_projects(app, 1),
            Screen::Ideas => move_in_ideas(app, 1),
            _ => {},
        },
        Mouse::Other => {},
    }
}

// -------------------------------------------------------------------------
// The delete mode.

/// A key in the delete mode.
fn handle_delete_mode_key(app: &mut App, key: KeyPress)
    requires
        old(app)@.total() <= usize::MAX,
    ensures
        final(app)@ == old(app)@.delete_mode_key(key),
{
    match key.code {
        Key::Esc => {
            app.delete_mode = None;
            say(app, "Delete cancelled");
        },
        Key::Char(c) => {
            if is_ascii_lower(c) && is_shortcut_letter(c) {
                let total = app.projects.len() + app.ideas.len();
                if total > 17 && shortcut_has_two_letter_forms(c, total) {
                    app.pending_shortcut = Some(c);
                } else if let Some((label, action)) = lookup_shortcut_by_char(app, c) {
                    ask_delete(app, label, action);
                } else {
                    let cs = vec![c];
                    assert(cs@ =~= seq![c]);
                    app.set_status(join3("No item with shortcut '", cs.as_slice(), "'"));
                    app.delete_mode = None;
                }
            }
        },
        _ => {},
    }
}

// -------------------------------------------------------------------------
// Confirmations.

/// Sets the status line to the characters `msg`.
fn say_chars(app: &mut App, msg: &[char])
    ensures
        final(app)@ == old(app)@.with_status(msg@),
{
    app.set_status(string_of(msg));
}

/// Deletes the project `id`, if there is one.
fn remove_project(app: &mut App, id: u128) -> (e: Effect)
    ensures
        (final(app)@, e@) == old(app)@.execute_confirm(ConfirmAction::DeleteProject(id)),
{
    let ghost ps0 = app.projects@;
    if let Some(pos) = app.project_by_id(id) {
        let project = app.projects.remove(pos);
        proof {
            lemma_map_remove(ps0, pos as int, |p: Project| p@);
        }
        app.clamp_indices();
        let msg = quote("Deleted project '", project.title.as_str());
        say_chars(app, msg.as_slice());
        return Effect::DeleteProject(project);
    }
    Effect::Nothing
}

/// Deletes the idea `id`, if there is one.
fn remove_idea(app: &mut App, id: u128) -> (e: Effect)
    ensures
        (final(app)@, e@) == old(app)@.execute_confirm(ConfirmAction::DeleteIdea(id)),
{
    let ghost is0 = app.ideas@;
    if let Some(pos) = app.idea_by_id(id) {
        let idea = app.ideas.remove(pos);
        proof {
            lemma_map_remove(is0, pos as int, |i: Idea| i@);
        }
        app.clamp_indices();
        let msg = quote("Deleted idea '", idea.title.as_str());
        say_chars(app, msg.as_slice());
        return Effect::DeleteIdea(idea);
    }
    Effect::Nothing
}

/// Deletes task `task_id` of project `project_id`, if there is one.
fn remove_task(app: &mut App, project_id: u128, task_id: u128) -> (e: Effect)
    ensures
        (final(app)@, e@) == old(app)@.execute_confirm(
            ConfirmAction::DeleteTask(project_id, task_id),
        ),
{
    let ghost a0 = app@;
    let ghost ps0 = app.projects@;
    if let Some(p_idx) = app.project_by_id(project_id) {
        if let Some(t_idx) = app.task_by_id(p_idx, task_id) {
            let task = app.projects[p_idx].tasks.remove(t_idx);
            proof {
                let pi = p_idx as int;
                let ti = t_idx as int;
                assert(a0.projects[pi] == ps0[pi]@);
                lemma_map_remove(ps0[pi].tasks@, ti, |t: Task| t@);
                assert(app.projects@ == ps0.update(pi, app.projects@[pi]));
                lemma_map_update(ps0, pi, app.projects@[pi], |p: Project| p@);
                assert(app@ == a0.with_tasks(pi, a0.projects[pi].tasks.remove(ti)));
            }
            let saved = app.projects[p_idx].duplicate();
            app.clamp_indices();
            let msg = quote("Deleted task '", task.title.as_str());
            say_chars(app, msg.as_slice());
            return Effect::SaveProject(saved);
        }
    }
    Effect::Nothing
}

/// Deletes note `note_idx` of task `task_id` of project `project_id`, if
/// there is one.
fn remove_project_note(app: &mut App, project_id: u128, task_id: u128, note_idx: usize) -> (e:
    Effect)
    ensures
        (final(app)@, e@) == old(app)@.execute_confirm(
            ConfirmAction::DeleteProjectNote(project_id, task_id, note_idx),
        ),
{
    let ghost a0 = app@;
    let ghost ps0 = app.projects@;
    if let Some(p_idx) = app.project_by_id(project_id) {
        if let Some(t_idx) = app.task_by_id(p_idx, task_id) {
            proof {
                assert(a0.projects[p_idx as int] == ps0[p_idx as int]@);
                assert(a0.projects[p_idx as int].tasks[t_idx as int] == ps0[p_idx as int].tasks@[t_idx as int]@);
            }
            if note_idx < app.projects[p_idx].tasks[t_idx].notes.len() {
                app.projects[p_idx].tasks[t_idx].notes.remove(note_idx);
                proof {
                    let pi = p_idx as int;
                    let ti = t_idx as int;
                    let t0 = ps0[pi].tasks@[ti];
                    lemma_map_remove(t0.notes@, note_idx as int, |s: String| s@);
                    let p1 = app.projects@[pi];
                    assert(p1.tasks@ == ps0[pi].tasks@.update(ti, p1.tasks@[ti]));
                    lemma_map_update(ps0[pi].tasks@, ti, p1.tasks@[ti], |t: Task| t@);
                    assert(app.projects@ == ps0.update(pi, p1));
                    lemma_map_update(ps0, pi, p1, |p: Project| p@);
                    assert(app@ == a0.with_task(
                        pi,
                        ti,
                        TaskView { notes: t0@.notes.remove(note_idx as int), ..t0@ },
                    ));
                }
                let saved = app.projects[p_idx].duplicate();
                app.clamp_indices();
                say(app, "Deleted note");
                return Effect::SaveProject(saved);
            }
        }
    }
    Effect::Nothing
}

/// Deletes note `note_idx` of idea `idea_id`, if there is one.
fn remove_idea_note(app: &mut App, idea_id: u128, note_idx: usize) -> (e: Effect)
    ensures
        (final(app)@, e@) == old(app)@.execute_confirm(
            ConfirmAction::DeleteIdeaNote(idea_id, note_idx),
        ),
{
    let ghost a0 = app@;
    let ghost is0 = app.ideas@;
    if let Some(i_idx) = app.idea_by_id(idea_id) {
        assert(a0.ideas[i_idx as int] == is0[i_idx as int]@);
        if note_idx < app.ideas[i_idx].notes.len() {
            app.ideas[i_idx].notes.remove(note_idx);
            proof {
                let ii = i_idx as int;
                lemma_map_remove(is0[ii].notes@, note_idx as int, |s: String| s@);
                assert(app.ideas@ == is0.update(ii, app.ideas@[ii]));
                lemma_map_update(is0, ii, app.ideas@[ii], |i: Idea| i@);
                assert(app@ == a0.with_idea_notes(ii, a0.ideas[ii].notes.remove(note_idx as int)));
            }
            let saved = app.ideas[i_idx].duplicate();
            app.clamp_indices();
            say(app, "Deleted note");
            return Effect::SaveIdea(saved);
        }
    }
    Effect::Nothing
}

/// Carries out a confirmed deletion.
fn execute_confirm(app: &mut App, action: ConfirmAction) -> (e: Effect)
    ensures
        (final(app)@, e@) == old(app)@.execute_confirm(action),
{
    match action {
        ConfirmAction::DeleteProject(id) => remove_project(app, id),
        ConfirmAction::DeleteIdea(id) => remove_idea(app, id),
        ConfirmAction::DeleteTask(pid, tid) => remove_task(app, pid, tid),
        ConfirmAction::DeleteProjectNote(pid, tid, n) => remove_project_note(app, pid, tid, n),
        ConfirmAction::DeleteIdeaNote(id, n) => remove_idea_note(app, id, n),
    }
}

/// A key while a confirmation is asked.
fn handle_confirm_key(app: &mut App, key: KeyPress) -> (e: Effect)
    ensures
        (final(app)@, e@) == old(app)@.confirm_key(key),
{
    match key.code {
        Key::Char('y') | Key::Char('Y') | Key::Enter => {
            if let Some(state) = app.confirm.take() {
                return execute_confirm(app, state.action);
            }
        },
        Key::Char('n') | Key::Char('N') | Key::Esc => {
            app.confirm = None;
            say(app, "Cancelled");
        },
        _ => {},
    }
    Effect::Nothing
}

// -------------------------------------------------------------------------
// The input prompt.

/// A fresh id and creation instant, for the steps that create nothing.
pub open spec fn any_fresh() -> Fresh {
    Fresh {
        id: 0x4000_8000_0000_0000_0000u128,
        created: seq![
            '1', '9', '7', '0', '-', '0', '1', '-', '0', '1', 'T', '0', '0', ':', '0', '0', ':', '0',
            '0', 'Z',
        ],
    }
}

proof fn lemma_any_fresh()
    ensures
        fresh_ok(any_fresh()),
{
    let id: u128 = 0x4000_8000_0000_0000_0000u128;
    assert((id >> 76u128) & 0xf == 4 && (id >> 62u128) & 0x3 == 2) by (bit_vector)
        requires
            id == 0x4000_8000_0000_0000_0000u128,
    ;
}

/// Sorts projects and ideas by title.
fn sort_all(app: &mut App)
    ensures
        final(app)@ == old(app)@.sort_all(),
{
    sort_projects_by_title(&mut app.projects);
    sort_ideas_by_title(&mut app.ideas);
}

/// Creates a project titled `value` (non-empty, trimmed).
fn add_project(app: &mut App, value: String) -> (r: (Effect, Ghost<Fresh>))
    ensures
        fresh_ok(r.1@),
        (final(app)@, r.0@) == old(app)@.apply_input(value@, InputAction::NewProject, r.1@),
{
    let ghost v = value@;
    let project = Project::new(value.clone());
    let saved = project.duplicate();
    let ghost f = Fresh { id: project.id, created: project.created@ };
    assert(project.tasks@ =~= Seq::<Task>::empty());
    assert(task_views(project.tasks@) =~= Seq::<TaskView>::empty());
    let ghost a0 = app@;
    let ghost ps0 = app.projects@;
    assert(saved@ == ProjectView { id: f.id, title: v, created: f.created, tasks: seq![] });
    app.projects.push(project);
    proof {
        lemma_map_push(ps0, project, |p: Project| p@);
        assert(app@ == AppView { projects: a0.projects.push(saved@), ..a0 });
    }
    sort_all(app);
    app.clamp_indices();
    let msg = quote("Created project '", value.as_str());
    say_chars(app, msg.as_slice());
    (Effect::SaveProject(saved), Ghost(f))
}

/// Creates an idea titled `value`.
fn add_idea(app: &mut App, value: String) -> (r: (Effect, Ghost<Fresh>))
    ensures
        fresh_ok(r.1@),
        (final(app)@, r.0@) == old(app)@.apply_input(value@, InputAction::NewIdea, r.1@),
{
    let ghost v = value@;
    let idea = Idea::new(value.clone());
    let saved = idea.duplicate();
    let ghost f = Fresh { id: idea.id, created: idea.created@ };
    assert(texts(idea.notes@) =~= Seq::<Seq<char>>::empty());
    let ghost a0 = app@;
    let ghost is0 = app.ideas@;
    assert(saved@ == IdeaView { id: f.id, title: v, created: f.created, notes: seq![] });
    app.ideas.push(idea);
    proof {
        lemma_map_push(is0, idea, |i: Idea| i@);
        assert(app@ == AppView { ideas: a0.ideas.push(saved@), ..a0 });
    }
    sort_all(app);
    app.clamp_indices();
    let msg = quote("Created idea '", value.as_str());
    say_chars(app, msg.as_slice());
    (Effect::SaveIdea(saved), Ghost(f))
}

/// Adds a task titled `value` to the project `project_id`, if there is one.
fn add_task(app: &mut App, project_id: u128, value: String) -> (r: (Effect, Ghost<Fresh>))
    ensures
        fresh_ok(r.1@),
        (final(app)@, r.0@) == old(app)@.apply_input(
            value@,
            InputAction::NewTask(project_id),
            r.1@,
        ),
{
    proof {
        lemma_any_fresh();
    }
    let ghost a0 = app@;
    let ghost ps0 = app.projects@;
    if let Some(p_idx) = app.project_by_id(project_id) {
        let task = Task::new(value.clone());
        let ghost f = Fresh { id: task.id, created: any_fresh().created };
        assert(texts(task.notes@) =~= Seq::<Seq<char>>::empty());
        assert(task@ == TaskView { id: f.id, title: value@, completed: false, notes: seq![] });
        app.projects[p_idx].tasks.push(task);
        proof {
            let pi = p_idx as int;
            assert(a0.projects[pi] == ps0[pi]@);
            lemma_map_push(ps0[pi].tasks@, task, |t: Task| t@);
            assert(app.projects@ == ps0.update(pi, app.projects@[pi]));
            lemma_map_update(ps0, pi, app.projects@[pi], |p: Project| p@);
            assert(app@ == a0.with_tasks(pi, a0.projects[pi].tasks.push(task@)));
        }
        let saved = app.projects[p_idx].duplicate();
        let msg = quote("Added task '", value.as_str());
        say_chars(app, msg.as_slice());
        return (Effect::SaveProject(saved), Ghost(f));
    }
    (Effect::Nothing, Ghost(any_fresh()))
}

/// Adds the note `value` to task `task_id` of project `project_id`, if there
/// is one.
fn add_task_note(app: &mut App, project_id: u128, task_id: u128, value: String) -> (r: (
    Effect,
    Ghost<Fresh>,
))
    ensures
        fresh_ok(r.1@),
        (final(app)@, r.0@) == old(app)@.apply_input(
            value@,
            InputAction::NewTaskNote(project_id, task_id),
            r.1@,
        ),
{
    proof {
        lemma_any_fresh();
    }
    let ghost a0 = app@;
    let ghost ps0 = app.projects@;
    if let Some(p_idx) = app.project_by_id(project_id) {
        if let Some(t_idx) = app.task_by_id(p_idx, task_id) {
            let ghost v = value@;
            app.projects[p_idx].tasks[t_idx].notes.push(value);
            proof {
                let pi = p_idx as int;
                let ti = t_idx as int;
                let t0 = ps0[pi].tasks@[ti];
                assert(a0.projects[pi] == ps0[pi]@);
                assert(a0.projects[pi].tasks[ti] == t0@);
                let p1 = app.projects@[pi];
                lemma_map_push(t0.notes@, p1.tasks@[ti].notes@.last(), |s: String| s@);
                assert(p1.tasks@ == ps0[pi].tasks@.update(ti, p1.tasks@[ti]));
                lemma_map_update(ps0[pi].tasks@, ti, p1.tasks@[ti], |t: Task| t@);
                assert(app.projects@ == ps0.update(pi, p1));
                lemma_map_update(ps0, pi, p1, |p: Project| p@);
                assert(app@ == a0.with_task(pi, ti, TaskView { notes: t0@.notes.push(v), ..t0@ }));
            }
            let saved = app.projects[p_idx].duplicate();
            say(app, "Added note");
            return (Effect::SaveProject(saved), Ghost(any_fresh()));
        }
    }
    (Effect::Nothing, Ghost(any_fresh()))
}

/// Adds the note `value` to the idea `idea_id`, if there is one.
fn add_idea_note(app: &mut App, idea_id: u128, value: String) -> (r: (Effect, Ghost<Fresh>))
    ensures
        fresh_ok(r.1@),
        (final(app)@, r.0@) == old(app)@.apply_input(
            value@,
            InputAction::NewIdeaNote(idea_id),
            r.1@,
        ),
{
    proof {
        lemma_any_fresh();
    }
    let ghost a0 = app@;
    let ghost is0 = app.ideas@;
    if let Some(i_idx) = app.idea_by_id(idea_id) {
        let ghost v = value@;
        app.ideas[i_idx].notes.push(value);
        proof {
            let ii = i_idx as int;
            assert(a0.ideas[ii] == is0[ii]@);
            lemma_map_push(is0[ii].notes@, app.ideas@[ii].notes@.last(), |s: String| s@);
            assert(app.ideas@ == is0.update(ii, app.ideas@[ii]));
            lemma_map_update(is0, ii, app.ideas@[ii], |i: Idea| i@);
            assert(app@ == a0.with_idea_notes(ii, a0.ideas[ii].notes.push(v)));
        }
        let saved = app.ideas[i_idx].duplicate();
        say(app, "Added note");
        return (Effect::SaveIdea(saved), Ghost(any_fresh()));
    }
    (Effect::Nothing, Ghost(any_fresh()))
}

/// Carries out what was typed into a prompt (already closed). A search
/// runs only where its snippets can be cut.
fn execute_input(app: &mut App, text: &str, action: InputAction) -> (r: (Effect, Ghost<Fresh>))
    requires
        action == InputAction::Search ==> search_ok(
            old(app)@.projects,
            old(app)@.ideas,
            trim(text@),
        ),
    ensures
        fresh_ok(r.1@),
        (final(app)@, r.0@) == old(app)@.execute_input(text@, action, r.1@),
{
    proof {
        lemma_any_fresh();
    }
    let value = trimmed(text);
    if value.as_str().is_empty() {
        say(app, "Empty input discarded");
        return (Effect::Nothing, Ghost(any_fresh()));
    }
    match action {
        InputAction::NewProject => add_project(app, value),
        InputAction::NewTask(project_id) => add_task(app, project_id, value),
        InputAction::NewTaskNote(project_id, task_id) => add_task_note(
            app,
            project_id,
            task_id,
            value,
        ),
        InputAction::NewIdea => add_idea(app, value),
        InputAction::NewIdeaNote(idea_id) => add_idea_note(app, idea_id, value),
        InputAction::Search => {
            app.search_query = value;
            app.refresh_search();
            (Effect::Nothing, Ghost(any_fresh()))
        },
    }
}

/// Enter in the search prompt (already closed): searches for the trimmed
/// text and opens the result under the cursor.
fn submit_search(app: &mut App, text: &str)
    requires
        search_ok(old(app)@.projects, old(app)@.ideas, trim(text@)),
    ensures
        final(app)@ == old(app)@.submit_search(text@),
{
    app.search_query = trimmed(text);
    app.refresh_search();
    if app.open_search_result() {
        say(app, "Opened");
    } else if app.search_results.len() > 0 {
        say(app, "No match to open");
    } else {
        leave_search(app);
    }
}

/// A key while the prompt is open; nothing where a search it would run
/// cannot cut its snippets.
fn handle_input_key(app: &mut App, key: KeyPress) -> (r: (Option<Effect>, Ghost<Fresh>))
    ensures
        fresh_ok(r.1@),
        match r.0 {
            Some(e) => old(app)@.input_key_ok(key) && (final(app)@, e@) == old(app)@.input_key(
                key,
                r.1@,
            ),
            None => !old(app)@.input_key_ok(key),
        },
{
    proof {
        lemma_any_fresh();
    }
    let ghost a0 = app@;
    let in_search = match &app.input {
        Some(state) => state.action == InputAction::Search,
        None => false,
    };
    if in_search {
        match key.code {
            Key::Down => {
                if app.search_results.len() > 0 {
                    let n = app.search_results.len();
                    app.search_result_idx = next_result_index(app.search_result_idx, n);
                }
                return (Some(Effect::Nothing), Ghost(any_fresh()));
            },
            Key::Up => {
                if app.search_results.len() > 0 {
                    let n = app.search_results.len();
                    app.search_result_idx = prev_result_index(app.search_result_idx, n);
                }
                return (Some(Effect::Nothing), Ghost(any_fresh()));
            },
            _ => {},
        }
    }
    let mut close = false;
    let mut submit = false;
    match app.input.take() {
        Some(mut state) => {
            match key.code {
                Key::Esc => close = true,
                Key::Enter => submit = true,
                Key::Backspace => {
                    state.value = without_last(state.value.as_str());
                },
                Key::Char(c) => {
                    if !key.control {
                        state.value = with_char(state.value.as_str(), c);
                    }
                },
                _ => {},
            }
            app.input = Some(state);
        },
        None => {},
    }
    if close {
        app.input = None;
        if in_search {
            let prev = app.prev_screen;
            app.go(prev);
        } else {
            say(app, "Cancelled");
        }
        return (Some(Effect::Nothing), Ghost(any_fresh()));
    }
    if submit {
        if let Some(state) = app.input.take() {
            if state.action == InputAction::Search {
                let query = trimmed(state.value.as_str());
                if !search_is_ok(app.projects.as_slice(), app.ideas.as_slice(), query.as_str()) {
                    return (None, Ghost(any_fresh()));
                }
                submit_search(app, state.value.as_str());
                return (Some(Effect::Nothing), Ghost(any_fresh()));
            } else {
                let (e, f) = execute_input(app, state.value.as_str(), state.action);
                return (Some(e), f);
            }
        }
        return (Some(Effect::Nothing), Ghost(any_fresh()));
    }
    if in_search {
        if let Some(state) = &app.input {
            if state.action == InputAction::Search {
                let query = state.value.clone();
                if !search_is_ok(app.projects.as_slice(), app.ideas.as_slice(), query.as_str()) {
                    return (None, Ghost(any_fresh()));
                }
                app.search_query = query;
                app.refresh_search();
            }
        }
    }
    (Some(Effect::Nothing), Ghost(any_fresh()))
}

// -------------------------------------------------------------------------
// Dispatch.

/// A key, after a pending shortcut letter was dealt with.
fn dispatch_key(app: &mut App, key: KeyPress) -> (r: (Option<Effect>, Ghost<Fresh>))
    requires
        old(app)@.total() <= usize::MAX,
    ensures
        fresh_ok(r.1@),
        match r.0 {
            Some(e) => (old(app)@.confirm is None && old(app)@.input is Some ==> old(
                app,
            )@.input_key_ok(key)) && (final(app)@, e@) == old(app)@.dispatch_key(key, r.1@),
            None => old(app)@.confirm is None && old(app)@.input is Some && !old(
                app,
            )@.input_key_ok(key),
        },
{
    proof {
        lemma_any_fresh();
    }
    if app.confirm.is_some() {
        return (Some(handle_confirm_key(app, key)), Ghost(any_fresh()));
    }
    if app.input.is_some() {
        return handle_input_key(app, key);
    }
    if app.delete_mode.is_some() {
        handle_delete_mode_key(app, key);
        return (Some(Effect::Nothing), Ghost(any_fresh()));
    }
    let e = match app.screen {
        Screen::Home => {
            handle_home_key(app, key);
            Effect::Nothing
        },
        Screen::Projects => handle_projects_key(app, key),
        Screen::Ideas => {
            handle_ideas_key(app, key);
            Effect::Nothing
        },
        Screen::Search => {
            handle_search_key(app, key);
            Effect::Nothing
        },
        Screen::Help => {
            handle_help_key(app, key);
            Effect::Nothing
        },
    };
    (Some(e), Ghost(any_fresh()))
}

/// A key press.
fn handle_key(app: &mut App, key: KeyPress) -> (r: (Option<Effect>, Ghost<Fresh>))
    requires
        old(app)@.total() <= usize::MAX,
    ensures
        fresh_ok(r.1@),
        match r.0 {
            Some(e) => old(app)@.step_ok(Input::Key(key)) && (final(app)@, e@) == old(app)@.key(
                key,
                r.1@,
            ),
            None => !old(app)@.step_ok(Input::Key(key)),
        },
{
    proof {
        lemma_any_fresh();
    }
    if app.should_quit {
        return (Some(Effect::Nothing), Ghost(any_fresh()));
    }
    if let Some(first) = app.pending_shortcut.take() {
        if handle_pending_key(app, first, key) {
            return (Some(Effect::Nothing), Ghost(any_fresh()));
        }
    }
    dispatch_key(app, key)
}

/// Handles an event from the terminal: the application moves to its next
/// state, and the storage request of the step is returned for the caller to
/// carry out. A new item gets a fresh random id and the current instant.
/// Where handling the event would panic (a search that cuts a snippet off a
/// character boundary) nothing is returned.
pub fn handle_event(app: &mut App, input: Input) -> (r: Option<Effect>)
    requires
        old(app)@.total() <= usize::MAX,
    ensures
        match r {
            Some(e) => old(app)@.step_ok(input) && exists|f: Fresh|
                #[trigger] fresh_ok(f) && (final(app)@, e@) == old(app)@.step(input, f),
            None => !old(app)@.step_ok(input),
        },
{
    proof {
        lemma_any_fresh();
    }
    match input {
        Input::Key(key) => {
            let (r, f) = handle_key(app, key);
            proof {
                if r is Some {
                    assert(fresh_ok(f@));
                }
            }
            r
        },
        Input::Mouse(m) => {
            handle_mouse(app, m);
            assert(fresh_ok(any_fresh()));
            Some(Effect::Nothing)
        },
        Input::Other => {
            assert(fresh_ok(any_fresh()));
            Some(Effect::Nothing)
        },
    }
}

// -------------------------------------------------------------------------
// Laws.

impl AppView {
    /// Whether every selection is within its list: the selected project,
    /// its selected task and note, the selected idea and note, and the home
    /// cursors (an index into an empty list is 0, except the idea and home
    /// cursors, which stay where they are while their list is empty).
    pub open spec fn selections_in_range(self) -> bool {
        let np = self.projects.len();
        let ni = self.ideas.len();
        &&& np == 0 ==> self.project_idx == 0 && self.task_idx == 0 && self.task_note_idx == 0
        &&& np > 0 ==> {
            let p = self.projects[self.project_idx as int];
            &&& self.project_idx < np
            &&& if p.tasks.len() == 0 {
                self.task_idx == 0 && self.task_note_idx == 0
            } else {
                let t = p.tasks[self.task_idx as int];
                &&& self.task_idx < p.tasks.len()
                &&& if t.notes.len() == 0 {
                    self.task_note_idx == 0
                } else {
                    self.task_note_idx < t.notes.len()
                }
            }
        }
        &&& ni > 0 ==> self.idea_idx < ni
        &&& if self.idea_idx < ni && self.ideas[self.idea_idx as int].notes.len() > 0 {
            self.idea_note_idx < self.ideas[self.idea_idx as int].notes.len()
        } else {
            self.idea_note_idx == 0
        }
        &&& np > 0 ==> self.home_project_idx < np
        &&& ni > 0 ==> self.home_idea_idx < ni
    }
}

/// After `clamp` every selection is within its list, and selections that
/// were within their lists stay where they were: clamping twice is clamping
/// once.
pub proof fn law_clamp(a: AppView)
    ensures
        a.clamp().selections_in_range(),
        a.clamp().clamp() == a.clamp(),
        a.selections_in_range() ==> a.clamp() == a,
{
}

/// Moving a cursor by one within a list that `i32` can count stays within
/// the list: one step further, or the last; one step back, or the first.
pub proof fn law_moved(idx: usize, len: usize, delta: i32)
    requires
        idx < len <= i32::MAX,
        delta == 1 || delta == -1,
    ensures
        moved(idx, len, delta) < len,
        delta == 1 ==> moved(idx, len, delta) == (if idx + 1 < len {
            idx + 1
        } else {
            idx as int
        }),
        delta == -1 ==> moved(idx, len, delta) == (if idx > 0 {
            idx - 1
        } else {
            0
        }),
{
    assert((idx as i32) as int == idx as int);
    assert((len as i32) as int == len as int);
}

/// Once the application is quitting, keys change nothing.
pub proof fn law_quit_is_final(a: AppView, k: KeyPress, f: Fresh)
    requires
        a.should_quit,
    ensures
        a.key(k, f) == (a, EffectView::Nothing),
{
}

/// Whether no prompt, delete mode or pending shortcut letter is open, and
/// the application is not quitting.
pub open spec fn idle(a: AppView) -> bool {
    &&& a.confirm is None
    &&& a.input is None
    &&& a.delete_mode is None
    &&& a.pending_shortcut is None
    &&& !a.should_quit
}

/// `Q` quits from the home, projects and ideas screens.
pub proof fn law_q_quits(a: AppView, f: Fresh)
    requires
        idle(a),
        a.screen == Screen::Home || a.screen == Screen::Projects || a.screen == Screen::Ideas,
    ensures
        a.key(KeyPress { code: Key::Char('Q'), control: false }, f).0.should_quit,
{
}

/// `?` opens the help from the home, projects and ideas screens, and Esc
/// goes back to the screen it was opened from.
pub proof fn law_help_round_trip(a: AppView, f: Fresh)
    requires
        idle(a),
        a.screen == Screen::Home || a.screen == Screen::Projects || a.screen == Screen::Ideas,
    ensures
        ({
            let b = a.key(KeyPress { code: Key::Char('?'), control: false }, f).0;
            &&& b.screen == Screen::Help
            &&& b.key(KeyPress { code: Key::Esc, control: false }, f).0.screen == a.screen
        }),
{
}

/// `/` opens the search prompt from the home, projects and ideas screens,
/// and Esc closes it and goes back to the screen it was opened from.
pub proof fn law_search_escape(a: AppView, f: Fresh)
    requires
        idle(a),
        a.screen == Screen::Home || a.screen == Screen::Projects || a.screen == Screen::Ideas,
    ensures
        ({
            let b = a.key(KeyPress { code: Key::Char('/'), control: false }, f).0;
            let c = b.key(KeyPress { code: Key::Esc, control: false }, f).0;
            &&& b.screen == Screen::Search
            &&& b.in_search()
            &&& c.screen == a.screen
            &&& c.input is None
        }),
{
}

/// Flipping the selected task's completion twice gives back the tasks as
/// they were.
pub proof fn law_toggle_twice(a: AppView)
    ensures
        a.toggle_task_completed().0.toggle_task_completed().0 == a,
{
    let b = a.toggle_task_completed().0;
    if let (Some(p), Some(t)) = (a.current_project(), a.current_task()) {
        if let Some(pi) = project_position(a.projects, p.id) {
            if let Some(ti) = task_position(a.projects[pi].tasks, t.id) {
                crate::app::lemma_first_where_found(a.projects, |q: ProjectView| q.id == p.id);
                crate::app::lemma_first_where_found(
                    a.projects[pi].tasks,
                    |u: TaskView| u.id == t.id,
                );
                let old_t = a.projects[pi].tasks[ti];
                assert(b.projects.len() == a.projects.len());
                assert(b.current_project() matches Some(q) && q.id == p.id);
                assert(b.current_task() matches Some(u) && u.id == t.id) by {
                    if pi == a.project_idx as int {
                        if ti == a.task_idx as int {
                        }
                    }
                }
                assert(b.projects =~= a.projects.update(
                    pi,
                    ProjectView {
                        tasks: a.projects[pi].tasks.update(
                            ti,
                            TaskView { completed: !old_t.completed, ..old_t },
                        ),
                        ..a.projects[pi]
                    },
                ));
                assert(project_position(b.projects, p.id) == Some(pi)) by {
                    assert forall|j: int| 0 <= j < pi implies #[trigger] b.projects[j].id != p.id by {
                        assert(b.projects[j] == a.projects[j]);
                    }
                    crate::app::lemma_first_where(b.projects, |q: ProjectView| q.id == p.id, pi);
                }
                assert(task_position(b.projects[pi].tasks, t.id) == Some(ti)) by {
                    assert forall|j: int| 0 <= j < ti implies #[trigger] b.projects[pi].tasks[j].id
                        != t.id by {
                        assert(b.projects[pi].tasks[j] == a.projects[pi].tasks[j]);
                    }
                    crate::app::lemma_first_where(
                        b.projects[pi].tasks,
                        |u: TaskView| u.id == t.id,
                        ti,
                    );
                }
                let c = b.toggle_task_completed().0;
                assert(c.projects[pi].tasks =~= a.projects[pi].tasks);
                assert(c.projects =~= a.projects);
                assert(c == a);
            }
        }
    }
}

/// The number keys switch between the home, projects and ideas screens, and
/// Esc on the projects or ideas screen goes home.
pub proof fn law_screen_keys(a: AppView, f: Fresh)
    requires
        idle(a),
        a.screen == Screen::Home || a.screen == Screen::Projects || a.screen == Screen::Ideas,
    ensures
        a.key(KeyPress { code: Key::Char('1'), control: false }, f).0.screen == Screen::Home,
        a.key(KeyPress { code: Key::Char('2'), control: false }, f).0.screen == Screen::Projects,
        a.key(KeyPress { code: Key::Char('3'), control: false }, f).0.screen == Screen::Ideas,
        a.screen != Screen::Home ==> a.key(KeyPress { code: Key::Esc, control: false }, f).0.screen
            == Screen::Home,
{
}

/// Confirming the deletion of note `n` of an idea removes that note and no
/// other: the notes before it stay, the notes after it move up by one, the
/// other ideas and the projects stay as they were, and the idea is saved.
pub proof fn law_confirm_deletes_idea_note(a: AppView, id: u128, n: usize, ii: int, f: Fresh)
    requires
        !a.should_quit,
        a.pending_shortcut is None,
        a.confirm matches Some(c) && c.action == ConfirmAction::DeleteIdeaNote(id, n),
        0 <= ii < a.ideas.len(),
        a.ideas[ii].id == id,
        forall|j: int| 0 <= j < ii ==> #[trigger] a.ideas[j].id != id,
        n < a.ideas[ii].notes.len(),
    ensures
        ({
            let (b, e) = a.key(KeyPress { code: Key::Char('y'), control: false }, f);
            let old_notes = a.ideas[ii].notes;
            let new_notes = b.ideas[ii].notes;
            &&& b.confirm is None
            &&& b.projects == a.projects
            &&& b.ideas.len() == a.ideas.len()
            &&& forall|j: int| 0 <= j < a.ideas.len() && j != ii ==> #[trigger] b.ideas[j] == a.ideas[j]
            &&& b.ideas[ii].id == id
            &&& b.ideas[ii].title == a.ideas[ii].title
            &&& b.ideas[ii].created == a.ideas[ii].created
            &&& new_notes.len() + 1 == old_notes.len()
            &&& forall|m: int| 0 <= m < n ==> #[trigger] new_notes[m] == old_notes[m]
            &&& forall|m: int| n <= m < new_notes.len() ==> #[trigger] new_notes[m] == old_notes[m + 1]
            &&& e == EffectView::SaveIdea(b.ideas[ii])
        }),
{
    crate::app::lemma_first_where(a.ideas, |i: IdeaView| i.id == id, ii);
}

/// Confirming the deletion of note `n` of a task removes that note and no
/// other: the notes before it stay, the notes after it move up by one, the
/// other tasks, projects and the ideas stay as they were, and the project
/// is saved.
pub proof fn law_confirm_deletes_task_note(
    a: AppView,
    pid: u128,
    tid: u128,
    n: usize,
    pi: int,
    ti: int,
    f: Fresh,
)
    requires
        !a.should_quit,
        a.pending_shortcut is None,
        a.confirm matches Some(c) && c.action == ConfirmAction::DeleteProjectNote(pid, tid, n),
        0 <= pi < a.projects.len(),
        a.projects[pi].id == pid,
        forall|j: int| 0 <= j < pi ==> #[trigger] a.projects[j].id != pid,
        0 <= ti < a.projects[pi].tasks.len(),
        a.projects[pi].tasks[ti].id == tid,
        forall|j: int| 0 <= j < ti ==> #[trigger] a.projects[pi].tasks[j].id != tid,
        n < a.projects[pi].tasks[ti].notes.len(),
    ensures
        ({
            let (b, e) = a.key(KeyPress { code: Key::Char('y'), control: false }, f);
            let old_t = a.projects[pi].tasks[ti];
            let new_t = b.projects[pi].tasks[ti];
            &&& b.confirm is None
            &&& b.ideas == a.ideas
            &&& b.projects.len() == a.projects.len()
            &&& forall|j: int|
                0 <= j < a.projects.len() && j != pi ==> #[trigger] b.projects[j] == a.projects[j]
            &&& b.projects[pi].tasks.len() == a.projects[pi].tasks.len()
            &&& forall|j: int|
                0 <= j < a.projects[pi].tasks.len() && j != ti ==> #[trigger] b.projects[pi].tasks[j]
                    == a.projects[pi].tasks[j]
            &&& new_t.id == old_t.id && new_t.title == old_t.title && new_t.completed == old_t.completed
            &&& new_t.notes.len() + 1 == old_t.notes.len()
            &&& forall|m: int| 0 <= m < n ==> #[trigger] new_t.notes[m] == old_t.notes[m]
            &&& forall|m: int|
                n <= m < new_t.notes.len() ==> #[trigger] new_t.notes[m] == old_t.notes[m + 1]
            &&& e == EffectView::SaveProject(b.projects[pi])
        }),
{
    crate::app::lemma_first_where(a.projects, |p: ProjectView| p.id == pid, pi);
    crate::app::lemma_first_where(a.projects[pi].tasks, |t: TaskView| t.id == tid, ti);
}

/// Submitting a new task's title adds the task, trimmed, not completed and
/// without notes, after the tasks that were there, which keep their places;
/// the other projects and the ideas stay as they were, and the project is
/// saved.
pub proof fn law_new_task_goes_last(a: AppView, pid: u128, pi: int, f: Fresh)
    requires
        !a.should_quit,
        a.pending_shortcut is None,
        a.confirm is None,
        a.input matches Some(st) && st.action == InputAction::NewTask(pid) && trim(st.value).len()
            > 0,
        0 <= pi < a.projects.len(),
        a.projects[pi].id == pid,
        forall|j: int| 0 <= j < pi ==> #[trigger] a.projects[j].id != pid,
    ensures
        ({
            let (b, e) = a.key(KeyPress { code: Key::Enter, control: false }, f);
            let old_ts = a.projects[pi].tasks;
            let new_ts = b.projects[pi].tasks;
            &&& b.input is None
            &&& b.ideas == a.ideas
            &&& b.projects.len() == a.projects.len()
            &&& forall|j: int|
                0 <= j < a.projects.len() && j != pi ==> #[trigger] b.projects[j] == a.projects[j]
            &&& b.projects[pi].id == pid
            &&& b.projects[pi].title == a.projects[pi].title
            &&& new_ts.len() == old_ts.len() + 1
            &&& forall|m: int| 0 <= m < old_ts.len() ==> #[trigger] new_ts[m] == old_ts[m]
            &&& new_ts[old_ts.len() as int] == TaskView {
                id: f.id,
                title: trim(a.input->0.value),
                completed: false,
                notes: seq![],
            }
            &&& e == EffectView::SaveProject(b.projects[pi])
        }),
{
    crate::app::lemma_first_where(a.projects, |p: ProjectView| p.id == pid, pi);
}

/// Enter on the home screen opens the idea under the home cursor (the last
/// idea if the cursor is past it) on the ideas screen.
pub proof fn law_enter_opens_home_idea(a: AppView, f: Fresh)
    requires
        idle(a),
        a.screen == Screen::Home,
        a.home_focus == HomeFocus::Ideas,
        a.ideas.len() > 0,
    ensures
        ({
            let b = a.key(KeyPress { code: Key::Enter, control: false }, f).0;
            &&& b.screen == Screen::Ideas
            &&& b.idea_idx == (if a.home_idea_idx < a.ideas.len() {
                a.home_idea_idx as int
            } else {
                a.ideas.len() - 1
            })
            &&& b.idea_note_idx == 0
            &&& b.ideas == a.ideas
        }),
{
}

/// Enter on the home screen, where the projects column has the focus and
/// the projects screen's selection is in range, opens the project under the
/// home cursor (the last project if the cursor is past it) on the projects
/// screen, with its first task selected.
pub proof fn law_enter_opens_home_project(a: AppView, f: Fresh)
    requires
        idle(a),
        a.screen == Screen::Home,
        a.home_focus == HomeFocus::Projects,
        a.project_idx < a.projects.len(),
    ensures
        ({
            let b = a.key(KeyPress { code: Key::Enter, control: false }, f).0;
            &&& b.screen == Screen::Projects
            &&& b.project_idx == (if a.home_project_idx < a.projects.len() {
                a.home_project_idx as int
            } else {
                a.projects.len() - 1
            })
            &&& b.task_idx == 0
            &&& b.projects == a.projects
        }),
{
}

/// Submitting a note for an idea adds the note, trimmed, after the notes
/// that were there, which keep their places; the other ideas and the
/// projects stay as they were, and the idea is saved.
pub proof fn law_new_idea_note_goes_last(a: AppView, id: u128, ii: int, f: Fresh)
    requires
        !a.should_quit,
        a.pending_shortcut is None,
        a.confirm is None,
        a.input matches Some(st) && st.action == InputAction::NewIdeaNote(id) && trim(st.value).len()
            > 0,
        0 <= ii < a.ideas.len(),
        a.ideas[ii].id == id,
        forall|j: int| 0 <= j < ii ==> #[trigger] a.ideas[j].id != id,
    ensures
        ({
            let (b, e) = a.key(KeyPress { code: Key::Enter, control: false }, f);
            let old_notes = a.ideas[ii].notes;
            let new_notes = b.ideas[ii].notes;
            &&& b.input is None
            &&& b.projects == a.projects
            &&& b.ideas.len() == a.ideas.len()
            &&& forall|j: int| 0 <= j < a.ideas.len() && j != ii ==> #[trigger] b.ideas[j] == a.ideas[j]
            &&& b.ideas[ii].id == id
            &&& b.ideas[ii].title == a.ideas[ii].title
            &&& new_notes.len() == old_notes.len() + 1
            &&& forall|m: int| 0 <= m < old_notes.len() ==> #[trigger] new_notes[m] == old_notes[m]
            &&& new_notes[old_notes.len() as int] == trim(a.input->0.value)
            &&& e == EffectView::SaveIdea(b.ideas[ii])
        }),
{
    crate::app::lemma_first_where(a.ideas, |i: IdeaView| i.id == id, ii);
}

/// Submitting a note for a task adds the note, trimmed, after the notes that
/// were there, which keep their places; the task keeps its id, title and
/// mark, the other tasks, projects and the ideas stay as they were, and the
/// project is saved.
pub proof fn law_new_task_note_goes_last(
    a: AppView,
    pid: u128,
    tid: u128,
    pi: int,
    ti: int,
    f: Fresh,
)
    requires
        !a.should_quit,
        a.pending_shortcut is None,
        a.confirm is None,
        a.input matches Some(st) && st.action == InputAction::NewTaskNote(pid, tid) && trim(
            st.value,
        ).len() > 0,
        0 <= pi < a.projects.len(),
        a.projects[pi].id == pid,
        forall|j: int| 0 <= j < pi ==> #[trigger] a.projects[j].id != pid,
        0 <= ti < a.projects[pi].tasks.len(),
        a.projects[pi].tasks[ti].id == tid,
        forall|j: int| 0 <= j < ti ==> #[trigger] a.projects[pi].tasks[j].id != tid,
    ensures
        ({
            let (b, e) = a.key(KeyPress { code: Key::Enter, control: false }, f);
            let old_t = a.projects[pi].tasks[ti];
            let new_t = b.projects[pi].tasks[ti];
            &&& b.input is None
            &&& b.ideas == a.ideas
            &&& b.projects.len() == a.projects.len()
            &&& forall|j: int|
                0 <= j < a.projects.len() && j != pi ==> #[trigger] b.projects[j] == a.projects[j]
            &&& b.projects[pi].tasks.len() == a.projects[pi].tasks.len()
            &&& forall|j: int|
                0 <= j < a.projects[pi].tasks.len() && j != ti ==> #[trigger] b.projects[pi].tasks[j]
                    == a.projects[pi].tasks[j]
            &&& new_t.id == old_t.id && new_t.title == old_t.title && new_t.completed == old_t.completed
            &&& new_t.notes.len() == old_t.notes.len() + 1
            &&& forall|m: int| 0 <= m < old_t.notes.len() ==> #[trigger] new_t.notes[m] == old_t.notes[m]
            &&& new_t.notes[old_t.notes.len() as int] == trim(a.input->0.value)
            &&& e == EffectView::SaveProject(b.projects[pi])
        }),
{
    crate::app::lemma_first_where(a.projects, |p: ProjectView| p.id == pid, pi);
    crate::app::lemma_first_where(a.projects[pi].tasks, |t: TaskView| t.id == tid, ti);
}

/// Confirming the deletion of a task removes that task and no other: the
/// tasks before it stay, the tasks after it move up by one, the other
/// projects and the ideas stay as they were, and the project is saved.
pub proof fn law_confirm_deletes_task(a: AppView, pid: u128, tid: u128, pi: int, ti: int, f: Fresh)
    requires
        !a.should_quit,
        a.pending_shortcut is None,
        a.confirm matches Some(c) && c.action == ConfirmAction::DeleteTask(pid, tid),
        0 <= pi < a.projects.len(),
        a.projects[pi].id == pid,
        forall|j: int| 0 <= j < pi ==> #[trigger] a.projects[j].id != pid,
        0 <= ti < a.projects[pi].tasks.len(),
        a.projects[pi].tasks[ti].id == tid,
        forall|j: int| 0 <= j < ti ==> #[trigger] a.projects[pi].tasks[j].id != tid,
    ensures
        ({
            let (b, e) = a.key(KeyPress { code: Key::Char('y'), control: false }, f);
            let old_ts = a.projects[pi].tasks;
            let new_ts = b.projects[pi].tasks;
            &&& b.confirm is None
            &&& b.ideas == a.ideas
            &&& b.projects.len() == a.projects.len()
            &&& forall|j: int|
                0 <= j < a.projects.len() && j != pi ==> #[trigger] b.projects[j] == a.projects[j]
            &&& b.projects[pi].id == pid
            &&& b.projects[pi].title == a.projects[pi].title
            &&& new_ts.len() + 1 == old_ts.len()
            &&& forall|m: int| 0 <= m < ti ==> #[trigger] new_ts[m] == old_ts[m]
            &&& forall|m: int| ti <= m < new_ts.len() ==> #[trigger] new_ts[m] == old_ts[m + 1]
            &&& e == EffectView::SaveProject(b.projects[pi])
        }),
{
    crate::app::lemma_first_where(a.projects, |p: ProjectView| p.id == pid, pi);
    crate::app::lemma_first_where(a.projects[pi].tasks, |t: TaskView| t.id == tid, ti);
}

/// Confirming the deletion of a project removes that project and no other:
/// the projects before it stay, the projects after it move up by one, the
/// ideas stay as they were, and the project's file is to be removed.
pub proof fn law_confirm_deletes_project(a: AppView, pid: u128, pi: int, f: Fresh)
    requires
        !a.should_quit,
        a.pending_shortcut is None,
        a.confirm matches Some(c) && c.action == ConfirmAction::DeleteProject(pid),
        0 <= pi < a.projects.len(),
        a.projects[pi].id == pid,
        forall|j: int| 0 <= j < pi ==> #[trigger] a.projects[j].id != pid,
    ensures
        ({
            let (b, e) = a.key(KeyPress { code: Key::Char('y'), control: false }, f);
            &&& b.confirm is None
            &&& b.ideas == a.ideas
            &&& b.projects.len() + 1 == a.projects.len()
            &&& forall|m: int| 0 <= m < pi ==> #[trigger] b.projects[m] == a.projects[m]
            &&& forall|m: int| pi <= m < b.projects.len() ==> #[trigger] b.projects[m] == a.projects[m + 1]
            &&& e == EffectView::DeleteProject(a.projects[pi])
        }),
{
    crate::app::lemma_first_where(a.projects, |p: ProjectView| p.id == pid, pi);
}

/// Confirming the deletion of an idea removes that idea and no other: the
/// ideas before it stay, the ideas after it move up by one, the projects
/// stay as they were, and the idea's file is to be removed.
pub proof fn law_confirm_deletes_idea(a: AppView, id: u128, ii: int, f: Fresh)
    requires
        !a.should_quit,
        a.pending_shortcut is None,
        a.confirm matches Some(c) && c.action == ConfirmAction::DeleteIdea(id),
        0 <= ii < a.ideas.len(),
        a.ideas[ii].id == id,
        forall|j: int| 0 <= j < ii ==> #[trigger] a.ideas[j].id != id,
    ensures
        ({
            let (b, e) = a.key(KeyPress { code: Key::Char('y'), control: false }, f);
            &&& b.confirm is None
            &&& b.projects == a.projects
            &&& b.ideas.len() + 1 == a.ideas.len()
            &&& forall|m: int| 0 <= m < ii ==> #[trigger] b.ideas[m] == a.ideas[m]
            &&& forall|m: int| ii <= m < b.ideas.len() ==> #[trigger] b.ideas[m] == a.ideas[m + 1]
            &&& e == EffectView::DeleteIdea(a.ideas[ii])
        }),
{
    crate::app::lemma_first_where(a.ideas, |i: IdeaView| i.id == id, ii);
}

/// Submitting a new project's title adds the project, with the trimmed
/// title, the fresh id and instant and no tasks, to the projects that were
/// there, keeps them all, and leaves them in the order of their lower-cased
/// titles; the ideas are put in title order too, and the new project is
/// saved.
pub proof fn law_new_project_added_in_order(a: AppView, f: Fresh)
    requires
        !a.should_quit,
        a.pending_shortcut is None,
        a.confirm is None,
        a.input matches Some(st) && st.action == InputAction::NewProject && trim(st.value).len()
            > 0,
    ensures
        ({
            let (b, e) = a.key(KeyPress { code: Key::Enter, control: false }, f);
            let p = ProjectView {
                id: f.id,
                title: trim(a.input->0.value),
                created: f.created,
                tasks: seq![],
            };
            &&& b.input is None
            &&& b.ideas == sort_ideas(a.ideas)
            &&& b.projects.to_multiset() == a.projects.push(p).to_multiset()
            &&& b.projects.len() == a.projects.len() + 1
            &&& forall|i: int, j: int|
                0 <= i < j < b.projects.len() ==> !(text_lt(
                    lowercase(#[trigger] b.projects[j].title),
                    lowercase(#[trigger] b.projects[i].title),
                ))
            &&& e == EffectView::SaveProject(p)
        }),
{
    let p = ProjectView {
        id: f.id,
        title: trim(a.input->0.value),
        created: f.created,
        tasks: seq![],
    };
    let s2 = a.projects.push(p);
    law_sort_projects(s2);
    let b = a.key(KeyPress { code: Key::Enter, control: false }, f).0;
    assert(b.projects == sort_projects(s2));
    assert forall|i: int, j: int| 0 <= i < j < b.projects.len() implies !(text_lt(
        lowercase(#[trigger] b.projects[j].title),
        lowercase(#[trigger] b.projects[i].title),
    )) by {
        assert(b.projects[j] == sort_projects(s2)[j]);
        assert(b.projects[i] == sort_projects(s2)[i]);
    }
}

/// Submitting a new idea's title adds the idea, with the trimmed title, the
/// fresh id and instant and no notes, to the ideas that were there, keeps
/// them all, and leaves them in the order of their lower-cased titles; the
/// projects are put in title order too, and the new idea is saved.
pub proof fn law_new_idea_added_in_order(a: AppView, f: Fresh)
    requires
        !a.should_quit,
        a.pending_shortcut is None,
        a.confirm is None,
        a.input matches Some(st) && st.action == InputAction::NewIdea && trim(st.value).len() > 0,
    ensures
        ({
            let (b, e) = a.key(KeyPress { code: Key::Enter, control: false }, f);
            let i = IdeaView {
                id: f.id,
                title: trim(a.input->0.value),
                created: f.created,
                notes: seq![],
            };
            &&& b.input is None
            &&& b.projects == sort_projects(a.projects)
            &&& b.ideas.to_multiset() == a.ideas.push(i).to_multiset()
            &&& b.ideas.len() == a.ideas.len() + 1
            &&& forall|x: int, y: int|
                0 <= x < y < b.ideas.len() ==> !(text_lt(
                    lowercase(#[trigger] b.ideas[y].title),
                    lowercase(#[trigger] b.ideas[x].title),
                ))
            &&& e == EffectView::SaveIdea(i)
        }),
{
    let i = IdeaView { id: f.id, title: trim(a.input->0.value), created: f.created, notes: seq![] };
    let s2 = a.ideas.push(i);
    law_sort_ideas(s2);
    let b = a.key(KeyPress { code: Key::Enter, control: false }, f).0;
    assert(b.ideas == sort_ideas(s2));
    assert forall|x: int, y: int| 0 <= x < y < b.ideas.len() implies !(text_lt(
        lowercase(#[trigger] b.ideas[y].title),
        lowercase(#[trigger] b.ideas[x].title),
    )) by {
        assert(b.ideas[y] == sort_ideas(s2)[y]);
        assert(b.ideas[x] == sort_ideas(s2)[x]);
    }
}

/// Space on the projects screen, with the tasks column focused, flips the
/// completion of the selected task and of nothing else: the task keeps its
/// id, title and notes, the other tasks, projects and the ideas stay as they
/// were, and the project is saved.
pub proof fn law_space_toggles_selected_task(a: AppView, f: Fresh)
    requires
        idle(a),
        a.screen == Screen::Projects,
        a.projects_focus == ProjectsFocus::Tasks,
        a.project_idx < a.projects.len(),
        a.task_idx < a.projects[a.project_idx as int].tasks.len(),
        forall|j: int|
            0 <= j < a.project_idx ==> #[trigger] a.projects[j].id != a.projects[a.project_idx as int].id,
        forall|j: int|
            0 <= j < a.task_idx ==> #[trigger] a.projects[a.project_idx as int].tasks[j].id
                != a.projects[a.project_idx as int].tasks[a.task_idx as int].id,
    ensures
        ({
            let (b, e) = a.key(KeyPress { code: Key::Char(' '), control: false }, f);
            let pi = a.project_idx as int;
            let ti = a.task_idx as int;
            let old_t = a.projects[pi].tasks[ti];
            let new_t = b.projects[pi].tasks[ti];
            &&& b.ideas == a.ideas
            &&& b.projects.len() == a.projects.len()
            &&& forall|j: int|
                0 <= j < a.projects.len() && j != pi ==> #[trigger] b.projects[j] == a.projects[j]
            &&& b.projects[pi].tasks.len() == a.projects[pi].tasks.len()
            &&& forall|j: int|
                0 <= j < a.projects[pi].tasks.len() && j != ti ==> #[trigger] b.projects[pi].tasks[j]
                    == a.projects[pi].tasks[j]
            &&& new_t.completed == !old_t.completed
            &&& new_t.id == old_t.id && new_t.title == old_t.title && new_t.notes == old_t.notes
            &&& e == EffectView::SaveProject(b.projects[pi])
        }),
{
    let pi = a.project_idx as int;
    let ti = a.task_idx as int;
    crate::app::lemma_first_where(a.projects, |p: ProjectView| p.id == a.projects[pi].id, pi);
    crate::app::lemma_first_where(
        a.projects[pi].tasks,
        |t: TaskView| t.id == a.projects[pi].tasks[ti].id,
        ti,
    );
}

/// `j` and `k` on the home screen move the cursor of the focused column one
/// item down or up, staying on the last or the first item; the other
/// column's cursor stays where it was.
pub proof fn law_home_cursor_keys(a: AppView, f: Fresh)
    requires
        idle(a),
        a.screen == Screen::Home,
        a.projects.len() <= i32::MAX,
        a.ideas.len() <= i32::MAX,
        a.home_focus == HomeFocus::Projects ==> a.home_project_idx < a.projects.len(),
        a.home_focus == HomeFocus::Ideas ==> a.home_idea_idx < a.ideas.len(),
    ensures
        ({
            let down = a.key(KeyPress { code: Key::Char('j'), control: false }, f).0;
            let up = a.key(KeyPress { code: Key::Char('k'), control: false }, f).0;
            &&& a.home_focus == HomeFocus::Projects ==> {
                &&& down.home_project_idx == (if a.home_project_idx + 1 < a.projects.len() {
                    a.home_project_idx + 1
                } else {
                    a.home_project_idx as int
                })
                &&& up.home_project_idx == (if a.home_project_idx > 0 {
                    a.home_project_idx - 1
                } else {
                    0
                })
                &&& down.home_idea_idx == a.home_idea_idx && up.home_idea_idx == a.home_idea_idx
            }
            &&& a.home_focus == HomeFocus::Ideas ==> {
                &&& down.home_idea_idx == (if a.home_idea_idx + 1 < a.ideas.len() {
                    a.home_idea_idx + 1
                } else {
                    a.home_idea_idx as int
                })
                &&& up.home_idea_idx == (if a.home_idea_idx > 0 {
                    a.home_idea_idx - 1
                } else {
                    0
                })
                &&& down.home_project_idx == a.home_project_idx && up.home_project_idx
                    == a.home_project_idx
            }
        }),
{
    if a.home_focus == HomeFocus::Projects {
        law_moved(a.home_project_idx, a.projects.len() as usize, 1i32);
        law_moved(a.home_project_idx, a.projects.len() as usize, -1i32);
    } else {
        law_moved(a.home_idea_idx, a.ideas.len() as usize, 1i32);
        law_moved(a.home_idea_idx, a.ideas.len() as usize, -1i32);
    }
}

/// `x` on the ideas screen asks to delete what is selected in the focused
/// column: the selected idea, or the selected note of the selected idea.
pub proof fn law_ideas_x_asks_for_selection(a: AppView, f: Fresh)
    requires
        idle(a),
        a.screen == Screen::Ideas,
        a.idea_idx < a.ideas.len(),
        a.ideas_focus == IdeasFocus::Notes ==> a.idea_note_idx < a.ideas[a.idea_idx as int].notes.len(),
    ensures
        ({
            let b = a.key(KeyPress { code: Key::Char('x'), control: false }, f).0;
            let i = a.ideas[a.idea_idx as int];
            &&& b.ideas == a.ideas
            &&& a.ideas_focus == IdeasFocus::List ==> (b.confirm matches Some(c) && c.action
                == ConfirmAction::DeleteIdea(i.id))
            &&& a.ideas_focus == IdeasFocus::Notes ==> (b.confirm matches Some(c) && c.action
                == ConfirmAction::DeleteIdeaNote(i.id, a.idea_note_idx))
        }),
{
}

/// `x` on the projects screen asks to delete what is selected in the
/// focused column: the selected project, its selected task, or that task's
/// selected note.
pub proof fn law_projects_x_asks_for_selection(a: AppView, f: Fresh)
    requires
        idle(a),
        a.screen == Screen::Projects,
        a.project_idx < a.projects.len(),
        a.projects_focus != ProjectsFocus::List ==> a.task_idx < a.projects[a.project_idx as int].tasks.len(),
        a.projects_focus == ProjectsFocus::Notes ==> a.task_note_idx < a.projects[a.project_idx as int].tasks[a.task_idx as int].notes.len(),
    ensures
        ({
            let b = a.key(KeyPress { code: Key::Char('x'), control: false }, f).0;
            let p = a.projects[a.project_idx as int];
            &&& b.projects == a.projects
            &&& a.projects_focus == ProjectsFocus::List ==> (b.confirm matches Some(c) && c.action
                == ConfirmAction::DeleteProject(p.id))
            &&& a.projects_focus == ProjectsFocus::Tasks ==> (b.confirm matches Some(c) && c.action
                == ConfirmAction::DeleteTask(p.id, p.tasks[a.task_idx as int].id))
            &&& a.projects_focus == ProjectsFocus::Notes ==> (b.confirm matches Some(c) && c.action
                == ConfirmAction::DeleteProjectNote(p.id, p.tasks[a.task_idx as int].id, a.task_note_idx))
        }),
{
}

/// `t` on the projects screen opens the prompt for a new task of the
/// selected project, and `n` that for a new note of its selected task.
pub proof fn law_projects_prompts_for_selection(a: AppView, f: Fresh)
    requires
        idle(a),
        a.screen == Screen::Projects,
        a.project_idx < a.projects.len(),
    ensures
        ({
            let p = a.projects[a.project_idx as int];
            let bt = a.key(KeyPress { code: Key::Char('t'), control: false }, f).0;
            let bn = a.key(KeyPress { code: Key::Char('n'), control: false }, f).0;
            &&& bt.input matches Some(st) && st.action == InputAction::NewTask(p.id) && st.value.len() == 0
            &&& a.task_idx < p.tasks.len() ==> (bn.input matches Some(st) && st.action
                == InputAction::NewTaskNote(p.id, p.tasks[a.task_idx as int].id) && st.value.len() == 0)
        }),
{
}

/// `n` on the ideas screen opens the prompt for a new note of the selected
/// idea.
pub proof fn law_ideas_n_prompts_for_selection(a: AppView, f: Fresh)
    requires
        idle(a),
        a.screen == Screen::Ideas,
        a.idea_idx < a.ideas.len(),
    ensures
        ({
            let b = a.key(KeyPress { code: Key::Char('n'), control: false }, f).0;
            b.input matches Some(st) && st.action == InputAction::NewIdeaNote(
                a.ideas[a.idea_idx as int].id,
            ) && st.value.len() == 0
        }),
{
}

/// `j` and `k` on the ideas screen move the cursor of the focused column
/// one item down or up, staying on the last or the first item: in the list,
/// the selected idea (whose first note is then selected); in the notes, the
/// selected note.
pub proof fn law_ideas_cursor_keys(a: AppView, f: Fresh)
    requires
        idle(a),
        a.screen == Screen::Ideas,
        a.idea_idx < a.ideas.len() <= i32::MAX,
        a.ideas_focus == IdeasFocus::Notes ==> a.idea_note_idx < a.ideas[a.idea_idx as int].notes.len()
            <= i32::MAX,
    ensures
        ({
            let down = a.key(KeyPress { code: Key::Char('j'), control: false }, f).0;
            let up = a.key(KeyPress { code: Key::Char('k'), control: false }, f).0;
            let n = a.ideas[a.idea_idx as int].notes.len();
            &&& a.ideas_focus == IdeasFocus::List ==> {
                &&& down.idea_idx == (if a.idea_idx + 1 < a.ideas.len() {
                    a.idea_idx + 1
                } else {
                    a.idea_idx as int
                })
                &&& up.idea_idx == (if a.idea_idx > 0 {
                    a.idea_idx - 1
                } else {
                    0
                })
                &&& down.idea_note_idx == 0 && up.idea_note_idx == 0
            }
            &&& a.ideas_focus == IdeasFocus::Notes ==> {
                &&& down.idea_note_idx == (if a.idea_note_idx + 1 < n {
                    a.idea_note_idx + 1
                } else {
                    a.idea_note_idx as int
                })
                &&& up.idea_note_idx == (if a.idea_note_idx > 0 {
                    a.idea_note_idx - 1
                } else {
                    0
                })
                &&& down.idea_idx == a.idea_idx && up.idea_idx == a.idea_idx
            }
        }),
{
    if a.ideas_focus == IdeasFocus::List {
        law_moved(a.idea_idx, a.ideas.len() as usize, 1i32);
        law_moved(a.idea_idx, a.ideas.len() as usize, -1i32);
    } else {
        let n = a.ideas[a.idea_idx as int].notes.len() as usize;
        law_moved(a.idea_note_idx, n, 1i32);
        law_moved(a.idea_note_idx, n, -1i32);
    }
}

/// `j` and `k` on the projects screen move the cursor of the focused column
/// one item down or up, staying on the last or the first item: the selected
/// project (whose first task is then selected), the selected task (whose
/// first note is then selected), or the selected note.
pub proof fn law_projects_cursor_keys(a: AppView, f: Fresh)
    requires
        idle(a),
        a.screen == Screen::Projects,
        a.project_idx < a.projects.len() <= i32::MAX,
        a.projects_focus != ProjectsFocus::List ==> a.task_idx < a.projects[a.project_idx as int].tasks.len()
            <= i32::MAX,
        a.projects_focus == ProjectsFocus::Notes ==> a.task_note_idx < a.projects[a.project_idx as int].tasks[a.task_idx as int].notes.len()
            <= i32::MAX,
    ensures
        ({
            let down = a.key(KeyPress { code: Key::Char('j'), control: false }, f).0;
            let up = a.key(KeyPress { code: Key::Char('k'), control: false }, f).0;
            let p = a.projects[a.project_idx as int];
            &&& a.projects_focus == ProjectsFocus::List ==> {
                &&& down.project_idx == (if a.project_idx + 1 < a.projects.len() {
                    a.project_idx + 1
                } else {
                    a.project_idx as int
                })
                &&& up.project_idx == (if a.project_idx > 0 {
                    a.project_idx - 1
                } else {
                    0
                })
                &&& down.task_idx == 0 && up.task_idx == 0
            }
            &&& a.projects_focus == ProjectsFocus::Tasks ==> {
                &&& down.task_idx == (if a.task_idx + 1 < p.tasks.len() {
                    a.task_idx + 1
                } else {
                    a.task_idx as int
                })
                &&& up.task_idx == (if a.task_idx > 0 {
                    a.task_idx - 1
                } else {
                    0
                })
                &&& down.project_idx == a.project_idx && up.project_idx == a.project_idx
                &&& down.task_note_idx == 0 && up.task_note_idx == 0
            }
            &&& a.projects_focus == ProjectsFocus::Notes ==> {
                &&& down.task_note_idx == (if a.task_note_idx + 1 < p.tasks[a.task_idx as int].notes.len() {
                    a.task_note_idx + 1
                } else {
                    a.task_note_idx as int
                })
                &&& up.task_note_idx == (if a.task_note_idx > 0 {
                    a.task_note_idx - 1
                } else {
                    0
                })
                &&& down.task_idx == a.task_idx && up.task_idx == a.task_idx
            }
        }),
{
    let p = a.projects[a.project_idx as int];
    if a.projects_focus == ProjectsFocus::List {
        law_moved(a.project_idx, a.projects.len() as usize, 1i32);
        law_moved(a.project_idx, a.projects.len() as usize, -1i32);
    } else if a.projects_focus == ProjectsFocus::Tasks {
        law_moved(a.task_idx, p.tasks.len() as usize, 1i32);
        law_moved(a.task_idx, p.tasks.len() as usize, -1i32);
    } else {
        let n = p.tasks[a.task_idx as int].notes.len() as usize;
        law_moved(a.task_note_idx, n, 1i32);
        law_moved(a.task_note_idx, n, -1i32);
    }
}

} // verus!
