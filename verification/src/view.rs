//! What the screens show, as text: the labels and counts of list rows, the
//! row the cursor marks, the hints at the bottom, and which prompt is drawn
//! over the screen. Drawing it is left to the caller.

use vstd::prelude::*;
use crate::app::{App, AppView, InputAction, Screen};
use crate::search::SearchKind;
use crate::shortcut::{shortcut_for_index, spec_shortcut};
use crate::text::{chars_of, decimal, decimal_chars, join2, join3};
use vstd::string::StringExecFns;

verus! {

/// The screen drawn in the body of the window: the one shown, or, under the
/// help, the one the help was opened from.
pub open spec fn spec_body_screen(screen: Screen, prev: Screen) -> Screen {
    if screen == Screen::Help {
        prev
    } else {
        screen
    }
}

/// The screen drawn in the body of the window.
pub fn body_screen(screen: Screen, prev: Screen) -> (r: Screen)
    ensures
        r == spec_body_screen(screen, prev),
{
    if screen == Screen::Help {
        prev
    } else {
        screen
    }
}

/// The prompt drawn over the screen.
#[derive(Debug, Clone, Copy, PartialEq, Eq, Structural)]
pub enum Overlay {
    /// The input prompt, in the middle of the window.
    Input,
    /// The confirmation prompt.
    Confirm,
    /// The delete mode's prompt.
    DeleteMode,
    /// No prompt (or the search prompt, which the search screen shows).
    Nothing,
}

impl AppView {
    /// The prompt drawn over the screen: the input prompt, except the search
    /// prompt, which the search screen draws; else the confirmation; else the
    /// delete mode's prompt.
    pub open spec fn overlay(self) -> Overlay {
        match self.input {
            Some(st) => if st.action == InputAction::Search {
                Overlay::Nothing
            } else {
                Overlay::Input
            },
            None => if self.confirm is Some {
                Overlay::Confirm
            } else if self.delete_mode is Some {
                Overlay::DeleteMode
            } else {
                Overlay::Nothing
            },
        }
    }
}

/// The prompt drawn over the screen.
pub fn overlay(app: &App) -> (r: Overlay)
    ensures
        r == app@.overlay(),
{
    match &app.input {
        Some(st) => if st.action == InputAction::Search {
            Overlay::Nothing
        } else {
            Overlay::Input
        },
        None => if app.confirm.is_some() {
            Overlay::Confirm
        } else if app.delete_mode.is_some() {
            Overlay::DeleteMode
        } else {
            Overlay::Nothing
        },
    }
}

/// The label of the item at `i`: its shortcut in brackets, or three spaces
/// for an item without one.
pub open spec fn spec_shortcut_label(i: int) -> Seq<char> {
    match spec_shortcut(i) {
        Some(s) => "["@ + s + "]"@,
        None => "   "@,
    }
}

/// The label of the item at `i`.
pub fn shortcut_label(i: usize) -> (r: String)
    ensures
        r@ == spec_shortcut_label(i as int),
{
    match shortcut_for_index(i) {
        Some(s) => {
            let cs = chars_of(s.as_str());
            join3("[", cs.as_slice(), "]")
        },
        None => String::from_str("   "),
    }
}

/// A count in parentheses after `lead`: `lead(n unit)`.
pub open spec fn spec_count_label(lead: Seq<char>, n: nat, unit: Seq<char>) -> Seq<char> {
    lead + "("@ + decimal(n) + " "@ + unit + ")"@
}

/// A count in parentheses: `lead(n unit)`, as ` (3 tasks)`.
pub fn count_label(lead: &str, n: usize, unit: &str) -> (r: String)
    ensures
        r@ == spec_count_label(lead@, n as nat, unit@),
{
    let head = join2(lead, chars_of("(").as_slice());
    let d = decimal_chars(n);
    let with_n = join2(head.as_str(), d.as_slice());
    let with_space = join2(with_n.as_str(), chars_of(" ").as_slice());
    let u = chars_of(unit);
    join3(with_space.as_str(), u.as_slice(), ")")
}

/// The check box of a task in the task list.
pub fn check_box(completed: bool) -> (r: &'static str)
    ensures
        r@ == (if completed {
            "[x]"@
        } else {
            "[ ]"@
        }),
{
    if completed {
        "[x]"
    } else {
        "[ ]"
    }
}

/// The marker before a note: an arrow for the note under the cursor.
pub fn note_marker(selected: bool) -> (r: &'static str)
    ensures
        r@ == (if selected {
            "▸ "@
        } else {
            "  "@
        }),
{
    if selected {
        "▸ "
    } else {
        "  "
    }
}

/// The row of a list of `len` rows that the cursor `idx` marks: the cursor,
/// or the last row for a cursor past the end; none for an empty list.
pub fn clamped_row(idx: usize, len: usize) -> (r: Option<usize>)
    ensures
        len == 0 ==> r is None,
        len > 0 ==> r == Some(if idx < len - 1 {
            idx
        } else {
            (len - 1) as usize
        }),
{
    if len == 0 {
        None
    } else if idx < len - 1 {
        Some(idx)
    } else {
        Some(len - 1)
    }
}

/// The row of a home list of `len` rows that the cursor `idx` marks: the
/// cursor, where it is within the list.
pub fn home_row(idx: usize, len: usize) -> (r: Option<usize>)
    ensures
        r == (if idx < len {
            Some(idx)
        } else {
            None::<usize>
        }),
{
    if idx < len {
        Some(idx)
    } else {
        None
    }
}

/// The hints at the bottom of each screen.
pub fn footer_hint(screen: Screen) -> (r: &'static str)
    ensures
        screen == Screen::Home ==> r@
            == "p new project · i new idea · tab switch focus · x delete · / search · ? help · Q quit"@,
        screen == Screen::Projects ==> r@
            == "tab cycle · p new project · t new task · n new note · space toggle · x delete · esc back"@,
        screen == Screen::Ideas ==> r@ == "tab cycle · i new idea · n new note · x delete · esc back"@,
        screen == Screen::Search ==> r@ == "type to search · ↓ ↑ / j k navigate · enter open · esc close"@,
        screen == Screen::Help ==> r@ == "press ? / enter / esc to close"@,
{
    match screen {
        Screen::Home => "p new project · i new idea · tab switch focus · x delete · / search · ? help · Q quit",
        Screen::Projects => "tab cycle · p new project · t new task · n new note · space toggle · x delete · esc back",
        Screen::Ideas => "tab cycle · i new idea · n new note · x delete · esc back",
        Screen::Search => "type to search · ↓ ↑ / j k navigate · enter open · esc close",
        Screen::Help => "press ? / enter / esc to close",
    }
}

/// The tag of a search result's kind, padded to one width.
pub fn kind_tag(kind: SearchKind) -> (r: &'static str)
    ensures
        kind == SearchKind::Project ==> r@ == "[Project]"@,
        kind == SearchKind::Task ==> r@ == "[Task   ]"@,
        kind == SearchKind::Idea ==> r@ == "[Idea   ]"@,
        kind == SearchKind::IdeaNote ==> r@ == "[Note   ]"@,
{
    match kind {
        SearchKind::Project => "[Project]",
        SearchKind::Task => "[Task   ]",
        SearchKind::Idea => "[Idea   ]",
        SearchKind::IdeaNote => "[Note   ]",
    }
}

/// What the search screen says when there are no results: how to search
/// before a query is typed, and that nothing matched after.
pub fn search_hint(query: &str) -> (r: &'static str)
    ensures
        query@.len() == 0 ==> r@ == "type to search across projects, tasks, ideas and notes"@,
        query@.len() > 0 ==> r@ == "no matches"@,
{
    if query.is_empty() {
        "type to search across projects, tasks, ideas and notes"
    } else {
        "no matches"
    }
}

} // verus!
