//! The application state: the items, the screen shown, the selections on
//! each screen, search, and the modal prompts, with the operations that move
//! between screens and selections.

use vstd::prelude::*;
use vstd::string::StringExecFns;
use crate::model::{
    Idea, IdeaView, Project, ProjectView, Task, TaskView, idea_views, project_views, task_views,
};
use crate::search::{
    SearchKind, SearchResult, SearchResultView, compute_search, law_results_point_into_lists,
    points_into, result_views, search, search_ok,
};
use crate::shortcut::{single_shortcut_index, spec_letter_index};

verus! {

/// The screens of the application.
#[derive(Debug, Clone, Copy, PartialEq, Eq, Structural)]
pub enum Screen {
    Home,
    Projects,
    Ideas,
    Search,
    Help,
}

/// The label of a screen's tab.
pub open spec fn screen_label(s: Screen) -> Seq<char> {
    match s {
        Screen::Home => "Home"@,
        Screen::Projects => "Projects"@,
        Screen::Ideas => "Ideas"@,
        Screen::Search => "Search"@,
        Screen::Help => "Help"@,
    }
}

/// The position of a screen's tab.
pub open spec fn screen_tab(s: Screen) -> usize {
    match s {
        Screen::Home => 0,
        Screen::Projects => 1,
        Screen::Ideas => 2,
        Screen::Search => 3,
        Screen::Help => 4,
    }
}

impl Screen {
    /// The label of the screen's tab.
    pub fn label(self) -> (r: &'static str)
        ensures
            r@ == screen_label(self),
    {
        match self {
            Screen::Home => "Home",
            Screen::Projects => "Projects",
            Screen::Ideas => "Ideas",
            Screen::Search => "Search",
            Screen::Help => "Help",
        }
    }

    /// The position of the screen's tab, from 0.
    pub fn tab_index(self) -> (r: usize)
        ensures
            r == screen_tab(self),
    {
        match self {
            Screen::Home => 0,
            Screen::Projects => 1,
            Screen::Ideas => 2,
            Screen::Search => 3,
            Screen::Help => 4,
        }
    }
}

/// Which column of the home screen has the focus.
#[derive(Debug, Clone, Copy, PartialEq, Eq, Structural)]
pub enum HomeFocus {
    Projects,
    Ideas,
}

/// Which column of the projects screen has the focus.
#[derive(Debug, Clone, Copy, PartialEq, Eq, Structural)]
pub enum ProjectsFocus {
    List,
    Tasks,
    Notes,
}

/// Which column of the ideas screen has the focus.
#[derive(Debug, Clone, Copy, PartialEq, Eq, Structural)]
pub enum IdeasFocus {
    List,
    Notes,
}

/// What the text typed into the input prompt is for.
#[derive(Debug, Clone, Copy, PartialEq, Eq, Structural)]
pub enum InputAction {
    NewProject,
    NewTask(u128),
    NewTaskNote(u128, u128),
    NewIdea,
    NewIdeaNote(u128),
    Search,
}

/// The input prompt: its label, the text typed so far, and its purpose.
#[derive(Debug, Clone)]
pub struct InputState {
    pub label: String,
    pub value: String,
    pub action: InputAction,
}

/// What a confirmation prompt asks to do.
#[derive(Debug, Clone, Copy, PartialEq, Eq, Structural)]
pub enum ConfirmAction {
    DeleteProject(u128),
    DeleteIdea(u128),
    DeleteTask(u128, u128),
    DeleteProjectNote(u128, u128, usize),
    DeleteIdeaNote(u128, usize),
}

/// A confirmation prompt: its question and what it confirms.
#[derive(Debug, Clone)]
pub struct ConfirmState {
    pub message: String,
    pub action: ConfirmAction,
}

/// The kind of item the delete mode deletes.
#[derive(Debug, Clone, Copy, PartialEq, Eq, Structural)]
pub enum DeleteTarget {
    Project,
    Idea,
}

/// The delete mode, in which the next shortcut letter picks an item to
/// delete.
#[derive(Debug, Clone, Copy, PartialEq, Eq, Structural)]
pub struct DeleteMode {
    pub target: DeleteTarget,
}

/// The state of the application.
pub struct App {
    pub projects: Vec<Project>,
    pub ideas: Vec<Idea>,
    pub screen: Screen,
    pub prev_screen: Screen,
    pub status: Option<String>,
    pub home_focus: HomeFocus,
    pub home_project_idx: usize,
    pub home_idea_idx: usize,
    pub projects_focus: ProjectsFocus,
    pub project_idx: usize,
    pub task_idx: usize,
    pub task_note_idx: usize,
    pub ideas_focus: IdeasFocus,
    pub idea_idx: usize,
    pub idea_note_idx: usize,
    pub search_query: String,
    pub search_results: Vec<SearchResult>,
    pub search_result_idx: usize,
    pub input: Option<InputState>,
    pub confirm: Option<ConfirmState>,
    pub delete_mode: Option<DeleteMode>,
    pub pending_shortcut: Option<char>,
    pub should_quit: bool,
}

/// An input prompt as the contracts see it.
pub struct InputView {
    pub label: Seq<char>,
    pub value: Seq<char>,
    pub action: InputAction,
}

/// A confirmation prompt as the contracts see it.
pub struct ConfirmView {
    pub message: Seq<char>,
    pub action: ConfirmAction,
}

/// The state of the application as the contracts see it: texts as
/// character sequences, lists as sequences of views.
pub struct AppView {
    pub projects: Seq<ProjectView>,
    pub ideas: Seq<IdeaView>,
    pub screen: Screen,
    pub prev_screen: Screen,
    pub status: Option<Seq<char>>,
    pub home_focus: HomeFocus,
    pub home_project_idx: usize,
    pub home_idea_idx: usize,
    pub projects_focus: ProjectsFocus,
    pub project_idx: usize,
    pub task_idx: usize,
    pub task_note_idx: usize,
    pub ideas_focus: IdeasFocus,
    pub idea_idx: usize,
    pub idea_note_idx: usize,
    pub search_query: Seq<char>,
    pub search_results: Seq<SearchResultView>,
    pub search_result_idx: usize,
    pub input: Option<InputView>,
    pub confirm: Option<ConfirmView>,
    pub delete_mode: Option<DeleteMode>,
    pub pending_shortcut: Option<char>,
    pub should_quit: bool,
}

impl View for InputState {
    type V = InputView;

    open spec fn view(&self) -> InputView {
        InputView { label: self.label@, value: self.value@, action: self.action }
    }
}

impl View for ConfirmState {
    type V = ConfirmView;

    open spec fn view(&self) -> ConfirmView {
        ConfirmView { message: self.message@, action: self.action }
    }
}

/// The text of an optional string.
pub open spec fn opt_text(o: Option<String>) -> Option<Seq<char>> {
    match o {
        Some(s) => Some(s@),
        None => None,
    }
}

/// The view of an optional input prompt.
pub open spec fn opt_input(o: Option<InputState>) -> Option<InputView> {
    match o {
        Some(s) => Some(s@),
        None => None,
    }
}

/// The view of an optional confirmation prompt.
pub open spec fn opt_confirm(o: Option<ConfirmState>) -> Option<ConfirmView> {
    match o {
        Some(s) => Some(s@),
        None => None,
    }
}

impl View for App {
    type V = AppView;

    open spec fn view(&self) -> AppView {
        AppView {
            projects: project_views(self.projects@),
            ideas: idea_views(self.ideas@),
            screen: self.screen,
            prev_screen: self.prev_screen,
            status: opt_text(self.status),
            home_focus: self.home_focus,
            home_project_idx: self.home_project_idx,
            home_idea_idx: self.home_idea_idx,
            projects_focus: self.projects_focus,
            project_idx: self.project_idx,
            task_idx: self.task_idx,
            task_note_idx: self.task_note_idx,
            ideas_focus: self.ideas_focus,
            idea_idx: self.idea_idx,
            idea_note_idx: self.idea_note_idx,
            search_query: self.search_query@,
            search_results: result_views(self.search_results@),
            search_result_idx: self.search_result_idx,
            input: opt_input(self.input),
            confirm: opt_confirm(self.confirm),
            delete_mode: self.delete_mode,
            pending_shortcut: self.pending_shortcut,
            should_quit: self.should_quit,
        }
    }
}

/// The first position in `s` of an element that satisfies `f`.
pub open spec fn first_where<T>(s: Seq<T>, f: spec_fn(T) -> bool) -> Option<int>
    decreases s.len(),
{
    if s.len() == 0 {
        None
    } else if f(s[0]) {
        Some(0)
    } else {
        match first_where(s.drop_first(), f) {
            Some(i) => Some(i + 1),
            None => None,
        }
    }
}

/// `first_where` gives `k` when `s[k]` is the first element satisfying `f`,
/// and nothing when no element does.
pub proof fn lemma_first_where<T>(s: Seq<T>, f: spec_fn(T) -> bool, k: int)
    requires
        0 <= k <= s.len(),
        forall|j: int| 0 <= j < k ==> !f(#[trigger] s[j]),
        k < s.len() ==> f(s[k]),
    ensures
        first_where(s, f) == (if k < s.len() {
            Some(k)
        } else {
            None::<int>
        }),
    decreases k,
{
    if k > 0 {
        assert forall|j: int| 0 <= j < k - 1 implies !f(#[trigger] s.drop_first()[j]) by {
            assert(s.drop_first()[j] == s[j + 1]);
        }
        if k < s.len() {
            assert(s.drop_first()[k - 1] == s[k]);
        }
        lemma_first_where(s.drop_first(), f, k - 1);
        assert(!f(s[0]));
    }
}

/// What `first_where` gives satisfies `f`, and no earlier element does.
pub proof fn lemma_first_where_found<T>(s: Seq<T>, f: spec_fn(T) -> bool)
    ensures
        first_where(s, f) matches Some(k) ==> 0 <= k < s.len() && f(s[k]) && forall|j: int|
            0 <= j < k ==> !f(#[trigger] s[j]),
        first_where(s, f) is None ==> forall|j: int| 0 <= j < s.len() ==> !f(#[trigger] s[j]),
    decreases s.len(),
{
    if s.len() > 0 && !f(s[0]) {
        lemma_first_where_found(s.drop_first(), f);
        assert forall|j: int| 0 <= j < s.len() && j > 0 implies s[j] == s.drop_first()[j - 1] by {}
        if first_where(s.drop_first(), f) is None {
            assert forall|j: int| 0 <= j < s.len() implies !f(#[trigger] s[j]) by {
                if j > 0 {
                    assert(s[j] == s.drop_first()[j - 1]);
                }
            }
        } else {
            let k = first_where(s.drop_first(), f)->0;
            assert forall|j: int| 0 <= j < k + 1 implies !f(#[trigger] s[j]) by {
                if j > 0 {
                    assert(s[j] == s.drop_first()[j - 1]);
                }
            }
        }
    }
}

/// The position of the project with this id.
pub open spec fn project_position(ps: Seq<ProjectView>, id: u128) -> Option<int> {
    first_where(ps, |p: ProjectView| p.id == id)
}

/// The position of the idea with this id.
pub open spec fn idea_position(is: Seq<IdeaView>, id: u128) -> Option<int> {
    first_where(is, |i: IdeaView| i.id == id)
}

/// The position of the task with this id.
pub open spec fn task_position(ts: Seq<TaskView>, id: u128) -> Option<int> {
    first_where(ts, |t: TaskView| t.id == id)
}

/// The position of the project whose id is `id` (`None` matches nothing).
pub open spec fn project_position_opt(ps: Seq<ProjectView>, id: Option<u128>) -> Option<int> {
    first_where(ps, |p: ProjectView| Some(p.id) == id)
}

/// The position of the idea whose id is `id` (`None` matches nothing).
pub open spec fn idea_position_opt(is: Seq<IdeaView>, id: Option<u128>) -> Option<int> {
    first_where(is, |i: IdeaView| Some(i.id) == id)
}

/// The position of the task whose id is `id` (`None` matches nothing).
pub open spec fn task_position_opt(ts: Seq<TaskView>, id: Option<u128>) -> Option<int> {
    first_where(ts, |t: TaskView| Some(t.id) == id)
}

/// `n - 1`, or 0 for 0.
pub open spec fn sat_dec(n: int) -> usize {
    if n > 0 {
        (n - 1) as usize
    } else {
        0
    }
}

/// The message for a shortcut that addresses no item.
pub open spec fn no_item_message() -> Seq<char> {
    "No item with that shortcut"@
}

impl AppView {
    /// Switches to `s`, remembering the screen left.
    pub open spec fn go(self, s: Screen) -> AppView {
        if self.screen != s {
            AppView { prev_screen: self.screen, screen: s, ..self }
        } else {
            self
        }
    }

    /// Sets the status line.
    pub open spec fn with_status(self, m: Seq<char>) -> AppView {
        AppView { status: Some(m), ..self }
    }

    /// The selected project.
    pub open spec fn current_project(self) -> Option<ProjectView> {
        if self.project_idx < self.projects.len() {
            Some(self.projects[self.project_idx as int])
        } else {
            None
        }
    }

    /// The selected task of the selected project.
    pub open spec fn current_task(self) -> Option<TaskView> {
        match self.current_project() {
            Some(p) => if self.task_idx < p.tasks.len() {
                Some(p.tasks[self.task_idx as int])
            } else {
                None
            },
            None => None,
        }
    }

    /// The selected idea.
    pub open spec fn current_idea(self) -> Option<IdeaView> {
        if self.idea_idx < self.ideas.len() {
            Some(self.ideas[self.idea_idx as int])
        } else {
            None
        }
    }

    /// Opens the search screen with an empty query, no results and the
    /// search prompt.
    pub open spec fn open_search(self) -> AppView {
        AppView {
            search_query: seq![],
            search_results: seq![],
            search_result_idx: 0,
            input: Some(InputView { label: "Search"@, value: seq![], action: InputAction::Search }),
            ..self.go(Screen::Search)
        }
    }

    /// Recomputes the search results for the query; the cursor returns to
    /// the first result when it is past the last.
    pub open spec fn refresh_search(self) -> AppView {
        let r = search(self.projects, self.ideas, self.search_query);
        AppView {
            search_results: r,
            search_result_idx: if self.search_result_idx >= r.len() {
                0
            } else {
                self.search_result_idx
            },
            ..self
        }
    }

    /// Opens the item of the result under the cursor, closing the prompt;
    /// tells whether it did.
    pub open spec fn open_search_result(self) -> (AppView, bool) {
        if self.search_result_idx >= self.search_results.len() {
            (self, false)
        } else {
            let r = self.search_results[self.search_result_idx as int];
            let a = AppView { input: None, ..self };
            match r.kind {
                SearchKind::Project => match project_position_opt(a.projects, r.project_id) {
                    Some(p) => (
                        AppView {
                            project_idx: p as usize,
                            task_idx: 0,
                            task_note_idx: 0,
                            projects_focus: ProjectsFocus::List,
                            ..a
                        }.go(Screen::Projects),
                        true,
                    ),
                    None => (a, false),
                },
                SearchKind::Task => match project_position_opt(a.projects, r.project_id) {
                    Some(p) => match task_position_opt(a.projects[p].tasks, r.task_id) {
                        Some(t) => (
                            AppView {
                                project_idx: p as usize,
                                task_idx: t as usize,
                                task_note_idx: 0,
                                projects_focus: ProjectsFocus::Notes,
                                ..a
                            }.go(Screen::Projects),
                            true,
                        ),
                        None => (a, false),
                    },
                    None => (a, false),
                },
                SearchKind::Idea => match idea_position_opt(a.ideas, r.idea_id) {
                    Some(i) => (
                        AppView {
                            idea_idx: i as usize,
                            idea_note_idx: 0,
                            ideas_focus: IdeasFocus::List,
                            ..a
                        }.go(Screen::Ideas),
                        true,
                    ),
                    None => (a, false),
                },
                SearchKind::IdeaNote => match idea_position_opt(a.ideas, r.idea_id) {
                    Some(i) => (
                        AppView {
                            idea_idx: i as usize,
                            idea_note_idx: match r.note_idx {
                                Some(n) => if n < a.ideas[i].notes.len() {
                                    n
                                } else {
                                    a.idea_note_idx
                                },
                                None => a.idea_note_idx,
                            },
                            ideas_focus: IdeasFocus::Notes,
                            ..a
                        }.go(Screen::Ideas),
                        true,
                    ),
                    None => (a, false),
                },
            }
        }
    }

    /// Brings every selection back into range: each index past the end of
    /// its list moves to the last element, and to 0 for an empty list (the
    /// idea and home selections stay where they are for an empty list).
    pub open spec fn clamp(self) -> AppView {
        let np = self.projects.len();
        let pi: usize = if np == 0 {
            0
        } else if self.project_idx >= np {
            (np - 1) as usize
        } else {
            self.project_idx
        };
        let tl = if np == 0 {
            0
        } else {
            self.projects[pi as int].tasks.len()
        };
        let ti: usize = if np == 0 {
            0
        } else if self.task_idx >= tl {
            sat_dec(tl as int)
        } else {
            self.task_idx
        };
        let nl = if np > 0 && ti < tl {
            self.projects[pi as int].tasks[ti as int].notes.len()
        } else {
            0
        };
        let tni: usize = if np == 0 {
            0
        } else if self.task_note_idx >= nl {
            sat_dec(nl as int)
        } else {
            self.task_note_idx
        };
        let ni = self.ideas.len();
        let ii: usize = if ni > 0 && self.idea_idx >= ni {
            (ni - 1) as usize
        } else {
            self.idea_idx
        };
        let inl = if ii < ni {
            self.ideas[ii as int].notes.len()
        } else {
            0
        };
        let ini: usize = if self.idea_note_idx >= inl {
            sat_dec(inl as int)
        } else {
            self.idea_note_idx
        };
        let hp: usize = if np > 0 && self.home_project_idx >= np {
            (np - 1) as usize
        } else {
            self.home_project_idx
        };
        let hi: usize = if ni > 0 && self.home_idea_idx >= ni {
            (ni - 1) as usize
        } else {
            self.home_idea_idx
        };
        AppView {
            project_idx: pi,
            task_idx: ti,
            task_note_idx: tni,
            idea_idx: ii,
            idea_note_idx: ini,
            home_project_idx: hp,
            home_idea_idx: hi,
            ..self
        }
    }

    /// Opens the item at `idx` of the home screen's numbering (projects,
    /// then ideas), or reports that no item has that shortcut.
    pub open spec fn open_shortcut_by_index(self, idx: int) -> AppView {
        if idx < self.projects.len() {
            AppView {
                project_idx: idx as usize,
                task_idx: 0,
                task_note_idx: 0,
                projects_focus: ProjectsFocus::List,
                ..self
            }.go(Screen::Projects)
        } else if idx < self.projects.len() + self.ideas.len() {
            AppView {
                idea_idx: (idx - self.projects.len()) as usize,
                idea_note_idx: 0,
                ideas_focus: IdeasFocus::List,
                ..self
            }.go(Screen::Ideas)
        } else {
            self.with_status(no_item_message())
        }
    }

    /// Opens the item whose one-letter shortcut is `c`.
    pub open spec fn open_shortcut_by_char(self, c: char) -> AppView {
        match spec_letter_index(c) {
            Some(k) => self.open_shortcut_by_index(k),
            None => self.with_status(no_item_message()),
        }
    }
}

/// The initial state of the application for the loaded items.
pub open spec fn initial(projects: Seq<ProjectView>, ideas: Seq<IdeaView>) -> AppView {
    AppView {
        projects,
        ideas,
        screen: Screen::Home,
        prev_screen: Screen::Home,
        status: None,
        home_focus: HomeFocus::Projects,
        home_project_idx: 0,
        home_idea_idx: 0,
        projects_focus: ProjectsFocus::List,
        project_idx: 0,
        task_idx: 0,
        task_note_idx: 0,
        ideas_focus: IdeasFocus::List,
        idea_idx: 0,
        idea_note_idx: 0,
        search_query: seq![],
        search_results: seq![],
        search_result_idx: 0,
        input: None,
        confirm: None,
        delete_mode: None,
        pending_shortcut: None,
        should_quit: false,
    }
}

impl App {
    /// The application on the home screen with the given items, nothing
    /// selected beyond the first item of each list.
    pub fn new(projects: Vec<Project>, ideas: Vec<Idea>) -> (app: App)
        ensures
            app@ == initial(project_views(projects@), idea_views(ideas@)),
    {
        let app = App {
            projects,
            ideas,
            screen: Screen::Home,
            prev_screen: Screen::Home,
            status: None,
            home_focus: HomeFocus::Projects,
            home_project_idx: 0,
            home_idea_idx: 0,
            projects_focus: ProjectsFocus::List,
            project_idx: 0,
            task_idx: 0,
            task_note_idx: 0,
            ideas_focus: IdeasFocus::List,
            idea_idx: 0,
            idea_note_idx: 0,
            search_query: String::new(),
            search_results: Vec::new(),
            search_result_idx: 0,
            input: None,
            confirm: None,
            delete_mode: None,
            pending_shortcut: None,
            should_quit: false,
        };
        assert(app@.search_results =~= Seq::<SearchResultView>::empty());
        app
    }

    /// Sets the status line.
    pub fn set_status(&mut self, msg: String)
        ensures
            final(self)@ == old(self)@.with_status(msg@),
    {
        self.status = Some(msg);
    }

    /// Clears the status line.
    pub fn clear_status(&mut self)
        ensures
            final(self)@ == (AppView { status: None, ..old(self)@ }),
    {
        self.status = None;
    }

    /// Switches to `screen`, remembering the screen left.
    pub fn go(&mut self, screen: Screen)
        ensures
            final(self)@ == old(self)@.go(screen),
    {
        if self.screen != screen {
            self.prev_screen = self.screen;
            self.screen = screen;
        }
    }

    /// Switches to the home screen.
    pub fn go_home(&mut self)
        ensures
            final(self)@ == old(self)@.go(Screen::Home),
    {
        self.go(Screen::Home);
    }

    /// The projects, in order.
    pub fn home_projects(&self) -> (r: &[Project])
        ensures
            r@ == self.projects@,
    {
        self.projects.as_slice()
    }

    /// The ideas, in order.
    pub fn home_ideas(&self) -> (r: &[Idea])
        ensures
            r@ == self.ideas@,
    {
        self.ideas.as_slice()
    }

    /// The selected project.
    pub fn current_project(&self) -> (r: Option<&Project>)
        ensures
            match self@.current_project() {
                Some(p) => r matches Some(q) && q@ == p,
                None => r is None,
            },
    {
        if self.project_idx < self.projects.len() {
            Some(&self.projects[self.project_idx])
        } else {
            None
        }
    }

    /// The selected project, to change in place.
    pub fn current_project_mut(&mut self) -> (r: Option<&mut Project>)
        ensures
            match r {
                Some(p) => {
                    &&& old(self).project_idx < old(self).projects@.len()
                    &&& *p == old(self).projects@[old(self).project_idx as int]
                    &&& final(self)@ == (AppView {
                        projects: old(self)@.projects.update(
                            old(self).project_idx as int,
                            (*final(p))@,
                        ),
                        ..old(self)@
                    })
                },
                None => old(self)@.current_project() is None && final(self)@ == old(self)@,
            },
    {
        if self.project_idx < self.projects.len() {
            let ghost ps0 = self.projects@;
            let r = &mut self.projects[self.project_idx];
            proof {
                crate::model::lemma_map_update(ps0, self.project_idx as int, *final(r), |p: Project| p@);
            }
            Some(r)
        } else {
            None
        }
    }

    /// The selected task of the selected project, to change in place.
    pub fn current_task_mut(&mut self) -> (r: Option<&mut Task>)
        ensures
            match r {
                Some(t) => {
                    &&& old(self)@.current_task() == Some((*t)@)
                    &&& final(self)@ == old(self)@.with_task(
                        old(self).project_idx as int,
                        old(self).task_idx as int,
                        (*final(t))@,
                    )
                },
                None => old(self)@.current_task() is None && final(self)@ == old(self)@,
            },
    {
        let pi = self.project_idx;
        let ti = self.task_idx;
        if pi < self.projects.len() && ti < self.projects[pi].tasks.len() {
            let ghost a0 = self@;
            let ghost ps0 = self.projects@;
            assert(a0.projects[pi as int] == ps0[pi as int]@);
            assert forall|q: Project| #[trigger] project_views(ps0.update(pi as int, q))
                == project_views(ps0).update(pi as int, q@) by {
                crate::model::lemma_map_update(ps0, pi as int, q, |p: Project| p@);
            }
            assert forall|u: Task| #[trigger] task_views(ps0[pi as int].tasks@.update(ti as int, u))
                == task_views(ps0[pi as int].tasks@).update(ti as int, u@) by {
                crate::model::lemma_map_update(ps0[pi as int].tasks@, ti as int, u, |t: Task| t@);
            }
            let r = &mut self.projects[pi].tasks[ti];
            Some(r)
        } else {
            assert(pi < self.projects@.len() ==> self@.projects[pi as int] == self.projects@[pi as int]@);
            None
        }
    }

    /// The selected task of the selected project.
    pub fn current_task(&self) -> (r: Option<&Task>)
        ensures
            match self@.current_task() {
                Some(t) => r matches Some(q) && q@ == t,
                None => r is None,
            },
    {
        match self.current_project() {
            Some(p) => if self.task_idx < p.tasks.len() {
                Some(&p.tasks[self.task_idx])
            } else {
                None
            },
            None => None,
        }
    }

    /// The selected idea.
    pub fn current_idea(&self) -> (r: Option<&Idea>)
        ensures
            match self@.current_idea() {
                Some(i) => r matches Some(q) && q@ == i,
                None => r is None,
            },
    {
        if self.idea_idx < self.ideas.len() {
            Some(&self.ideas[self.idea_idx])
        } else {
            None
        }
    }

    /// The selected idea, to change in place.
    pub fn current_idea_mut(&mut self) -> (r: Option<&mut Idea>)
        ensures
            match r {
                Some(i) => {
                    &&& old(self).idea_idx < old(self).ideas@.len()
                    &&& *i == old(self).ideas@[old(self).idea_idx as int]
                    &&& final(self)@ == (AppView {
                        ideas: old(self)@.ideas.update(old(self).idea_idx as int, (*final(i))@),
                        ..old(self)@
                    })
                },
                None => old(self)@.current_idea() is None && final(self)@ == old(self)@,
            },
    {
        if self.idea_idx < self.ideas.len() {
            let ghost is0 = self.ideas@;
            let r = &mut self.ideas[self.idea_idx];
            proof {
                crate::model::lemma_map_update(is0, self.idea_idx as int, *final(r), |i: Idea| i@);
            }
            Some(r)
        } else {
            None
        }
    }

    /// Opens the search screen with an empty query, no results and the
    /// search prompt.
    pub fn open_search(&mut self)
        ensures
            final(self)@ == old(self)@.open_search(),
    {
        self.go(Screen::Search);
        self.search_query = String::new();
        self.search_results = Vec::new();
        self.search_result_idx = 0;
        self.input = Some(
            InputState {
                label: String::from_str("Search"),
                value: String::new(),
                action: InputAction::Search,
            },
        );
        assert(self@.search_results =~= Seq::<SearchResultView>::empty());
    }

    /// Recomputes the search results for the query; the cursor returns to
    /// the first result when it is past the last. The snippets of the
    /// results must be cuttable (see `search_ok`).
    pub fn refresh_search(&mut self)
        requires
            search_ok(old(self)@.projects, old(self)@.ideas, old(self)@.search_query),
        ensures
            final(self)@ == old(self)@.refresh_search(),
    {
        self.search_results = compute_search(
            self.projects.as_slice(),
            self.ideas.as_slice(),
            self.search_query.as_str(),
        );
        if self.search_result_idx >= self.search_results.len() {
            self.search_result_idx = 0;
        }
    }

    /// The position of the project with this id.
    pub fn project_by_id(&self, id: u128) -> (r: Option<usize>)
        ensures
            match r {
                Some(i) => project_position(self@.projects, id) == Some(i as int) && i < self@.projects.len(),
                None => project_position(self@.projects, id) is None,
            },
    {
        let ghost f = |p: ProjectView| p.id == id;
        let mut k: usize = 0;
        while k < self.projects.len()
            invariant
                f == (|p: ProjectView| p.id == id),
                k <= self.projects@.len(),
                forall|j: int| 0 <= j < k ==> !f(#[trigger] self@.projects[j]),
            decreases self.projects@.len() - k,
        {
            if self.projects[k].id == id {
                proof {
                    assert(self@.projects[k as int] == self.projects@[k as int]@);
                    assert(f(self@.projects[k as int]));
                    lemma_first_where(self@.projects, f, k as int);
                }
                return Some(k);
            }
            k = k + 1;
        }
        proof {
            lemma_first_where(self@.projects, f, k as int);
        }
        None
    }

    /// The position of the idea with this id.
    pub fn idea_by_id(&self, id: u128) -> (r: Option<usize>)
        ensures
            match r {
                Some(i) => idea_position(self@.ideas, id) == Some(i as int) && i < self@.ideas.len(),
                None => idea_position(self@.ideas, id) is None,
            },
    {
        let ghost f = |i: IdeaView| i.id == id;
        let mut k: usize = 0;
        while k < self.ideas.len()
            invariant
                f == (|i: IdeaView| i.id == id),
                k <= self.ideas@.len(),
                forall|j: int| 0 <= j < k ==> !f(#[trigger] self@.ideas[j]),
            decreases self.ideas@.len() - k,
        {
            if self.ideas[k].id == id {
                proof {
                    assert(self@.ideas[k as int] == self.ideas@[k as int]@);
                    assert(f(self@.ideas[k as int]));
                    lemma_first_where(self@.ideas, f, k as int);
                }
                return Some(k);
            }
            k = k + 1;
        }
        proof {
            lemma_first_where(self@.ideas, f, k as int);
        }
        None
    }

    /// The position of the task with this id in the project at
    /// `project_idx`, if there is such a project.
    pub fn task_by_id(&self, project_idx: usize, id: u128) -> (r: Option<usize>)
        ensures
            project_idx < self@.projects.len() ==> match r {
                Some(i) => task_position(self@.projects[project_idx as int].tasks, id) == Some(
                    i as int,
                ) && i < self@.projects[project_idx as int].tasks.len(),
                None => task_position(self@.projects[project_idx as int].tasks, id) is None,
            },
            project_idx >= self@.projects.len() ==> r is None,
    {
        if project_idx >= self.projects.len() {
            return None;
        }
        let p = &self.projects[project_idx];
        let ghost ts = self@.projects[project_idx as int].tasks;
        assert(self@.projects[project_idx as int] == self.projects@[project_idx as int]@);
        let ghost f = |t: TaskView| t.id == id;
        let mut k: usize = 0;
        while k < p.tasks.len()
            invariant
                f == (|t: TaskView| t.id == id),
                ts == p@.tasks,
                project_idx < self@.projects.len(),
                ts == self@.projects[project_idx as int].tasks,
                k <= p.tasks@.len(),
                forall|j: int| 0 <= j < k ==> !f(#[trigger] ts[j]),
            decreases p.tasks@.len() - k,
        {
            if p.tasks[k].id == id {
                proof {
                    assert(ts[k as int] == p.tasks@[k as int]@);
                    assert(f(ts[k as int]));
                    lemma_first_where(ts, f, k as int);
                }
                return Some(k);
            }
            k = k + 1;
        }
        proof {
            lemma_first_where(ts, f, k as int);
        }
        None
    }

    /// Brings every selection back into range (see `AppView::clamp`).
    #[verifier::rlimit(60)]
    pub fn clamp_indices(&mut self)
        ensures
            final(self)@ == old(self)@.clamp(),
    {
        let ghost a = self@;
        if self.projects.len() == 0 {
            self.project_idx = 0;
            self.task_idx = 0;
            self.task_note_idx = 0;
        } else {
            if self.project_idx >= self.projects.len() {
                self.project_idx = self.projects.len() - 1;
            }
            let task_len = self.projects[self.project_idx].tasks.len();
            if self.task_idx >= task_len {
                self.task_idx = if task_len > 0 {
                    task_len - 1
                } else {
                    0
                };
            }
            let note_len = if self.task_idx < task_len {
                self.projects[self.project_idx].tasks[self.task_idx].notes.len()
            } else {
                0
            };
            if self.task_note_idx >= note_len {
                self.task_note_idx = if note_len > 0 {
                    note_len - 1
                } else {
                    0
                };
            }
        }
        if self.ideas.len() > 0 && self.idea_idx >= self.ideas.len() {
            self.idea_idx = self.ideas.len() - 1;
        }
        let idea_note_len = if self.idea_idx < self.ideas.len() {
            self.ideas[self.idea_idx].notes.len()
        } else {
            0
        };
        if self.idea_note_idx >= idea_note_len {
            self.idea_note_idx = if idea_note_len > 0 {
                idea_note_len - 1
            } else {
                0
            };
        }
        if self.projects.len() > 0 && self.home_project_idx >= self.projects.len() {
            self.home_project_idx = self.projects.len() - 1;
        }
        if self.ideas.len() > 0 && self.home_idea_idx >= self.ideas.len() {
            self.home_idea_idx = self.ideas.len() - 1;
        }
    }

    /// Opens the item of the search result under the cursor, closing the
    /// prompt; tells whether it did.
    pub fn open_search_result(&mut self) -> (opened: bool)
        ensures
            (final(self)@, opened) == old(self)@.open_search_result(),
    {
        if self.search_result_idx >= self.search_results.len() {
            return false;
        }
        let kind = self.search_results[self.search_result_idx].kind;
        let project_id = self.search_results[self.search_result_idx].project_id;
        let idea_id = self.search_results[self.search_result_idx].idea_id;
        let task_id = self.search_results[self.search_result_idx].task_id;
        let note_idx = self.search_results[self.search_result_idx].note_idx;
        let ghost a0 = self@;
        proof {
            assert(a0.search_results[self.search_result_idx as int]
                == self.search_results@[self.search_result_idx as int]@);
        }
        self.input = None;
        assert(self@ == AppView { input: None, ..a0 });
        match kind {
            SearchKind::Project => match position_of_project(&self.projects, project_id) {
                Some(p_idx) => {
                    self.project_idx = p_idx;
                    self.task_idx = 0;
                    self.task_note_idx = 0;
                    self.projects_focus = ProjectsFocus::List;
                    self.go(Screen::Projects);
                    true
                },
                None => false,
            },
            SearchKind::Task => match position_of_project(&self.projects, project_id) {
                Some(p_idx) => match position_of_task(&self.projects[p_idx].tasks, task_id) {
                    Some(t_idx) => {
                        assert(self@.projects[p_idx as int] == self.projects@[p_idx as int]@);
                        self.project_idx = p_idx;
                        self.task_idx = t_idx;
                        self.task_note_idx = 0;
                        self.projects_focus = ProjectsFocus::Notes;
                        self.go(Screen::Projects);
                        true
                    },
                    None => {
                        assert(self@.projects[p_idx as int] == self.projects@[p_idx as int]@);
                        false
                    },
                },
                None => false,
            },
            SearchKind::Idea => match position_of_idea(&self.ideas, idea_id) {
                Some(i_idx) => {
                    self.idea_idx = i_idx;
                    self.idea_note_idx = 0;
                    self.ideas_focus = IdeasFocus::List;
                    self.go(Screen::Ideas);
                    true
                },
                None => false,
            },
            SearchKind::IdeaNote => match position_of_idea(&self.ideas, idea_id) {
                Some(i_idx) => {
                    assert(self@.ideas[i_idx as int] == self.ideas@[i_idx as int]@);
                    self.idea_idx = i_idx;
                    match note_idx {
                        Some(n) => {
                            if n < self.ideas[i_idx].notes.len() {
                                self.idea_note_idx = n;
                            }
                        },
                        None => {},
                    }
                    self.ideas_focus = IdeasFocus::Notes;
                    self.go(Screen::Ideas);
                    true
                },
                None => false,
            },
        }
    }
}

/// The position of the project whose id is `id`.
fn position_of_project(ps: &Vec<Project>, id: Option<u128>) -> (r: Option<usize>)
    ensures
        match r {
            Some(i) => project_position_opt(project_views(ps@), id) == Some(i as int),
            None => project_position_opt(project_views(ps@), id) is None,
        },
        r matches Some(k) ==> k < ps@.len(),
{
    let ghost s = project_views(ps@);
    let ghost f = |p: ProjectView| Some(p.id) == id;
    let mut k: usize = 0;
    while k < ps.len()
        invariant
            f == (|p: ProjectView| Some(p.id) == id),
            s == project_views(ps@),
            k <= ps@.len(),
            forall|j: int| 0 <= j < k ==> !f(#[trigger] s[j]),
        decreases ps@.len() - k,
    {
        let hit = match id {
            Some(x) => ps[k].id == x,
            None => false,
        };
        if hit {
            proof {
                assert(s[k as int] == ps@[k as int]@);
                assert(f(s[k as int]));
                lemma_first_where(s, f, k as int);
            }
            return Some(k);
        }
        k = k + 1;
    }
    proof {
        lemma_first_where(s, f, k as int);
    }
    None
}

/// The position of the idea whose id is `id`.
fn position_of_idea(is: &Vec<Idea>, id: Option<u128>) -> (r: Option<usize>)
    ensures
        match r {
            Some(i) => idea_position_opt(idea_views(is@), id) == Some(i as int),
            None => idea_position_opt(idea_views(is@), id) is None,
        },
        r matches Some(k) ==> k < is@.len(),
{
    let ghost s = idea_views(is@);
    let ghost f = |i: IdeaView| Some(i.id) == id;
    let mut k: usize = 0;
    while k < is.len()
        invariant
            f == (|i: IdeaView| Some(i.id) == id),
            s == idea_views(is@),
            k <= is@.len(),
            forall|j: int| 0 <= j < k ==> !f(#[trigger] s[j]),
        decreases is@.len() - k,
    {
        let hit = match id {
            Some(x) => is[k].id == x,
            None => false,
        };
        if hit {
            proof {
                assert(s[k as int] == is@[k as int]@);
                assert(f(s[k as int]));
                lemma_first_where(s, f, k as int);
            }
            return Some(k);
        }
        k = k + 1;
    }
    proof {
        lemma_first_where(s, f, k as int);
    }
    None
}

/// The position of the task whose id is `id`.
fn position_of_task(ts: &Vec<Task>, id: Option<u128>) -> (r: Option<usize>)
    ensures
        match r {
            Some(i) => task_position_opt(crate::model::task_views(ts@), id) == Some(i as int),
            None => task_position_opt(crate::model::task_views(ts@), id) is None,
        },
        r matches Some(k) ==> k < ts@.len(),
{
    let ghost s = crate::model::task_views(ts@);
    let ghost f = |t: TaskView| Some(t.id) == id;
    let mut k: usize = 0;
    while k < ts.len()
        invariant
            f == (|t: TaskView| Some(t.id) == id),
            s == crate::model::task_views(ts@),
            k <= ts@.len(),
            forall|j: int| 0 <= j < k ==> !f(#[trigger] s[j]),
        decreases ts@.len() - k,
    {
        let hit = match id {
            Some(x) => ts[k].id == x,
            None => false,
        };
        if hit {
            proof {
                assert(s[k as int] == ts@[k as int]@);
                assert(f(s[k as int]));
                lemma_first_where(s, f, k as int);
            }
            return Some(k);
        }
        k = k + 1;
    }
    proof {
        lemma_first_where(s, f, k as int);
    }
    None
}

/// Opens the item at `idx` of the home screen's numbering (projects, then
/// ideas), or reports that no item has that shortcut.
pub fn open_shortcut_by_index(app: &mut App, idx: usize)
    requires
        old(app).projects@.len() + old(app).ideas@.len() <= usize::MAX,
    ensures
        final(app)@ == old(app)@.open_shortcut_by_index(idx as int),
{
    if idx < app.projects.len() {
        app.project_idx = idx;
        app.task_idx = 0;
        app.task_note_idx = 0;
        app.projects_focus = ProjectsFocus::List;
        app.go(Screen::Projects);
    } else if idx < app.projects.len() + app.ideas.len() {
        let i_idx = idx - app.projects.len();
        app.idea_idx = i_idx;
        app.idea_note_idx = 0;
        app.ideas_focus = IdeasFocus::List;
        app.go(Screen::Ideas);
    } else {
        app.set_status(String::from_str("No item with that shortcut"));
    }
}

/// Opens the item whose one-letter shortcut is `c`, or reports that no item
/// has that shortcut.
pub fn open_shortcut_by_char(app: &mut App, c: char)
    requires
        old(app).projects@.len() + old(app).ideas@.len() <= usize::MAX,
    ensures
        final(app)@ == old(app)@.open_shortcut_by_char(c),
{
    match single_shortcut_index(c) {
        Some(idx) => open_shortcut_by_index(app, idx),
        None => app.set_status(String::from_str("No item with that shortcut")),
    }
}

/// Opening the result under the cursor of a search just made succeeds,
/// where no two projects share an id.
pub proof fn law_open_search_result(a: AppView, query: Seq<char>)
    requires
        a.search_results == search(a.projects, a.ideas, query),
        a.search_result_idx < a.search_results.len(),
        forall|i: int, j: int|
            0 <= i < j < a.projects.len() ==> #[trigger] a.projects[i].id != #[trigger] a.projects[j].id,
    ensures
        a.open_search_result().1,
{
    law_results_point_into_lists(a.projects, a.ideas, query);
    let r = a.search_results[a.search_result_idx as int];
    assert(points_into(r, a.projects, a.ideas));
    let ps = a.projects;
    let is = a.ideas;
    let fp = |p: ProjectView| Some(p.id) == r.project_id;
    let fi = |i: IdeaView| Some(i.id) == r.idea_id;
    lemma_first_where_found(ps, fp);
    lemma_first_where_found(is, fi);
    match r.kind {
        SearchKind::Project => {
            let i = choose|i: int| 0 <= i < ps.len() && r.project_id == Some(#[trigger] ps[i].id);
            assert(fp(ps[i]));
        },
        SearchKind::Task => {
            let (i, j) = choose|i: int, j: int|
                0 <= i < ps.len() && 0 <= j < ps[i].tasks.len() && r.project_id == Some(
                    #[trigger] ps[i].id,
                ) && r.task_id == Some(#[trigger] ps[i].tasks[j].id);
            assert(fp(ps[i]));
            let p = project_position_opt(ps, r.project_id)->0;
            assert(p == i) by {
                if p < i {
                    assert(ps[p].id != ps[i].id);
                } else if i < p {
                    assert(ps[i].id != ps[p].id);
                }
            }
            let ft = |t: TaskView| Some(t.id) == r.task_id;
            lemma_first_where_found(ps[i].tasks, ft);
            assert(ft(ps[i].tasks[j]));
        },
        SearchKind::Idea => {
            let i = choose|i: int| 0 <= i < is.len() && r.idea_id == Some(#[trigger] is[i].id);
            assert(fi(is[i]));
        },
        SearchKind::IdeaNote => {
            let i = choose|i: int|
                0 <= i < is.len() && r.idea_id == Some(#[trigger] is[i].id) && (r.note_idx matches Some(
                    n,
                ) && n < is[i].notes.len());
            assert(fi(is[i]));
        },
    }
}

} // verus!
