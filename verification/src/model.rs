//! Projects with their tasks, and ideas with their notes. Items are identified
//! by 128-bit UUIDs, held as `u128` (the value of `uuid::Uuid::as_u128`).

use vstd::prelude::*;
use crate::text::ascii_lower;

verus! {

/// The hex digit for the nibble `n`, lower case.
pub open spec fn hex_digit(n: int) -> char {
    if n < 10 {
        (48 + n) as char
    } else {
        (87 + n) as char
    }
}

/// The `k`-th of the 32 nibbles of `id`, most significant first.
pub open spec fn nibble(id: u128, k: int) -> int {
    ((id >> ((4 * (31 - k)) as u128)) & 0xf) as int
}

/// Position among the 32 nibbles of the character at `i` of the hyphenated
/// form.
pub open spec fn nibble_of_position(i: int) -> int {
    if i < 8 {
        i
    } else if i < 13 {
        i - 1
    } else if i < 18 {
        i - 2
    } else if i < 23 {
        i - 3
    } else {
        i - 4
    }
}

/// Whether position `i` of the hyphenated form holds a hyphen.
pub open spec fn is_hyphen_position(i: int) -> bool {
    i == 8 || i == 13 || i == 18 || i == 23
}

/// The hyphenated lower-case form of the UUID `id`:
/// `xxxxxxxx-xxxx-xxxx-xxxx-xxxxxxxxxxxx`.
pub open spec fn uuid_hyphenated(id: u128) -> Seq<char> {
    Seq::new(
        36,
        |i: int|
            if is_hyphen_position(i) {
                '-'
            } else {
                hex_digit(nibble(id, nibble_of_position(i)))
            },
    )
}

/// The value of the hex digit `c`, in either case, if it is one.
pub open spec fn hex_value(c: char) -> Option<int> {
    if '0' <= c && c <= '9' {
        Some(c as int - 48)
    } else if 'a' <= c && c <= 'f' {
        Some(c as int - 87)
    } else if 'A' <= c && c <= 'F' {
        Some(c as int - 55)
    } else {
        None
    }
}

/// The number that the hex digits `s` write, most significant first, if
/// every character of `s` is a hex digit.
pub open spec fn hex_number(s: Seq<char>) -> Option<int>
    decreases s.len(),
{
    if s.len() == 0 {
        Some(0)
    } else {
        match (hex_number(s.drop_last()), hex_value(s.last())) {
            (Some(h), Some(d)) => Some(h * 16 + d),
            _ => None,
        }
    }
}

/// The 32 digits of a hyphenated form `xxxxxxxx-xxxx-xxxx-xxxx-xxxxxxxxxxxx`:
/// `s` without its hyphens at 8, 13, 18 and 23, where it has them all.
pub open spec fn hyphenated_digits(s: Seq<char>) -> Option<Seq<char>> {
    if s.len() == 36 && s[8] == '-' && s[13] == '-' && s[18] == '-' && s[23] == '-' {
        Some(s.take(8) + s.subrange(9, 13) + s.subrange(14, 18) + s.subrange(19, 23) + s.skip(24))
    } else {
        None
    }
}

/// The prefix `urn:uuid:` of the URN form.
pub open spec fn urn_prefix() -> Seq<char> {
    seq!['u', 'r', 'n', ':', 'u', 'u', 'i', 'd', ':']
}

/// The digits of the forms that `uuid::Uuid::parse_str` accepts, chosen by
/// length as it chooses: 32 digits (simple), the hyphenated form, the
/// hyphenated form in braces, and the hyphenated form after `urn:uuid:` in
/// any case (URN).
pub open spec fn uuid_digits(s: Seq<char>) -> Option<Seq<char>> {
    if s.len() == 32 {
        Some(s)
    } else if s.len() == 36 {
        hyphenated_digits(s)
    } else if s.len() == 38 && s[0] == '{' && s[37] == '}' {
        hyphenated_digits(s.subrange(1, 37))
    } else if s.len() == 45 && ascii_lower(s.take(9)) == urn_prefix() {
        hyphenated_digits(s.skip(9))
    } else {
        None
    }
}

/// What `uuid::Uuid::parse_str` makes of `s`: the UUID whose 32 hex digits
/// the accepted form holds, most significant first, or nothing. The parser
/// counts bytes; every accepted form is ASCII, where bytes and characters
/// are one, and a text with any other character is refused either way.
pub open spec fn uuid_parse(s: Seq<char>) -> Option<u128> {
    match uuid_digits(s) {
        Some(d) => match hex_number(d) {
            Some(v) => Some(v as u128),
            None => None,
        },
        None => None,
    }
}

/// The 32 hex digits of `id`, most significant first, lower case.
pub open spec fn id_digits(id: u128) -> Seq<char> {
    Seq::new(32, |k: int| hex_digit(nibble(id, k)))
}

/// A lower-case hex digit reads back as its nibble.
proof fn lemma_hex_digit_value(n: int)
    requires
        0 <= n < 16,
    ensures
        hex_value(hex_digit(n)) == Some(n),
{
}

/// The first `k` digits of `id` read as the top `4 * k` bits of `id`.
proof fn lemma_digits_prefix(id: u128, k: int)
    requires
        0 <= k <= 32,
    ensures
        hex_number(id_digits(id).take(k)) == Some(
            if k == 0 {
                0
            } else {
                (id >> ((4 * (32 - k)) as u128)) as int
            },
        ),
    decreases k,
{
    let d = id_digits(id);
    if k == 0 {
        assert(d.take(0) =~= Seq::<char>::empty());
    } else {
        lemma_digits_prefix(id, k - 1);
        let t = d.take(k);
        assert(t.drop_last() =~= d.take(k - 1));
        let sh: u128 = (4 * (32 - k)) as u128;
        assert(((id >> sh) & 0xf) < 16) by (bit_vector);
        assert(nibble(id, k - 1) == ((id >> sh) & 0xf) as int);
        lemma_hex_digit_value(nibble(id, k - 1));
        if k == 1 {
            assert((id >> 124u128) == ((id >> 124u128) & 0xf)) by (bit_vector);
        } else {
            assert((id >> sh) == (id >> ((sh + 4) as u128)) * 16 + ((id >> sh) & 0xf))
                by (bit_vector)
                requires
                    sh <= 120,
            ;
            assert((sh + 4) as u128 == (4 * (32 - (k - 1))) as u128);
        }
    }
}

/// A UUID written in the hyphenated form (`id_text`) reads back as itself
/// (`parse_id`).
pub proof fn law_id_text_round_trip(id: u128)
    ensures
        uuid_parse(uuid_hyphenated(id)) == Some(id),
{
    let h = uuid_hyphenated(id);
    let d = id_digits(id);
    assert(h.len() == 36);
    assert(h[8] == '-' && h[13] == '-' && h[18] == '-' && h[23] == '-');
    let joined = h.take(8) + h.subrange(9, 13) + h.subrange(14, 18) + h.subrange(19, 23) + h.skip(
        24,
    );
    assert(joined =~= d);
    assert(uuid_digits(h) == Some(d));
    lemma_digits_prefix(id, 32);
    assert(d.take(32) =~= d);
    assert((id >> 0u128) == id) by (bit_vector);
}

/// Whether `id` carries the version (4) and variant (RFC 4122) bits of a
/// random UUID.
pub open spec fn is_v4(id: u128) -> bool {
    (id >> 76u128) & 0xf == 4 && (id >> 62u128) & 0x3 == 2
}

/// Calls `uuid::Uuid::new_v4`: a random UUID, of which the contract states
/// only the version (4) and variant (RFC 4122) bits that the source sets.
#[verifier::external_body]
pub(crate) fn new_id() -> (id: u128)
    ensures
        is_v4(id),
{
    uuid::Uuid::new_v4().as_u128()
}

/// Calls `uuid::Uuid::parse_str` and takes the value of the UUID it parses
/// (`as_u128`, the bytes in order, so the first digit is the most
/// significant): of the accepted forms, `uuid_parse` gives the value.
#[verifier::external_body]
pub(crate) fn parse_id(s: &str) -> (r: Option<u128>)
    ensures
        r == uuid_parse(s@),
{
    match uuid::Uuid::parse_str(s) {
        Ok(u) => Some(u.as_u128()),
        Err(_) => None,
    }
}

/// Formats the UUID `id` with `Display` (`Uuid::from_u128(id).to_string()`),
/// which writes the hyphenated lower-case form.
#[verifier::external_body]
pub(crate) fn id_text(id: u128) -> (r: String)
    ensures
        r@ == uuid_hyphenated(id),
{
    uuid::Uuid::from_u128(id).to_string()
}

/// What every instant written by `now_text` looks like, whatever the clock
/// reads: at least a date and a time to the second (`YYYY-MM-DDTHH:MM:SS`,
/// twenty characters with the mark) and the closing `Z` of UTC.
pub open spec fn is_utc_stamp(s: Seq<char>) -> bool {
    s.len() >= 20 && s[s.len() - 1] == 'Z'
}

/// Calls `chrono::Utc::now` and writes the instant in RFC 3339 form (UTC,
/// `Z`, as many fraction digits as the instant needs). The instant depends
/// on the clock; what is stated holds of every one: chrono writes the date,
/// a `T`, the time to the second and, with `use_z` and a zero offset, a
/// closing `Z`. Which date and time it is stays unsaid.
#[verifier::external_body]
pub(crate) fn now_text() -> (r: String)
    ensures
        is_utc_stamp(r@),
{
    chrono::Utc::now().to_rfc3339_opts(chrono::SecondsFormat::AutoSi, true)
}

/// A task of a project: a title, a completion mark and notes.
#[derive(Debug, Clone)]
pub struct Task {
    pub id: u128,
    pub title: String,
    pub completed: bool,
    pub notes: Vec<String>,
}

/// A project: a title, the instant it was created (RFC 3339 text) and its
/// tasks in order.
#[derive(Debug, Clone)]
pub struct Project {
    pub id: u128,
    pub title: String,
    pub created: String,
    pub tasks: Vec<Task>,
}

/// An idea: a title, the instant it was created (RFC 3339 text) and notes.
#[derive(Debug, Clone)]
pub struct Idea {
    pub id: u128,
    pub title: String,
    pub created: String,
    pub notes: Vec<String>,
}

/// The two kinds of top-level items.
#[derive(Debug, Clone, Copy, PartialEq, Eq, Structural)]
pub enum ItemKind {
    Project,
    Idea,
}

/// A task as the contracts see it.
pub struct TaskView {
    pub id: u128,
    pub title: Seq<char>,
    pub completed: bool,
    pub notes: Seq<Seq<char>>,
}

/// A project as the contracts see it.
pub struct ProjectView {
    pub id: u128,
    pub title: Seq<char>,
    pub created: Seq<char>,
    pub tasks: Seq<TaskView>,
}

/// An idea as the contracts see it.
pub struct IdeaView {
    pub id: u128,
    pub title: Seq<char>,
    pub created: Seq<char>,
    pub notes: Seq<Seq<char>>,
}

/// The texts of a list of strings.
pub open spec fn texts(v: Seq<String>) -> Seq<Seq<char>> {
    v.map_values(|s: String| s@)
}

impl View for Task {
    type V = TaskView;

    open spec fn view(&self) -> TaskView {
        TaskView {
            id: self.id,
            title: self.title@,
            completed: self.completed,
            notes: texts(self.notes@),
        }
    }
}

/// The views of a list of tasks.
pub open spec fn task_views(v: Seq<Task>) -> Seq<TaskView> {
    v.map_values(|t: Task| t@)
}

impl View for Project {
    type V = ProjectView;

    open spec fn view(&self) -> ProjectView {
        ProjectView {
            id: self.id,
            title: self.title@,
            created: self.created@,
            tasks: task_views(self.tasks@),
        }
    }
}

impl View for Idea {
    type V = IdeaView;

    open spec fn view(&self) -> IdeaView {
        IdeaView { id: self.id, title: self.title@, created: self.created@, notes: texts(self.notes@) }
    }
}

/// The views of a list of projects.
pub open spec fn project_views(v: Seq<Project>) -> Seq<ProjectView> {
    v.map_values(|p: Project| p@)
}

/// The views of a list of ideas.
pub open spec fn idea_views(v: Seq<Idea>) -> Seq<IdeaView> {
    v.map_values(|i: Idea| i@)
}

impl Project {
    /// A new project with the given title and no tasks, a fresh random id and
    /// the current instant as its creation time.
    pub fn new(title: String) -> (p: Project)
        ensures
            p.title@ == title@,
            p.tasks@.len() == 0,
            is_v4(p.id),
            is_utc_stamp(p.created@),
    {
        Project { id: new_id(), title, created: now_text(), tasks: Vec::new() }
    }
}

impl Idea {
    /// A new idea with the given title and no notes, a fresh random id and the
    /// current instant as its creation time.
    pub fn new(title: String) -> (i: Idea)
        ensures
            i.title@ == title@,
            i.notes@.len() == 0,
            is_v4(i.id),
            is_utc_stamp(i.created@),
    {
        Idea { id: new_id(), title, created: now_text(), notes: Vec::new() }
    }
}

impl Task {
    /// A new task with the given title, not completed, without notes, and
    /// with a fresh random id.
    pub fn new(title: String) -> (t: Task)
        ensures
            t.title@ == title@,
            !t.completed,
            t.notes@.len() == 0,
            is_v4(t.id),
    {
        Task { id: new_id(), title, completed: false, notes: Vec::new() }
    }
}

/// A copy of a list of strings.
pub fn copy_texts(v: &Vec<String>) -> (r: Vec<String>)
    ensures
        texts(r@) == texts(v@),
{
    let mut r: Vec<String> = Vec::new();
    let mut i: usize = 0;
    while i < v.len()
        invariant
            i <= v@.len(),
            r@.len() == i,
            forall|k: int| 0 <= k < i ==> #[trigger] r@[k]@ == v@[k]@,
        decreases v@.len() - i,
    {
        r.push(v[i].clone());
        i = i + 1;
    }
    assert(texts(r@) =~= texts(v@));
    r
}

impl Task {
    /// A copy of the task.
    pub fn duplicate(&self) -> (r: Task)
        ensures
            r@ == self@,
    {
        Task {
            id: self.id,
            title: self.title.clone(),
            completed: self.completed,
            notes: copy_texts(&self.notes),
        }
    }
}

impl Project {
    /// A copy of the project.
    pub fn duplicate(&self) -> (r: Project)
        ensures
            r@ == self@,
    {
        let mut tasks: Vec<Task> = Vec::new();
        let mut i: usize = 0;
        while i < self.tasks.len()
            invariant
                i <= self.tasks@.len(),
                tasks@.len() == i,
                forall|k: int| 0 <= k < i ==> #[trigger] tasks@[k]@ == self.tasks@[k]@,
            decreases self.tasks@.len() - i,
        {
            tasks.push(self.tasks[i].duplicate());
            i = i + 1;
        }
        assert(task_views(tasks@) =~= task_views(self.tasks@));
        Project { id: self.id, title: self.title.clone(), created: self.created.clone(), tasks }
    }
}

impl Idea {
    /// A copy of the idea.
    pub fn duplicate(&self) -> (r: Idea)
        ensures
            r@ == self@,
    {
        Idea {
            id: self.id,
            title: self.title.clone(),
            created: self.created.clone(),
            notes: copy_texts(&self.notes),
        }
    }
}

/// Mapping commutes with replacing an element.
pub proof fn lemma_map_update<A, B>(s: Seq<A>, i: int, x: A, f: spec_fn(A) -> B)
    requires
        0 <= i < s.len(),
    ensures
        s.update(i, x).map_values(f) == s.map_values(f).update(i, f(x)),
{
    assert(s.update(i, x).map_values(f) =~= s.map_values(f).update(i, f(x)));
}

/// Mapping commutes with removing an element.
pub proof fn lemma_map_remove<A, B>(s: Seq<A>, i: int, f: spec_fn(A) -> B)
    requires
        0 <= i < s.len(),
    ensures
        s.remove(i).map_values(f) == s.map_values(f).remove(i),
{
    assert(s.remove(i).map_values(f) =~= s.map_values(f).remove(i));
}

/// Mapping commutes with appending an element.
pub proof fn lemma_map_push<A, B>(s: Seq<A>, x: A, f: spec_fn(A) -> B)
    ensures
        s.push(x).map_values(f) == s.map_values(f).push(f(x)),
{
    assert(s.push(x).map_values(f) =~= s.map_values(f).push(f(x)));
}

} // verus!
