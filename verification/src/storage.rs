//! The markdown file format of projects and ideas: a YAML front matter
//! between `---` fences, then a body. A project body lists its tasks as
//! check-box lines (`- [ ] title <!-- id:UUID -->`) followed by indented
//! notes; an idea body lists its notes as bullet lines.
//!
//! This module frames and checks the text; turning the front matter's YAML
//! into values, and values into YAML, is left to the caller.

use vstd::prelude::*;
use crate::model::{
    Idea, IdeaView, Project, Task, TaskView, id_text, is_v4, new_id, parse_id, task_views, texts,
    uuid_hyphenated, uuid_parse,
};
use crate::text::{
    chars_of, char_find_from, char_match_at, find, is_alnum, is_alphanumeric, is_first_occurrence,
    lemma_find_contains, lemma_find_first, lemma_find_none, lowercase, occurs_at, slice_of,
    ascii_lower, is_ascii_char, is_ascii_text,
    starts_with, string_of, to_lowercase, trim, trim_start, trim_end, words, word_len, is_space,
    is_whitespace, lemma_trim_start_skip, lemma_word_len, skip_ws_forward, trim_bounds, lines,
    split_lines, push_chars, leading_ws,
};

verus! {

// ---------------------------------------------------------------------------
// Where the data lives.

/// The directory that holds the `projects` and `ideas` directories.
#[derive(Debug, Clone, PartialEq, Eq)]
pub enum DataRoot {
    /// The directory that the `NOTAHUB_HOME` variable names, as it stands.
    Custom(String),
    /// The `notahub` directory under the platform's local data directory.
    UnderPlatformDir,
    /// The `.notahub` directory under the working directory.
    Local,
}

/// Picks the data directory: `NOTAHUB_HOME` where it is set, else the
/// platform's local data directory where there is one, else `.notahub`.
pub fn data_root_from(custom: Option<String>, platform_dir_known: bool) -> (r: DataRoot)
    ensures
        custom is Some ==> r == DataRoot::Custom(custom->0),
        custom is None && platform_dir_known ==> r == DataRoot::UnderPlatformDir,
        custom is None && !platform_dir_known ==> r == DataRoot::Local,
{
    match custom {
        Some(dir) => DataRoot::Custom(dir),
        None => if platform_dir_known {
            DataRoot::UnderPlatformDir
        } else {
            DataRoot::Local
        },
    }
}

// ---------------------------------------------------------------------------
// Front matter.

/// Why a file's text has no front matter.
#[derive(Debug, Clone, Copy, PartialEq, Eq, Structural)]
pub enum FrontmatterError {
    /// The text does not start with a `---` line.
    Missing,
    /// No closing `---` line follows the opening one.
    Unterminated,
}

impl FrontmatterError {
    /// The message for the error.
    pub fn message(&self) -> (r: &'static str)
        ensures
            *self == FrontmatterError::Missing ==> r@ == "missing frontmatter"@,
            *self == FrontmatterError::Unterminated ==> r@ == "unterminated frontmatter"@,
    {
        proof {
            reveal_strlit("missing frontmatter");
            reveal_strlit("unterminated frontmatter");
        }
        match self {
            FrontmatterError::Missing => "missing frontmatter",
            FrontmatterError::Unterminated => "unterminated frontmatter",
        }
    }
}

/// The front matter fields of a project or idea file.
#[derive(Debug, Clone)]
pub struct Frontmatter {
    pub id: u128,
    pub title: String,
    pub created: String,
    pub kind: String,
}

/// `s` with every leading copy of `p` removed (std's `trim_start_matches`).
pub open spec fn drop_repeated<T>(s: Seq<T>, p: Seq<T>) -> Seq<T>
    decreases s.len(),
{
    if p.len() > 0 && starts_with(s, p) && p.len() <= s.len() {
        drop_repeated(s.skip(p.len() as int), p)
    } else {
        s
    }
}

/// The opening fence `---` and its line feed.
pub open spec fn open_fence() -> Seq<char> {
    seq!['-', '-', '-', '\n']
}

/// The opening fence `---` with a carriage return and line feed.
pub open spec fn open_fence_crlf() -> Seq<char> {
    seq!['-', '-', '-', '\r', '\n']
}

/// The closing fence: a line feed and `---`.
pub open spec fn close_fence() -> Seq<char> {
    seq!['\n', '-', '-', '-']
}

/// The byte order mark.
pub open spec fn bom() -> Seq<char> {
    seq!['\u{feff}']
}

/// The front matter and body of a file's text: after any byte order marks,
/// the text must open with a `---` line; the front matter runs to the first
/// line feed followed by `---`; the body follows, without the closing fences,
/// carriage returns and line feeds that begin it.
pub open spec fn frontmatter_parts(raw: Seq<char>) -> Result<
    (Seq<char>, Seq<char>),
    FrontmatterError,
> {
    let t = drop_repeated(raw, bom());
    let rest = if starts_with(t, open_fence()) {
        Some(t.skip(4))
    } else if starts_with(t, open_fence_crlf()) {
        Some(t.skip(5))
    } else {
        None
    };
    match rest {
        None => Err(FrontmatterError::Missing),
        Some(rest) => match find(rest, close_fence()) {
            None => Err(FrontmatterError::Unterminated),
            Some(end) => {
                let fm = rest.take(end);
                let body = drop_repeated(
                    drop_repeated(drop_repeated(rest.skip(end), close_fence()), seq!['\r']),
                    seq!['\n'],
                );
                Ok((fm, body))
            },
        },
    }
}

pub proof fn lemma_occurs_skip<T>(s: Seq<T>, p: Seq<T>, k: int, j: int)
    requires
        0 <= k <= s.len(),
    ensures
        occurs_at(s.skip(k), p, j) <==> (j >= 0 && occurs_at(s, p, j + k)),
{
    if j >= 0 && j + p.len() <= s.len() - k {
        assert(s.skip(k).subrange(j, j + p.len()) =~= s.subrange(j + k, j + k + p.len()));
    }
}

/// Index in `v` at which `drop_repeated(v[from..], p)` starts.
fn drop_repeated_from(v: &[char], p: &[char], from: usize) -> (k: usize)
    requires
        from <= v@.len(),
    ensures
        from <= k <= v@.len(),
        v@.skip(k as int) == drop_repeated(v@.skip(from as int), p@),
{
    let n = v.len();
    let mut k = from;
    while k < n
        invariant
            n == v@.len(),
            from <= k <= n,
            drop_repeated(v@.skip(from as int), p@) == drop_repeated(v@.skip(k as int), p@),
        decreases n - k,
    {
        if p.len() == 0 || !char_match_at(v, p, k) {
            proof {
                lemma_occurs_skip(v@, p@, k as int, 0);
            }
            return k;
        }
        proof {
            lemma_occurs_skip(v@, p@, k as int, 0);
            assert(v@.skip(k as int).skip(p@.len() as int) =~= v@.skip(k + p@.len()));
        }
        k = k + p.len();
    }
    proof {
        assert(v@.skip(k as int).len() == 0);
        if p@.len() > 0 {
            assert(!starts_with(v@.skip(k as int), p@));
        }
    }
    k
}

/// The first position at or after `from` at which `p` occurs in `v`, as a
/// position in `v[from..]`.
fn find_in_rest(v: &[char], p: &[char], from: usize) -> (r: Option<usize>)
    requires
        from <= v@.len(),
    ensures
        match r {
            Some(i) => from <= i && find(v@.skip(from as int), p@) == Some(i - from),
            None => find(v@.skip(from as int), p@) is None,
        },
{
    let r = char_find_from(v, p, from);
    proof {
        let rest = v@.skip(from as int);
        match r {
            Some(i) => {
                assert forall|j: int| 0 <= j < i - from implies !occurs_at(rest, p@, j) by {
                    lemma_occurs_skip(v@, p@, from as int, j);
                }
                lemma_occurs_skip(v@, p@, from as int, i - from);
                lemma_find_first(rest, p@, i - from);
            },
            None => {
                assert forall|j: int| !occurs_at(rest, p@, j) by {
                    lemma_occurs_skip(v@, p@, from as int, j);
                }
                lemma_find_none(rest, p@);
            },
        }
    }
    r
}

/// Splits a file's text into its front matter and its body.
pub fn split_frontmatter(raw: &str) -> (r: Result<(String, String), FrontmatterError>)
    ensures
        match frontmatter_parts(raw@) {
            Ok((fm, body)) => r matches Ok((f, b)) && f@ == fm && b@ == body,
            Err(e) => r == Err::<(String, String), FrontmatterError>(e),
        },
{
    let v = chars_of(raw);
    let bom_v: Vec<char> = vec!['\u{feff}'];
    let open_v: Vec<char> = vec!['-', '-', '-', '\n'];
    let open_crlf_v: Vec<char> = vec!['-', '-', '-', '\r', '\n'];
    let close_v: Vec<char> = vec!['\n', '-', '-', '-'];
    let cr_v: Vec<char> = vec!['\r'];
    let lf_v: Vec<char> = vec!['\n'];
    proof {
        assert(bom_v@ =~= bom());
        assert(open_v@ =~= open_fence());
        assert(open_crlf_v@ =~= open_fence_crlf());
        assert(close_v@ =~= close_fence());
        assert(cr_v@ =~= seq!['\r']);
        assert(lf_v@ =~= seq!['\n']);
        assert(v@.skip(0) =~= v@);
    }
    let n = v.len();
    let t = drop_repeated_from(v.as_slice(), bom_v.as_slice(), 0);
    let rest: usize;
    if char_match_at(v.as_slice(), open_v.as_slice(), t) {
        proof {
            lemma_occurs_skip(v@, open_v@, t as int, 0);
            assert(v@.skip(t as int).skip(4) =~= v@.skip(t + 4));
            assert(t + 4 <= n);
        }
        rest = t + 4;
    } else if char_match_at(v.as_slice(), open_crlf_v.as_slice(), t) {
        proof {
            lemma_occurs_skip(v@, open_v@, t as int, 0);
            lemma_occurs_skip(v@, open_crlf_v@, t as int, 0);
            assert(v@.skip(t as int).skip(5) =~= v@.skip(t + 5));
            assert(t + 5 <= n);
        }
        rest = t + 5;
    } else {
        proof {
            lemma_occurs_skip(v@, open_v@, t as int, 0);
            lemma_occurs_skip(v@, open_crlf_v@, t as int, 0);
        }
        return Err(FrontmatterError::Missing);
    }
    let end = match find_in_rest(v.as_slice(), close_v.as_slice(), rest) {
        Some(e) => e,
        None => {
            return Err(FrontmatterError::Unterminated);
        },
    };
    proof {
        lemma_find_contains(v@.skip(rest as int), close_v@);
    }
    let fm = slice_of(v.as_slice(), rest, end);
    let b1 = drop_repeated_from(v.as_slice(), close_v.as_slice(), end);
    let b2 = drop_repeated_from(v.as_slice(), cr_v.as_slice(), b1);
    let b3 = drop_repeated_from(v.as_slice(), lf_v.as_slice(), b2);
    let body = slice_of(v.as_slice(), b3, v.len());
    proof {
        let r = v@.skip(rest as int);
        assert(r.take(end - rest) =~= fm@);
        assert(r.skip(end - rest) =~= v@.skip(end as int));
        assert(v@.subrange(b3 as int, v@.len() as int) =~= v@.skip(b3 as int));
    }
    Ok((string_of(fm.as_slice()), string_of(body.as_slice())))
}

// ---------------------------------------------------------------------------
// File names.

/// `s` with every leading and trailing `-` removed (std's
/// `trim_matches('-')`).
pub open spec fn trim_dashes(s: Seq<char>) -> Seq<char> {
    drop_trailing(drop_repeated(s, seq!['-']), '-')
}

/// `s` with every trailing `c` removed.
pub open spec fn drop_trailing(s: Seq<char>, c: char) -> Seq<char>
    decreases s.len(),
{
    if s.len() > 0 && s.last() == c {
        drop_trailing(s.drop_last(), c)
    } else {
        s
    }
}

/// `s` with each run of `-` shortened to one `-`; this is what replacing
/// `--` by `-` until none is left makes of `s`.
pub open spec fn collapse_dashes(s: Seq<char>) -> Seq<char>
    decreases s.len(),
{
    if s.len() == 0 {
        s
    } else if s.len() >= 2 && s.last() == '-' && s[s.len() - 2] == '-' {
        collapse_dashes(s.drop_last())
    } else {
        collapse_dashes(s.drop_last()).push(s.last())
    }
}

/// Each letter or digit kept, every other character turned into `-`.
pub open spec fn slug_chars(s: Seq<char>) -> Seq<char> {
    s.map_values(|c: char| if is_alnum(c) { c } else { '-' })
}

/// The slug of a title: lower-cased, every character that is not a letter
/// or digit turned into `-`, runs of `-` shortened to one, and `-` trimmed
/// from both ends.
pub open spec fn slug(title: Seq<char>) -> Seq<char> {
    trim_dashes(collapse_dashes(slug_chars(lowercase(title))))
}

/// The slug of a title, which names the file of a project or idea.
pub fn slugify(title: &str) -> (r: String)
    ensures
        r@ == slug(title@),
        is_ascii_text(title@) ==> slug(r@) == r@,
{
    let lower = to_lowercase(title);
    let v = chars_of(lower.as_str());
    let n = v.len();
    let ghost mapped = slug_chars(v@);
    let mut out: Vec<char> = Vec::new();
    let mut i: usize = 0;
    while i < n
        invariant
            n == v@.len(),
            i <= n,
            mapped == slug_chars(v@),
            out@ == collapse_dashes(mapped.take(i as int)),
        decreases n - i,
    {
        let c = if is_alphanumeric(v[i]) {
            v[i]
        } else {
            '-'
        };
        let prev_dash = i > 0 && !is_alphanumeric(v[i - 1]);
        proof {
            let t = mapped.take(i + 1);
            assert(t.drop_last() =~= mapped.take(i as int));
            assert(t.last() == c);
            if i > 0 {
                assert(t[t.len() - 2] == mapped[i - 1]);
            }
        }
        if !(c == '-' && prev_dash) {
            out.push(c);
        }
        i = i + 1;
    }
    assert(mapped.take(n as int) =~= mapped);
    // trim leading and trailing dashes
    let mut a: usize = 0;
    let m = out.len();
    let ghost col = out@;
    assert(col.skip(0) =~= col);
    while a < m && out[a] == '-'
        invariant
            m == out@.len(),
            col == out@,
            a <= m,
            drop_repeated(col, seq!['-']) == drop_repeated(col.skip(a as int), seq!['-']),
        decreases m - a,
    {
        proof {
            let s = col.skip(a as int);
            assert(s.subrange(0, 1) =~= seq!['-']);
            assert(s.skip(1) =~= col.skip(a + 1));
        }
        a = a + 1;
    }
    proof {
        let s = col.skip(a as int);
        if s.len() > 0 {
            assert(s.subrange(0, 1) != seq!['-']) by {
                assert(s.subrange(0, 1)[0] == s[0]);
            }
        }
    }
    let mut b = m;
    while b > a && out[b - 1] == '-'
        invariant
            m == out@.len(),
            col == out@,
            a <= b <= m,
            drop_trailing(col.skip(a as int), '-') == drop_trailing(
                col.subrange(a as int, b as int),
                '-',
            ),
        decreases b - a,
    {
        proof {
            let s = col.subrange(a as int, b as int);
            assert(s.drop_last() =~= col.subrange(a as int, b - 1));
        }
        b = b - 1;
    }
    let res = slice_of(out.as_slice(), a, b);
    proof {
        assert(col.subrange(a as int, m as int) =~= col.skip(a as int));
        let s = col.subrange(a as int, b as int);
        assert(res@ == s);
    }
    let r = string_of(res.as_slice());
    proof {
        if is_ascii_text(title@) {
            lemma_ascii_lower_is_lower(title@);
            lemma_slug_lower_ascii(title@);
            lemma_lower_ascii_fixed(r@);
        }
    }
    // Lower-casing the slug leaves it as it is; the call records that fact,
    // on which a slug being its own slug rests.
    let _again = to_lowercase(r.as_str());
    proof {
        if is_ascii_text(title@) {
            law_slug_idempotent(title@);
        }
    }
    r
}

// ---------------------------------------------------------------------------
// Task lines.

/// Opens an HTML comment.
pub open spec fn comment_open() -> Seq<char> {
    seq!['<', '!', '-', '-']
}

/// Closes an HTML comment.
pub open spec fn comment_close() -> Seq<char> {
    seq!['-', '-', '>']
}

/// Introduces the id in a task's comment.
pub open spec fn id_prefix() -> Seq<char> {
    seq!['i', 'd', ':']
}

/// The id given by the last word of `ws` that is `id:` followed by a UUID
/// that `uuid::Uuid::parse_str` accepts.
pub open spec fn id_in_words(ws: Seq<Seq<char>>) -> Option<u128>
    decreases ws.len(),
{
    if ws.len() == 0 {
        None
    } else {
        let w = ws.last();
        if starts_with(w, id_prefix()) && uuid_parse(w.skip(3)) is Some {
            uuid_parse(w.skip(3))
        } else {
            id_in_words(ws.drop_last())
        }
    }
}

/// Where the first comment of `s` opens, and where, counted from there, it
/// closes.
pub open spec fn comment_bounds(s: Seq<char>) -> Option<(int, int)> {
    match find(s, comment_open()) {
        Some(start) => match find(s.skip(start), comment_close()) {
            Some(end) => Some((start, end)),
            None => None,
        },
        None => None,
    }
}

/// Whether the comment of `s`, if any, closes after its opening `<!--`
/// (slicing out the comment's inside otherwise panics, as on `<!-->`).
pub open spec fn comment_ok(s: Seq<char>) -> bool {
    comment_bounds(s) matches Some((start, end)) ==> end >= 4
}

/// The title and id of the text after a task's check box: the text before
/// the first comment, trimmed, and the id named in that comment.
pub open spec fn title_and_id(s: Seq<char>) -> (Seq<char>, Option<u128>) {
    match comment_bounds(s) {
        Some((start, end)) => (
            trim(s.take(start)),
            id_in_words(words(s.subrange(start + 4, start + end))),
        ),
        None => (trim(s), None),
    }
}

/// A task as a line of a project body describes it; `id` is `None` where
/// the line names no id, and the task then gets a fresh random one.
pub struct TaskSkeleton {
    pub title: Seq<char>,
    pub completed: bool,
    pub id: Option<u128>,
    pub notes: Seq<Seq<char>>,
}

/// An open check box.
pub open spec fn box_open() -> Seq<char> {
    seq!['-', ' ', '[', ' ', ']']
}

/// A ticked check box.
pub open spec fn box_done() -> Seq<char> {
    seq!['-', ' ', '[', 'x', ']']
}

/// The task that a line describes, if it is a check-box line.
pub open spec fn task_line(line: Seq<char>) -> Option<TaskSkeleton> {
    let t = trim_start(line);
    if starts_with(t, box_open()) || starts_with(t, box_done()) {
        let ti = title_and_id(trim_start(t.skip(5)));
        Some(TaskSkeleton { title: ti.0, completed: starts_with(t, box_done()), id: ti.1, notes: seq![] })
    } else {
        None
    }
}

/// Whether reading the line does not hit the comment slicing that panics.
pub open spec fn task_line_ok(line: Seq<char>) -> bool {
    let t = trim_start(line);
    (starts_with(t, box_open()) || starts_with(t, box_done())) ==> comment_ok(trim_start(t.skip(5)))
}

/// Whether a task fits the skeleton: same title, mark and notes, and the
/// named id where the skeleton names one, else a random (version 4) id.
pub open spec fn task_fits(t: TaskView, s: TaskSkeleton) -> bool {
    &&& t.title == s.title
    &&& t.completed == s.completed
    &&& t.notes == s.notes
    &&& match s.id {
        Some(x) => t.id == x,
        None => is_v4(t.id),
    }
}

pub proof fn lemma_word_len_eq(s: Seq<char>, m: int)
    requires
        0 <= m <= s.len(),
        forall|i: int| 0 <= i < m ==> !is_space(#[trigger] s[i]),
        m < s.len() ==> is_space(s[m]),
    ensures
        word_len(s) == m,
    decreases s.len(),
{
    if m > 0 {
        assert forall|i: int| 0 <= i < m - 1 implies !is_space(#[trigger] s.drop_first()[i]) by {
            assert(s.drop_first()[i] == s[i + 1]);
        }
        if m < s.len() {
            assert(s.drop_first()[m - 1] == s[m]);
        }
        lemma_word_len_eq(s.drop_first(), m - 1);
    }
}

/// The id named in the comment words of `v[from..to]`.
fn id_in_region(v: &[char], from: usize, to: usize) -> (r: Option<u128>)
    requires
        from <= to <= v@.len(),
    ensures
        r == id_in_words(words(v@.subrange(from as int, to as int))),
{
    let prefix: Vec<char> = vec!['i', 'd', ':'];
    assert(prefix@ =~= id_prefix());
    let mut pos = from;
    let mut found: Option<u128> = None;
    let ghost mut done: Seq<Seq<char>> = seq![];
    let ghost all = words(v@.subrange(from as int, to as int));
    while pos < to
        invariant
            from <= pos <= to <= v@.len(),
            prefix@ == id_prefix(),
            all == words(v@.subrange(from as int, to as int)),
            all == done + words(v@.subrange(pos as int, to as int)),
            found == id_in_words(done),
        decreases to - pos,
    {
        let k = skip_ws_forward(v, pos, to);
        let ghost s = v@.subrange(pos as int, to as int);
        proof {
            lemma_trim_start_skip(s);
            assert(s.skip(leading_ws(s) as int) =~= v@.subrange(k as int, to as int));
        }
        if k == to {
            proof {
                assert(words(s) =~= Seq::<Seq<char>>::empty());
                assert(words(v@.subrange(to as int, to as int)) =~= Seq::<Seq<char>>::empty()) by {
                    assert(v@.subrange(to as int, to as int).len() == 0);
                    lemma_trim_start_skip(v@.subrange(to as int, to as int));
                }
            }
            pos = to;
        } else {
            let mut e = k;
            while e < to && !is_whitespace(v[e])
                invariant
                    k <= e <= to <= v@.len(),
                    forall|i: int| k <= i < e ==> !is_space(#[trigger] v@[i]),
                decreases to - e,
            {
                e = e + 1;
            }
            let ghost t = v@.subrange(k as int, to as int);
            proof {
                assert forall|i: int| 0 <= i < e - k implies !is_space(#[trigger] t[i]) by {
                    assert(t[i] == v@[k + i]);
                }
                if e < to {
                    assert(t[e - k] == v@[e as int]);
                }
                lemma_word_len_eq(t, e - k);
                assert(!is_space(t[0]));
                assert(t.take(e - k) =~= v@.subrange(k as int, e as int));
                assert(t.skip(e - k) =~= v@.subrange(e as int, to as int));
                assert(words(s) == seq![v@.subrange(k as int, e as int)] + words(
                    v@.subrange(e as int, to as int),
                ));
            }
            let ghost w = v@.subrange(k as int, e as int);
            if e - k >= 3 && char_match_at(v, prefix.as_slice(), k) {
                let rest = slice_of(v, k + 3, e);
                let rest_s = string_of(rest.as_slice());
                let parsed = parse_id(rest_s.as_str());
                proof {
                    assert(w.subrange(0, 3) =~= v@.subrange(k as int, k + 3));
                    assert(w.skip(3) =~= rest@);
                }
                if parsed.is_some() {
                    found = parsed;
                }
            } else {
                proof {
                    if starts_with(w, id_prefix()) {
                        assert(w.subrange(0, 3) =~= v@.subrange(k as int, k + 3));
                    }
                }
            }
            proof {
                assert((done + seq![w]).drop_last() =~= done);
                assert((done + seq![w]).last() == w);
                assert(all =~= (done + seq![w]) + words(v@.subrange(e as int, to as int)));
                done = done + seq![w];
            }
            pos = e;
        }
    }
    proof {
        assert(v@.subrange(pos as int, to as int).len() == 0);
        lemma_trim_start_skip(v@.subrange(pos as int, to as int));
        assert(all =~= done);
    }
    found
}

/// The title and id of the text `v[from..to]` after a task's check box.
fn title_and_id_of(v: &[char], from: usize, to: usize) -> (r: (String, Option<u128>))
    requires
        from <= to <= v@.len(),
        comment_ok(v@.subrange(from as int, to as int)),
    ensures
        r.0@ == title_and_id(v@.subrange(from as int, to as int)).0,
        r.1 == title_and_id(v@.subrange(from as int, to as int)).1,
{
    let ghost s = v@.subrange(from as int, to as int);
    let open: Vec<char> = vec!['<', '!', '-', '-'];
    let close: Vec<char> = vec!['-', '-', '>'];
    assert(open@ =~= comment_open());
    assert(close@ =~= comment_close());
    let region = slice_of(v, from, to);
    assert(region@ == s);
    match crate::text::char_find(region.as_slice(), open.as_slice()) {
        Some(start) => {
            proof {
                lemma_find_contains(s, comment_open());
            }
            match find_in_rest(region.as_slice(), close.as_slice(), start) {
                Some(end_abs) => {
                    let (a, b) = trim_bounds(region.as_slice(), 0, start);
                    let title = slice_of(region.as_slice(), a, b);
                    proof {
                        lemma_find_contains(s.skip(start as int), comment_close());
                        assert(region@.subrange(0, start as int) =~= s.take(start as int));
                    }
                    let id = id_in_region(region.as_slice(), start + 4, end_abs);
                    (string_of(title.as_slice()), id)
                },
                None => {
                    let (a, b) = trim_bounds(region.as_slice(), 0, region.len());
                    assert(region@.subrange(0, region@.len() as int) =~= s);
                    let title = slice_of(region.as_slice(), a, b);
                    (string_of(title.as_slice()), None)
                },
            }
        },
        None => {
            let (a, b) = trim_bounds(region.as_slice(), 0, region.len());
            assert(region@.subrange(0, region@.len() as int) =~= s);
            let title = slice_of(region.as_slice(), a, b);
            (string_of(title.as_slice()), None)
        },
    }
}

/// The task that the line `v` describes, if it is a check-box line. A task
/// whose line names no id gets a fresh random one.
fn task_of_line(v: &[char]) -> (r: Option<Task>)
    requires
        task_line_ok(v@),
    ensures
        match task_line(v@) {
            Some(s) => r matches Some(t) && task_fits(t@, s),
            None => r is None,
        },
{
    let n = v.len();
    let open_box: Vec<char> = vec!['-', ' ', '[', ' ', ']'];
    let done_box: Vec<char> = vec!['-', ' ', '[', 'x', ']'];
    assert(open_box@ =~= box_open());
    assert(done_box@ =~= box_done());
    let k = skip_ws_forward(v, 0, n);
    let ghost t = trim_start(v@);
    proof {
        assert(v@.subrange(0, n as int) =~= v@);
        lemma_trim_start_skip(v@);
        assert(t =~= v@.skip(k as int));
        lemma_occurs_skip(v@, box_open(), k as int, 0);
        lemma_occurs_skip(v@, box_done(), k as int, 0);
    }
    let is_open = char_match_at(v, open_box.as_slice(), k);
    let is_done = char_match_at(v, done_box.as_slice(), k);
    if !is_open && !is_done {
        return None;
    }
    let after = skip_ws_forward(v, k + 5, n);
    proof {
        let u = t.skip(5);
        assert(u =~= v@.subrange(k + 5, n as int));
        lemma_trim_start_skip(u);
        assert(trim_start(u) =~= v@.subrange(after as int, n as int));
    }
    let (title, id_opt) = title_and_id_of(v, after, n);
    let id = match id_opt {
        Some(x) => x,
        None => new_id(),
    };
    let task = Task { id, title, completed: is_done, notes: Vec::new() };
    proof {
        assert(texts(task.notes@) =~= Seq::<Seq<char>>::empty());
    }
    Some(task)
}

// ---------------------------------------------------------------------------
// Bodies.

/// Two spaces, which indent a note line.
pub open spec fn indent() -> Seq<char> {
    seq![' ', ' ']
}

/// The tasks read so far from a sequence of body lines, and the task being
/// read: a check-box line starts a new task; a line indented by two spaces
/// adds a note to the current task, without trailing white space, unless it
/// is blank; other lines are ignored.
pub open spec fn fold_tasks(ls: Seq<Seq<char>>) -> (Seq<TaskSkeleton>, Option<TaskSkeleton>)
    decreases ls.len(),
{
    if ls.len() == 0 {
        (seq![], None)
    } else {
        let prev = fold_tasks(ls.drop_last());
        let line = ls.last();
        match task_line(line) {
            Some(t) => (
                match prev.1 {
                    Some(c) => prev.0.push(c),
                    None => prev.0,
                },
                Some(t),
            ),
            None => if starts_with(line, indent()) && prev.1 is Some && trim(line.skip(2)).len()
                > 0 {
                (
                    prev.0,
                    Some(
                        TaskSkeleton {
                            notes: prev.1->0.notes.push(trim_end(line.skip(2))),
                            ..prev.1->0
                        },
                    ),
                )
            } else {
                prev
            },
        }
    }
}

/// The tasks that a project body describes.
pub open spec fn body_tasks(body: Seq<char>) -> Seq<TaskSkeleton> {
    let f = fold_tasks(lines(body));
    match f.1 {
        Some(c) => f.0.push(c),
        None => f.0,
    }
}

/// Whether reading the project body never slices a comment where slicing
/// panics (see `comment_ok`).
pub open spec fn project_body_ok(body: Seq<char>) -> bool {
    forall|i: int| 0 <= i < lines(body).len() ==> task_line_ok(#[trigger] lines(body)[i])
}

/// Whether the tasks fit the skeletons one by one.
pub open spec fn tasks_fit(ts: Seq<TaskView>, ss: Seq<TaskSkeleton>) -> bool {
    ts.len() == ss.len() && forall|i: int| 0 <= i < ts.len() ==> task_fits(#[trigger] ts[i], ss[i])
}

/// Checks `project_body_ok`.
pub fn project_body_is_readable(body: &str) -> (r: bool)
    ensures
        r == project_body_ok(body@),
{
    let v = chars_of(body);
    let ls = split_lines(v.as_slice());
    let mut i: usize = 0;
    while i < ls.len()
        invariant
            i <= ls@.len(),
            v@ == body@,
            ls@.len() == lines(v@).len(),
            forall|j: int| 0 <= j < ls@.len() ==> #[trigger] ls@[j]@ == lines(v@)[j],
            forall|j: int| 0 <= j < i ==> task_line_ok(#[trigger] lines(v@)[j]),
        decreases ls@.len() - i,
    {
        if !line_is_readable(ls[i].as_slice()) {
            assert(ls@[i as int]@ == lines(v@)[i as int]);
            return false;
        }
        assert(ls@[i as int]@ == lines(v@)[i as int]);
        i = i + 1;
    }
    true
}

/// Checks `task_line_ok` of one line.
#[verifier::rlimit(40)]
fn line_is_readable(v: &[char]) -> (r: bool)
    ensures
        r == task_line_ok(v@),
{
    let n = v.len();
    let open_box: Vec<char> = vec!['-', ' ', '[', ' ', ']'];
    let done_box: Vec<char> = vec!['-', ' ', '[', 'x', ']'];
    assert(open_box@ =~= box_open());
    assert(done_box@ =~= box_done());
    let k = skip_ws_forward(v, 0, n);
    let ghost t = trim_start(v@);
    proof {
        assert(v@.subrange(0, n as int) =~= v@);
        lemma_trim_start_skip(v@);
        assert(t =~= v@.skip(k as int));
        lemma_occurs_skip(v@, box_open(), k as int, 0);
        lemma_occurs_skip(v@, box_done(), k as int, 0);
    }
    if !char_match_at(v, open_box.as_slice(), k) && !char_match_at(v, done_box.as_slice(), k) {
        return true;
    }
    let after = skip_ws_forward(v, k + 5, n);
    let region = slice_of(v, after, n);
    proof {
        let u = t.skip(5);
        assert(u =~= v@.subrange(k + 5, n as int));
        lemma_trim_start_skip(u);
        assert(trim_start(u) =~= region@);
    }
    let open: Vec<char> = vec!['<', '!', '-', '-'];
    let close: Vec<char> = vec!['-', '-', '>'];
    assert(open@ =~= comment_open());
    assert(close@ =~= comment_close());
    match crate::text::char_find(region.as_slice(), open.as_slice()) {
        Some(start) => {
            proof {
                lemma_find_contains(region@, comment_open());
            }
            match find_in_rest(region.as_slice(), close.as_slice(), start) {
                Some(end_abs) => end_abs - start >= 4,
                None => true,
            }
        },
        None => true,
    }
}

/// Reads a project from its front matter and body. Tasks are read as
/// `body_tasks` describes; a task whose line names no id gets a fresh random
/// one.
pub fn parse_project(front: Frontmatter, body: &str) -> (p: Project)
    requires
        project_body_ok(body@),
    ensures
        p.id == front.id,
        p.title@ == front.title@,
        p.created@ == front.created@,
        tasks_fit(task_views(p.tasks@), body_tasks(body@)),
{
    let v = chars_of(body);
    let ls = split_lines(v.as_slice());
    let ghost all = lines(body@);
    let mut tasks: Vec<Task> = Vec::new();
    let mut current: Option<Task> = None;
    let mut i: usize = 0;
    while i < ls.len()
        invariant
            i <= ls@.len(),
            v@ == body@,
            all == lines(body@),
            project_body_ok(body@),
            ls@.len() == all.len(),
            forall|j: int| 0 <= j < ls@.len() ==> #[trigger] ls@[j]@ == all[j],
            tasks_fit(task_views(tasks@), fold_tasks(all.take(i as int)).0),
            match fold_tasks(all.take(i as int)).1 {
                Some(c) => current matches Some(t) && task_fits(t@, c),
                None => current is None,
            },
        decreases ls@.len() - i,
    {
        let line = ls[i].as_slice();
        let ghost prev = fold_tasks(all.take(i as int));
        proof {
            assert(all.take(i + 1).drop_last() =~= all.take(i as int));
            assert(all.take(i + 1).last() == all[i as int]);
            assert(ls@[i as int]@ == all[i as int]);
            assert(task_line_ok(lines(body@)[i as int]));
        }
        match task_of_line(line) {
            Some(task) => {
                match current {
                    Some(c) => {
                        let ghost before = tasks@;
                        tasks.push(c);
                        proof {
                            assert(task_views(tasks@) =~= task_views(before).push(c@));
                        }
                    },
                    None => {},
                }
                current = Some(task);
            },
            None => {
                let n = line.len();
                let spaces: Vec<char> = vec![' ', ' '];
                assert(spaces@ =~= indent());
                let indented = char_match_at(line, spaces.as_slice(), 0);
                if indented {
                    let (a, b) = trim_bounds(line, 2, n);
                    proof {
                        assert(line@.subrange(2, n as int) =~= line@.skip(2));
                    }
                    if b > a {
                        current = match current {
                            Some(mut t) => {
                                let e = crate::text::skip_ws_backward(line, 2, n);
                                let note = slice_of(line, 2, e);
                                proof {
                                    crate::text::lemma_trim_end_take(line@.skip(2));
                                    assert(note@ =~= trim_end(line@.skip(2)));
                                }
                                let ghost before = t.notes@;
                                t.notes.push(string_of(note.as_slice()));
                                proof {
                                    assert(texts(t.notes@) =~= texts(before).push(note@));
                                }
                                Some(t)
                            },
                            None => None,
                        };
                    }
                }
            },
        }
        i = i + 1;
    }
    proof {
        assert(all.take(ls@.len() as int) =~= all);
    }
    match current {
        Some(c) => {
            let ghost before = tasks@;
            tasks.push(c);
            proof {
                assert(task_views(tasks@) =~= task_views(before).push(c@));
            }
        },
        None => {},
    }
    Project { id: front.id, title: front.title, created: front.created, tasks }
}

/// The note that a line of an idea body holds: the text of a `- ` or `* `
/// bullet, trimmed; nothing for a blank line; any other line, without its
/// leading white space.
pub open spec fn idea_note(line: Seq<char>) -> Option<Seq<char>> {
    let t = trim_start(line);
    if starts_with(t, seq!['-', ' ']) || starts_with(t, seq!['*', ' ']) {
        Some(trim(t.skip(2)))
    } else if t.len() == 0 {
        None
    } else {
        Some(t)
    }
}

/// The notes that a sequence of idea body lines holds.
pub open spec fn fold_notes(ls: Seq<Seq<char>>) -> Seq<Seq<char>>
    decreases ls.len(),
{
    if ls.len() == 0 {
        seq![]
    } else {
        match idea_note(ls.last()) {
            Some(n) => fold_notes(ls.drop_last()).push(n),
            None => fold_notes(ls.drop_last()),
        }
    }
}

/// The notes that an idea body holds.
pub open spec fn body_notes(body: Seq<char>) -> Seq<Seq<char>> {
    fold_notes(lines(body))
}

/// Reads an idea from its front matter and body.
pub fn parse_idea(front: Frontmatter, body: &str) -> (i: Idea)
    ensures
        i.id == front.id,
        i.title@ == front.title@,
        i.created@ == front.created@,
        texts(i.notes@) == body_notes(body@),
{
    let v = chars_of(body);
    let ls = split_lines(v.as_slice());
    let ghost all = lines(body@);
    let dash: Vec<char> = vec!['-', ' '];
    let star: Vec<char> = vec!['*', ' '];
    assert(dash@ =~= seq!['-', ' ']);
    assert(star@ =~= seq!['*', ' ']);
    let mut notes: Vec<String> = Vec::new();
    let mut i: usize = 0;
    while i < ls.len()
        invariant
            i <= ls@.len(),
            v@ == body@,
            all == lines(body@),
            dash@ == seq!['-', ' '],
            star@ == seq!['*', ' '],
            ls@.len() == all.len(),
            forall|j: int| 0 <= j < ls@.len() ==> #[trigger] ls@[j]@ == all[j],
            texts(notes@) == fold_notes(all.take(i as int)),
        decreases ls@.len() - i,
    {
        let line = ls[i].as_slice();
        let n = line.len();
        proof {
            assert(all.take(i + 1).drop_last() =~= all.take(i as int));
            assert(all.take(i + 1).last() == all[i as int]);
            assert(ls@[i as int]@ == all[i as int]);
            assert(line@.subrange(0, n as int) =~= line@);
            lemma_trim_start_skip(line@);
        }
        let k = skip_ws_forward(line, 0, n);
        let ghost t = trim_start(line@);
        proof {
            assert(t =~= line@.skip(k as int));
            lemma_occurs_skip(line@, seq!['-', ' '], k as int, 0);
            lemma_occurs_skip(line@, seq!['*', ' '], k as int, 0);
        }
        let ghost before = notes@;
        if char_match_at(line, dash.as_slice(), k) || char_match_at(line, star.as_slice(), k) {
            let (a, b) = trim_bounds(line, k + 2, n);
            proof {
                assert(t.skip(2) =~= line@.subrange(k + 2, n as int));
            }
            let note = slice_of(line, a, b);
            notes.push(string_of(note.as_slice()));
            proof {
                assert(texts(notes@) =~= texts(before).push(note@));
            }
        } else if k < n {
            let note = slice_of(line, k, n);
            proof {
                assert(note@ =~= t);
            }
            notes.push(string_of(note.as_slice()));
            proof {
                assert(texts(notes@) =~= texts(before).push(note@));
            }
        }
        i = i + 1;
    }
    proof {
        assert(all.take(ls@.len() as int) =~= all);
    }
    Idea { id: front.id, title: front.title, created: front.created, notes }
}

// ---------------------------------------------------------------------------
// Writing.

/// The check-box mark of a task.
pub open spec fn mark(completed: bool) -> char {
    if completed {
        'x'
    } else {
        ' '
    }
}

/// The line of a task: `- [m] title <!-- id:UUID -->` and a line feed.
pub open spec fn task_line_text(t: TaskView) -> Seq<char> {
    seq!['-', ' ', '[', mark(t.completed), ']', ' '] + t.title + seq![
        ' ',
        '<',
        '!',
        '-',
        '-',
        ' ',
        'i',
        'd',
        ':',
    ] + uuid_hyphenated(t.id) + seq![' ', '-', '-', '>', '\n']
}

/// The note lines of a task: each note indented by two spaces.
pub open spec fn note_lines(notes: Seq<Seq<char>>) -> Seq<char>
    decreases notes.len(),
{
    if notes.len() == 0 {
        seq![]
    } else {
        note_lines(notes.drop_last()) + indent() + notes.last() + seq!['\n']
    }
}

/// A task's line, its note lines and a blank line.
pub open spec fn task_block(t: TaskView) -> Seq<char> {
    task_line_text(t) + note_lines(t.notes) + seq!['\n']
}

/// The body of a project with these tasks.
pub open spec fn tasks_text(ts: Seq<TaskView>) -> Seq<char>
    decreases ts.len(),
{
    if ts.len() == 0 {
        seq![]
    } else {
        tasks_text(ts.drop_last()) + task_block(ts.last())
    }
}

/// The body of an idea with these notes: one `- ` bullet line per note.
pub open spec fn notes_text(ns: Seq<Seq<char>>) -> Seq<char>
    decreases ns.len(),
{
    if ns.len() == 0 {
        seq![]
    } else {
        notes_text(ns.drop_last()) + seq!['-', ' '] + ns.last() + seq!['\n']
    }
}

/// A whole file: the front matter's YAML between `---` lines, a blank line,
/// then the body.
pub open spec fn document(yaml: Seq<char>, body: Seq<char>) -> Seq<char> {
    open_fence() + yaml + seq!['-', '-', '-', '\n', '\n'] + body
}

/// Appends the text of `s`.
fn push_str(out: &mut Vec<char>, s: &str)
    ensures
        final(out)@ == old(out)@ + s@,
{
    let v = chars_of(s);
    push_chars(out, v.as_slice());
}

/// Appends the block of one task.
fn push_task_block(out: &mut Vec<char>, t: &Task)
    ensures
        final(out)@ == old(out)@ + task_block(t@),
{
    let ghost start = out@;
    out.push('-');
    out.push(' ');
    out.push('[');
    out.push(if t.completed { 'x' } else { ' ' });
    out.push(']');
    out.push(' ');
    push_str(out, t.title.as_str());
    out.push(' ');
    out.push('<');
    out.push('!');
    out.push('-');
    out.push('-');
    out.push(' ');
    out.push('i');
    out.push('d');
    out.push(':');
    let id = id_text(t.id);
    push_str(out, id.as_str());
    out.push(' ');
    out.push('-');
    out.push('-');
    out.push('>');
    out.push('\n');
    proof {
        assert(out@ =~= start + task_line_text(t@));
    }
    let ghost mid = out@;
    let mut k: usize = 0;
    while k < t.notes.len()
        invariant
            k <= t.notes@.len(),
            out@ == mid + note_lines(texts(t.notes@).take(k as int)),
        decreases t.notes@.len() - k,
    {
        let ghost before = out@;
        out.push(' ');
        out.push(' ');
        push_str(out, t.notes[k].as_str());
        out.push('\n');
        proof {
            let ns = texts(t.notes@).take(k + 1);
            assert(ns.drop_last() =~= texts(t.notes@).take(k as int));
            assert(ns.last() == t.notes@[k as int]@);
            assert(out@ =~= mid + note_lines(ns));
        }
        k = k + 1;
    }
    out.push('\n');
    proof {
        assert(texts(t.notes@).take(t.notes@.len() as int) =~= texts(t.notes@));
        assert(out@ =~= start + task_block(t@));
    }
}

/// Appends the front matter's YAML between fences, and a blank line.
fn push_head(out: &mut Vec<char>, yaml: &str)
    ensures
        final(out)@ == old(out)@ + open_fence() + yaml@ + seq!['-', '-', '-', '\n', '\n'],
{
    let ghost start = out@;
    out.push('-');
    out.push('-');
    out.push('-');
    out.push('\n');
    push_str(out, yaml);
    out.push('-');
    out.push('-');
    out.push('-');
    out.push('\n');
    out.push('\n');
    assert(out@ =~= start + open_fence() + yaml@ + seq!['-', '-', '-', '\n', '\n']);
}

/// The file text of a project, given its front matter as YAML.
pub fn serialize_project(project: &Project, yaml: &str) -> (r: String)
    ensures
        r@ == document(yaml@, tasks_text(project@.tasks)),
{
    let mut out: Vec<char> = Vec::new();
    push_head(&mut out, yaml);
    let ghost head = out@;
    let mut i: usize = 0;
    while i < project.tasks.len()
        invariant
            i <= project.tasks@.len(),
            out@ == head + tasks_text(task_views(project.tasks@).take(i as int)),
        decreases project.tasks@.len() - i,
    {
        push_task_block(&mut out, &project.tasks[i]);
        proof {
            let ts = task_views(project.tasks@).take(i + 1);
            assert(ts.drop_last() =~= task_views(project.tasks@).take(i as int));
        }
        i = i + 1;
    }
    proof {
        assert(task_views(project.tasks@).take(project.tasks@.len() as int) =~= task_views(
            project.tasks@,
        ));
        assert(out@ =~= document(yaml@, tasks_text(project@.tasks)));
    }
    string_of(out.as_slice())
}

/// The file text of an idea, given its front matter as YAML.
pub fn serialize_idea(idea: &Idea, yaml: &str) -> (r: String)
    ensures
        r@ == document(yaml@, notes_text(idea@.notes)),
{
    let mut out: Vec<char> = Vec::new();
    push_head(&mut out, yaml);
    let ghost head = out@;
    let mut i: usize = 0;
    while i < idea.notes.len()
        invariant
            i <= idea.notes@.len(),
            out@ == head + notes_text(texts(idea.notes@).take(i as int)),
        decreases idea.notes@.len() - i,
    {
        out.push('-');
        out.push(' ');
        push_str(&mut out, idea.notes[i].as_str());
        out.push('\n');
        proof {
            let ns = texts(idea.notes@).take(i + 1);
            assert(ns.drop_last() =~= texts(idea.notes@).take(i as int));
            assert(out@ =~= head + notes_text(ns));
        }
        i = i + 1;
    }
    proof {
        assert(texts(idea.notes@).take(idea.notes@.len() as int) =~= texts(idea.notes@));
        assert(out@ =~= document(yaml@, notes_text(idea@.notes)));
    }
    string_of(out.as_slice())
}

/// The front matter of a project: its id, title and creation time, and the
/// kind `project`.
pub fn project_frontmatter(project: &Project) -> (f: Frontmatter)
    ensures
        f.id == project.id,
        f.title@ == project.title@,
        f.created@ == project.created@,
        f.kind@ == seq!['p', 'r', 'o', 'j', 'e', 'c', 't'],
{
    let kind = string_of(vec!['p', 'r', 'o', 'j', 'e', 'c', 't'].as_slice());
    Frontmatter { id: project.id, title: project.title.clone(), created: project.created.clone(), kind }
}

/// The front matter of an idea: its id, title and creation time, and the
/// kind `idea`.
pub fn idea_frontmatter(idea: &Idea) -> (f: Frontmatter)
    ensures
        f.id == idea.id,
        f.title@ == idea.title@,
        f.created@ == idea.created@,
        f.kind@ == seq!['i', 'd', 'e', 'a'],
{
    let kind = string_of(vec!['i', 'd', 'e', 'a'].as_slice());
    Frontmatter { id: idea.id, title: idea.title.clone(), created: idea.created.clone(), kind }
}

/// The name of an item's file: the slug of its title, or its id where the
/// slug is empty, then `.md`.
pub open spec fn file_name(id: u128, title: Seq<char>) -> Seq<char> {
    (if slug(title).len() == 0 {
        uuid_hyphenated(id)
    } else {
        slug(title)
    }) + seq!['.', 'm', 'd']
}

fn file_name_of(id: u128, title: &str) -> (r: String)
    ensures
        r@ == file_name(id, title@),
{
    let s = slugify(title);
    let mut out: Vec<char> = Vec::new();
    if s.as_str().is_empty() {
        let t = id_text(id);
        push_str(&mut out, t.as_str());
    } else {
        push_str(&mut out, s.as_str());
    }
    out.push('.');
    out.push('m');
    out.push('d');
    assert(out@ =~= file_name(id, title@));
    string_of(out.as_slice())
}

/// The name of a project's file within the projects directory.
pub fn project_file_name(project: &Project) -> (r: String)
    ensures
        r@ == file_name(project.id, project.title@),
{
    file_name_of(project.id, project.title.as_str())
}

/// The name of an idea's file within the ideas directory.
pub fn idea_file_name(idea: &Idea) -> (r: String)
    ensures
        r@ == file_name(idea.id, idea.title@),
{
    file_name_of(idea.id, idea.title.as_str())
}

// ---------------------------------------------------------------------------
// Laws of slugs.

/// Whether every character of `s` is a letter, a digit or `-`.
pub open spec fn slug_alphabet(s: Seq<char>) -> bool {
    forall|i: int| 0 <= i < s.len() ==> is_alnum(#[trigger] s[i]) || s[i] == '-'
}

/// Whether no two `-` follow each other in `s`.
pub open spec fn no_double_dash(s: Seq<char>) -> bool {
    forall|i: int| 0 <= i < s.len() - 1 ==> !(#[trigger] s[i] == '-' && s[i + 1] == '-')
}

proof fn lemma_collapse(s: Seq<char>)
    ensures
        collapse_dashes(s).len() > 0 <==> s.len() > 0,
        s.len() > 0 ==> collapse_dashes(s).last() == s.last(),
        no_double_dash(collapse_dashes(s)),
        slug_alphabet(s) ==> slug_alphabet(collapse_dashes(s)),
        lower_ascii(s) ==> lower_ascii(collapse_dashes(s)),
        no_double_dash(s) ==> collapse_dashes(s) == s,
    decreases s.len(),
{
    if s.len() > 0 {
        let p = s.drop_last();
        lemma_collapse(p);
        let c = collapse_dashes(p);
        if slug_alphabet(s) {
            assert forall|i: int| 0 <= i < p.len() implies is_alnum(#[trigger] p[i]) || p[i] == '-' by {
                assert(p[i] == s[i]);
            }
        }
        if lower_ascii(s) {
            assert forall|i: int| 0 <= i < p.len() implies is_lower_ascii_char(#[trigger] p[i]) by {
                assert(p[i] == s[i]);
            }
        }
        if no_double_dash(s) {
            assert forall|i: int| 0 <= i < p.len() - 1 implies !(#[trigger] p[i] == '-' && p[i + 1]
                == '-') by {
                assert(p[i] == s[i] && p[i + 1] == s[i + 1]);
            }
        }
        if s.len() >= 2 && s.last() == '-' && s[s.len() - 2] == '-' {
            assert(p.last() == s[s.len() - 2]);
            if no_double_dash(s) {
                assert(!(s[s.len() - 2] == '-' && s[s.len() - 1] == '-'));
            }
        } else {
            let r = c.push(s.last());
            assert(r.last() == s.last());
            assert forall|i: int| 0 <= i < r.len() - 1 implies !(#[trigger] r[i] == '-' && r[i + 1]
                == '-') by {
                if i < c.len() - 1 {
                    assert(r[i] == c[i] && r[i + 1] == c[i + 1]);
                } else {
                    assert(r[i] == c.last());
                    assert(c.last() == p.last());
                    assert(p.last() == s[s.len() - 2]);
                }
            }
            if slug_alphabet(s) {
                assert forall|i: int| 0 <= i < r.len() implies is_alnum(#[trigger] r[i]) || r[i]
                    == '-' by {
                    if i < c.len() {
                        assert(r[i] == c[i]);
                    }
                }
            }
            if lower_ascii(s) {
                assert forall|i: int| 0 <= i < r.len() implies is_lower_ascii_char(#[trigger] r[i]) by {
                    if i < c.len() {
                        assert(r[i] == c[i]);
                    }
                }
            }
            if no_double_dash(s) {
                assert(r =~= s);
            }
        }
    }
}

/// Number of `-` that start `s`.
pub open spec fn leading_dashes(s: Seq<char>) -> nat
    decreases s.len(),
{
    if s.len() > 0 && s[0] == '-' {
        1 + leading_dashes(s.skip(1))
    } else {
        0
    }
}

/// Length of `s` without the `-` that end it.
pub open spec fn without_trailing_dashes(s: Seq<char>) -> nat
    decreases s.len(),
{
    if s.len() > 0 && s.last() == '-' {
        without_trailing_dashes(s.drop_last())
    } else {
        s.len()
    }
}

proof fn lemma_drop_leading_dashes(s: Seq<char>)
    ensures
        leading_dashes(s) <= s.len(),
        drop_repeated(s, seq!['-']) == s.skip(leading_dashes(s) as int),
        leading_dashes(s) < s.len() ==> s[leading_dashes(s) as int] != '-',
        (s.len() == 0 || s[0] != '-') ==> drop_repeated(s, seq!['-']) == s,
    decreases s.len(),
{
    if s.len() > 0 && s[0] == '-' {
        assert(s.subrange(0, 1) =~= seq!['-']);
        let t = s.skip(1);
        lemma_drop_leading_dashes(t);
        let k = leading_dashes(t) as int;
        assert(t.skip(k) =~= s.skip(k + 1));
        if k < t.len() {
            assert(s[k + 1] == t[k]);
        }
    } else {
        if s.len() > 0 {
            assert(s.subrange(0, 1)[0] == s[0]);
        }
        assert(drop_repeated(s, seq!['-']) == s);
        assert(s.skip(0) =~= s);
    }
}

proof fn lemma_drop_trailing_dashes(s: Seq<char>)
    ensures
        without_trailing_dashes(s) <= s.len(),
        drop_trailing(s, '-') == s.take(without_trailing_dashes(s) as int),
        without_trailing_dashes(s) > 0 ==> s[without_trailing_dashes(s) - 1] != '-',
        (s.len() == 0 || s.last() != '-') ==> drop_trailing(s, '-') == s,
    decreases s.len(),
{
    if s.len() > 0 && s.last() == '-' {
        let p = s.drop_last();
        lemma_drop_trailing_dashes(p);
        let m = without_trailing_dashes(p) as int;
        assert(p.take(m) =~= s.take(m));
        if m > 0 {
            assert(p[m - 1] == s[m - 1]);
        }
    } else {
        assert(s.take(s.len() as int) =~= s);
    }
}

/// A slug holds only letters, digits and single `-` between them.
proof fn lemma_slug_shape(title: Seq<char>)
    ensures
        slug_alphabet(slug(title)),
        no_double_dash(slug(title)),
        slug(title).len() > 0 ==> slug(title)[0] != '-' && slug(title).last() != '-',
{
    let m = slug_chars(lowercase(title));
    assert(slug_alphabet(m)) by {
        assert forall|i: int| 0 <= i < m.len() implies is_alnum(#[trigger] m[i]) || m[i] == '-' by {
        }
    }
    lemma_collapse(m);
    let c = collapse_dashes(m);
    lemma_drop_leading_dashes(c);
    let k = leading_dashes(c) as int;
    let d = c.skip(k);
    lemma_drop_trailing_dashes(d);
    let n = without_trailing_dashes(d) as int;
    let u = d.take(n);
    assert(slug(title) == u);
    assert forall|i: int| 0 <= i < u.len() implies is_alnum(#[trigger] u[i]) || u[i] == '-' by {
        assert(u[i] == c[i + k]);
    }
    assert forall|i: int| 0 <= i < u.len() - 1 implies !(#[trigger] u[i] == '-' && u[i + 1] == '-') by {
        assert(u[i] == c[i + k] && u[i + 1] == c[i + k + 1]);
    }
    if u.len() > 0 {
        assert(u[0] == d[0]);
    }
}

/// A slug is its own slug, where lower-casing it changes nothing (as for a
/// slug of ASCII letters, digits and `-`).
pub proof fn law_slug_idempotent(title: Seq<char>)
    requires
        lowercase(slug(title)) == slug(title),
    ensures
        slug(slug(title)) == slug(title),
{
    let u = slug(title);
    lemma_slug_shape(title);
    assert(slug_chars(u) =~= u) by {
        assert forall|i: int| 0 <= i < u.len() implies slug_chars(u)[i] == u[i] by {
            if u[i] == '-' {
                assert(!is_alnum('-'));
            }
        }
    }
    lemma_collapse(u);
    lemma_drop_leading_dashes(u);
    lemma_drop_trailing_dashes(u);
}

/// Whether `c` is ASCII and no capital letter.
pub open spec fn is_lower_ascii_char(c: char) -> bool {
    is_ascii_char(c) && !('A' <= c && c <= 'Z')
}

/// Whether every character of `s` is ASCII and no capital letter.
pub open spec fn lower_ascii(s: Seq<char>) -> bool {
    forall|i: int| 0 <= i < s.len() ==> is_lower_ascii_char(#[trigger] s[i])
}

proof fn lemma_ascii_lower_is_lower(t: Seq<char>)
    requires
        is_ascii_text(t),
    ensures
        lower_ascii(ascii_lower(t)),
{
    assert forall|i: int| 0 <= i < ascii_lower(t).len() implies is_lower_ascii_char(
        #[trigger] ascii_lower(t)[i],
    ) by {
        assert(is_ascii_char(t[i]));
        let c = t[i];
        if 'A' <= c && c <= 'Z' {
            let u = (c as u32) + 32;
            assert(97 <= u <= 122);
            assert(ascii_lower(t)[i] == (u as char));
        }
    }
}

proof fn lemma_lower_ascii_fixed(s: Seq<char>)
    requires
        lower_ascii(s),
    ensures
        is_ascii_text(s),
        ascii_lower(s) == s,
{
    assert(ascii_lower(s) =~= s);
}

/// The slug of a title that lower-cases to ASCII is ASCII without capitals.
proof fn lemma_slug_lower_ascii(title: Seq<char>)
    requires
        lower_ascii(lowercase(title)),
    ensures
        lower_ascii(slug(title)),
{
    let m = slug_chars(lowercase(title));
    assert(lower_ascii(m)) by {
        assert forall|i: int| 0 <= i < m.len() implies is_lower_ascii_char(#[trigger] m[i]) by {
            assert(is_lower_ascii_char(lowercase(title)[i]));
        }
    }
    lemma_collapse(m);
    let c = collapse_dashes(m);
    lemma_drop_leading_dashes(c);
    let k = leading_dashes(c) as int;
    let d = c.skip(k);
    lemma_drop_trailing_dashes(d);
    let n = without_trailing_dashes(d) as int;
    let u = d.take(n);
    assert(slug(title) == u);
    assert forall|i: int| 0 <= i < u.len() implies is_lower_ascii_char(#[trigger] u[i]) by {
        assert(u[i] == c[i + k]);
    }
}

} // verus!
