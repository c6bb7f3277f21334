//! Search across project titles, task titles and notes, idea titles and idea
//! notes, case-insensitively, with a snippet of the text around each match.

use vstd::prelude::*;
use vstd::string::{StringExecFns, StringSliceAdditionalSpecFns};
use vstd::utf8::{
    decode_utf8, encode_utf8, encode_utf8_decode_utf8, encode_utf8_valid_utf8, is_char_boundary,
    is_char_boundary_iff_not_is_continuation_byte, is_char_boundary_start_end_of_seq,
    valid_utf8, valid_utf8_split,
};
use crate::model::{Idea, IdeaView, Project, ProjectView, TaskView, idea_views, project_views};
use crate::text::{
    byte_find, chars_of, contains, join3, decimal, decimal_chars, find, lemma_find_contains, lowercase,
    push_chars, slice_of, string_of, to_lowercase, trim, trimmed,
};

verus! {

/// What a search result points at.
#[derive(Debug, Clone, Copy, PartialEq, Eq, Structural)]
pub enum SearchKind {
    Project,
    Task,
    Idea,
    IdeaNote,
}

/// One match of a search: what it is, a title, a snippet of the matching
/// text, and where the item is.
#[derive(Debug, Clone)]
pub struct SearchResult {
    pub kind: SearchKind,
    pub title: String,
    pub snippet: String,
    pub project_id: Option<u128>,
    pub idea_id: Option<u128>,
    pub task_id: Option<u128>,
    pub note_idx: Option<usize>,
}

/// A search result as the contracts see it.
pub struct SearchResultView {
    pub kind: SearchKind,
    pub title: Seq<char>,
    pub snippet: Seq<char>,
    pub project_id: Option<u128>,
    pub idea_id: Option<u128>,
    pub task_id: Option<u128>,
    pub note_idx: Option<usize>,
}

impl View for SearchResult {
    type V = SearchResultView;

    open spec fn view(&self) -> SearchResultView {
        SearchResultView {
            kind: self.kind,
            title: self.title@,
            snippet: self.snippet@,
            project_id: self.project_id,
            idea_id: self.idea_id,
            task_id: self.task_id,
            note_idx: self.note_idx,
        }
    }
}

/// The views of a list of results.
pub open spec fn result_views(v: Seq<SearchResult>) -> Seq<SearchResultView> {
    v.map_values(|r: SearchResult| r@)
}

/// The key that a query is matched by: trimmed, then lower-cased.
pub open spec fn query_key(query: Seq<char>) -> Seq<char> {
    lowercase(trim(query))
}

/// Whether the lower-cased `text` contains the key `q` (as bytes, as
/// `str::contains` compares).
pub open spec fn hits(text: Seq<char>, q: Seq<char>) -> bool {
    contains(encode_utf8(lowercase(text)), encode_utf8(q))
}

/// The byte range of `text` shown as the snippet for the key `q`: from 20
/// bytes before the first match in the lower-cased text to 40 bytes after it,
/// cut to the text.
pub open spec fn snippet_window(text: Seq<char>, q: Seq<char>) -> Option<(int, int)> {
    match find(encode_utf8(lowercase(text)), encode_utf8(q)) {
        Some(pos) => {
            let start = if pos >= 20 {
                pos - 20
            } else {
                0
            };
            let lim = pos + encode_utf8(q).len() + 40;
            let end = if lim <= encode_utf8(text).len() {
                lim
            } else {
                encode_utf8(text).len() as int
            };
            Some((start, end))
        },
        None => None,
    }
}

/// Whether the snippet's byte range can be cut out of `text` as a `str`
/// slice: it must start no later than it ends, on character boundaries
/// (slicing there otherwise panics).
pub open spec fn snippet_ok(text: Seq<char>, q: Seq<char>) -> bool {
    snippet_window(text, q) matches Some((a, b)) ==> a <= b && is_char_boundary(
        encode_utf8(text),
        a,
    ) && is_char_boundary(encode_utf8(text), b)
}

/// The ellipsis that marks cut text.
pub open spec fn ellipsis() -> Seq<char> {
    seq!['…']
}

/// The snippet of `text` for the key `q`: the window's text, with an
/// ellipsis where text was cut on either side; without a match, the first 60
/// characters.
pub open spec fn snippet(text: Seq<char>, q: Seq<char>) -> Seq<char> {
    match snippet_window(text, q) {
        Some((a, b)) => (if a > 0 {
            ellipsis()
        } else {
            seq![]
        }) + decode_utf8(encode_utf8(text).subrange(a, b)) + (if b < encode_utf8(text).len() {
            ellipsis()
        } else {
            seq![]
        }),
        None => if text.len() <= 60 {
            text
        } else {
            text.take(60)
        },
    }
}

/// The separator of a task's title from its project's.
pub open spec fn slash() -> Seq<char> {
    seq![' ', '/', ' ']
}

/// The first of the notes that the key hits.
pub open spec fn first_note_hit(notes: Seq<Seq<char>>, q: Seq<char>) -> Option<Seq<char>>
    decreases notes.len(),
{
    if notes.len() == 0 {
        None
    } else if hits(notes[0], q) {
        Some(notes[0])
    } else {
        first_note_hit(notes.drop_first(), q)
    }
}

/// The result for a project whose title the key hits.
pub open spec fn project_hit(p: ProjectView, q: Seq<char>) -> Seq<SearchResultView> {
    if hits(p.title, q) {
        seq![
            SearchResultView {
                kind: SearchKind::Project,
                title: p.title,
                snippet: snippet(p.title, q),
                project_id: Some(p.id),
                idea_id: None,
                task_id: None,
                note_idx: None,
            },
        ]
    } else {
        seq![]
    }
}

/// The result for a task whose title or one of whose notes the key hits.
pub open spec fn task_hit(p: ProjectView, t: TaskView, q: Seq<char>) -> Seq<SearchResultView> {
    if hits(t.title, q) || first_note_hit(t.notes, q) is Some {
        seq![
            SearchResultView {
                kind: SearchKind::Task,
                title: p.title + slash() + t.title,
                snippet: if hits(t.title, q) {
                    snippet(t.title, q)
                } else {
                    snippet(first_note_hit(t.notes, q)->0, q)
                },
                project_id: Some(p.id),
                idea_id: None,
                task_id: Some(t.id),
                note_idx: None,
            },
        ]
    } else {
        seq![]
    }
}

/// The results for the tasks `ts` of project `p`, in order.
pub open spec fn task_hits(p: ProjectView, ts: Seq<TaskView>, q: Seq<char>) -> Seq<
    SearchResultView,
>
    decreases ts.len(),
{
    if ts.len() == 0 {
        seq![]
    } else {
        task_hits(p, ts.drop_last(), q) + task_hit(p, ts.last(), q)
    }
}

/// The results for projects: each project's own result, then its tasks'.
pub open spec fn project_results(ps: Seq<ProjectView>, q: Seq<char>) -> Seq<SearchResultView>
    decreases ps.len(),
{
    if ps.len() == 0 {
        seq![]
    } else {
        project_results(ps.drop_last(), q) + project_hit(ps.last(), q) + task_hits(
            ps.last(),
            ps.last().tasks,
            q,
        )
    }
}

/// The title of the result for note `k` (counted from 0) of an idea:
/// `title / note n` with `n = k + 1`.
pub open spec fn note_title(title: Seq<char>, k: int) -> Seq<char> {
    title + seq![' ', '/', ' ', 'n', 'o', 't', 'e', ' '] + decimal((k + 1) as nat)
}

/// The result for an idea whose title the key hits.
pub open spec fn idea_hit(i: IdeaView, q: Seq<char>) -> Seq<SearchResultView> {
    if hits(i.title, q) {
        seq![
            SearchResultView {
                kind: SearchKind::Idea,
                title: i.title,
                snippet: snippet(i.title, q),
                project_id: None,
                idea_id: Some(i.id),
                task_id: None,
                note_idx: None,
            },
        ]
    } else {
        seq![]
    }
}

/// The results for the first `k` notes of idea `i`.
pub open spec fn note_hits(i: IdeaView, k: int, q: Seq<char>) -> Seq<SearchResultView>
    decreases k,
{
    if k <= 0 {
        seq![]
    } else {
        note_hits(i, k - 1, q) + if hits(i.notes[k - 1], q) {
            seq![
                SearchResultView {
                    kind: SearchKind::IdeaNote,
                    title: note_title(i.title, k - 1),
                    snippet: snippet(i.notes[k - 1], q),
                    project_id: None,
                    idea_id: Some(i.id),
                    task_id: None,
                    note_idx: Some((k - 1) as usize),
                },
            ]
        } else {
            seq![]
        }
    }
}

/// The results for ideas: each idea's own result, then its notes'.
pub open spec fn idea_results(is: Seq<IdeaView>, q: Seq<char>) -> Seq<SearchResultView>
    decreases is.len(),
{
    if is.len() == 0 {
        seq![]
    } else {
        idea_results(is.drop_last(), q) + idea_hit(is.last(), q) + note_hits(
            is.last(),
            is.last().notes.len() as int,
            q,
        )
    }
}

/// The results of searching for `query`: none for a blank query; otherwise
/// those for the projects and their tasks, then those for the ideas and
/// their notes.
pub open spec fn search(ps: Seq<ProjectView>, is: Seq<IdeaView>, query: Seq<char>) -> Seq<
    SearchResultView,
> {
    let q = query_key(query);
    if q.len() == 0 {
        seq![]
    } else {
        project_results(ps, q) + idea_results(is, q)
    }
}

/// Whether every snippet that the search cuts can be cut (see `snippet_ok`).
pub open spec fn search_ok(ps: Seq<ProjectView>, is: Seq<IdeaView>, query: Seq<char>) -> bool {
    let q = query_key(query);
    q.len() > 0 ==> {
        &&& forall|i: int| 0 <= i < ps.len() && hits(#[trigger] ps[i].title, q) ==> snippet_ok(ps[i].title, q)
        &&& forall|i: int, j: int|
            0 <= i < ps.len() && 0 <= j < ps[i].tasks.len() ==> #[trigger] task_ok(ps[i].tasks[j], q)
        &&& forall|i: int| 0 <= i < is.len() && hits(#[trigger] is[i].title, q) ==> snippet_ok(is[i].title, q)
        &&& forall|i: int, j: int|
            0 <= i < is.len() && 0 <= j < is[i].notes.len() && hits(#[trigger] is[i].notes[j], q)
                ==> snippet_ok(is[i].notes[j], q)
    }
}

/// Whether the snippet of a task's result can be cut.
pub open spec fn task_ok(t: TaskView, q: Seq<char>) -> bool {
    if hits(t.title, q) {
        snippet_ok(t.title, q)
    } else {
        first_note_hit(t.notes, q) matches Some(n) ==> snippet_ok(n, q)
    }
}

/// Whether the lower-cased `text` contains the bytes of `q`.
fn text_hits(text: &str, q: &str) -> (r: bool)
    ensures
        r == hits(text@, q@),
{
    let lower = to_lowercase(text);
    let r = byte_find(lower.as_str().as_bytes(), q.as_bytes());
    proof {
        lemma_find_contains(encode_utf8(lowercase(text@)), encode_utf8(q@));
    }
    r.is_some()
}

proof fn lemma_boundary_in_tail(bytes: Seq<u8>, a: int, b: int)
    requires
        valid_utf8(bytes),
        0 <= a <= b <= bytes.len(),
        is_char_boundary(bytes, a),
        is_char_boundary(bytes, b),
    ensures
        valid_utf8(bytes.subrange(a, bytes.len() as int)),
        is_char_boundary(bytes.subrange(a, bytes.len() as int), b - a),
{
    valid_utf8_split(bytes, a);
    let tail = bytes.subrange(a, bytes.len() as int);
    if b == a {
    } else if b == bytes.len() {
        is_char_boundary_start_end_of_seq(tail);
    } else {
        is_char_boundary_iff_not_is_continuation_byte(bytes, b);
        is_char_boundary_iff_not_is_continuation_byte(tail, b - a);
        assert(tail[b - a] == bytes[b]);
    }
}

/// The snippet of `text` around the first match of the key `q`.
pub fn snippet_for(text: &str, q: &str) -> (r: String)
    requires
        snippet_ok(text@, q@),
    ensures
        r@ == snippet(text@, q@),
{
    let lower = to_lowercase(text);
    let tb = text.as_bytes();
    let qb = q.as_bytes();
    let lb = lower.as_str().as_bytes();
    let lbn = lb.len();
    match byte_find(lb, qb) {
        Some(pos) => {
            proof {
                lemma_find_contains(encode_utf8(lowercase(text@)), encode_utf8(q@));
                assert(pos + qb@.len() <= lbn);
            }
            let start = if pos >= 20 {
                pos - 20
            } else {
                0
            };
            let lim = pos + qb.len();
            let end = if lim <= tb.len() && tb.len() - lim >= 40 {
                lim + 40
            } else {
                tb.len()
            };
            proof {
                encode_utf8_valid_utf8(text@);
                lemma_boundary_in_tail(encode_utf8(text@), start as int, end as int);
            }
            let (_head, tail) = text.split_at(start);
            let (mid, _rest) = tail.split_at(end - start);
            proof {
                let bytes = encode_utf8(text@);
                assert(tail.spec_bytes() =~= bytes.subrange(start as int, bytes.len() as int));
                assert(mid.spec_bytes() =~= bytes.subrange(start as int, end as int));
                encode_utf8_decode_utf8(mid@);
                reveal_strlit("…");
            }
            let mut s = String::new();
            if start > 0 {
                s.append("…");
            }
            s.append(mid);
            if end < tb.len() {
                s.append("…");
            }
            s
        },
        None => {
            let v = chars_of(text);
            let n = if v.len() <= 60 {
                v.len()
            } else {
                60
            };
            let head = slice_of(v.as_slice(), 0, n);
            proof {
                if v@.len() <= 60 {
                    assert(head@ =~= text@);
                } else {
                    assert(head@ =~= text@.take(60));
                }
            }
            string_of(head.as_slice())
        },
    }
}

/// The results for one project and its tasks.
fn search_project(p: &Project, q: &str) -> (r: Vec<SearchResult>)
    requires
        q@.len() > 0,
        hits(p@.title, q@) ==> snippet_ok(p@.title, q@),
        forall|j: int| 0 <= j < p@.tasks.len() ==> #[trigger] task_ok(p@.tasks[j], q@),
    ensures
        result_views(r@) == project_hit(p@, q@) + task_hits(p@, p@.tasks, q@),
{
    let mut out: Vec<SearchResult> = Vec::new();
    if text_hits(p.title.as_str(), q) {
        out.push(
            SearchResult {
                kind: SearchKind::Project,
                title: p.title.clone(),
                snippet: snippet_for(p.title.as_str(), q),
                project_id: Some(p.id),
                idea_id: None,
                task_id: None,
                note_idx: None,
            },
        );
    }
    let ghost head = result_views(out@);
    assert(head =~= project_hit(p@, q@));
    let sep: Vec<char> = vec![' ', '/', ' '];
    let mut j: usize = 0;
    while j < p.tasks.len()
        invariant
            j <= p.tasks@.len(),
            q@.len() > 0,
            sep@ == slash(),
            forall|k: int| 0 <= k < p@.tasks.len() ==> #[trigger] task_ok(p@.tasks[k], q@),
            result_views(out@) == head + task_hits(p@, p@.tasks.take(j as int), q@),
        decreases p.tasks@.len() - j,
    {
        let t = &p.tasks[j];
        assert(t@ == p@.tasks[j as int]);
        assert(task_ok(p@.tasks[j as int], q@));
        let title_hit = text_hits(t.title.as_str(), q);
        let mut note_hit: Option<usize> = None;
        let mut k: usize = 0;
        proof {
            assert(t@.notes.skip(0) =~= t@.notes);
        }
        while k < t.notes.len() && note_hit.is_none()
            invariant
                k <= t.notes@.len(),
                note_hit is None ==> first_note_hit(t@.notes, q@) == first_note_hit(
                    t@.notes.skip(k as int),
                    q@,
                ),
                note_hit matches Some(n) ==> n < t.notes@.len() && first_note_hit(t@.notes, q@)
                    == Some(t.notes@[n as int]@),
            decreases t.notes@.len() - k + (if note_hit is None {
                1int
            } else {
                0int
            }),
        {
            proof {
                let s = t@.notes.skip(k as int);
                assert(s[0] == t.notes@[k as int]@);
                assert(s.drop_first() =~= t@.notes.skip(k + 1));
            }
            if text_hits(t.notes[k].as_str(), q) {
                note_hit = Some(k);
            } else {
                k = k + 1;
            }
        }
        proof {
            if note_hit is None {
                assert(t@.notes.skip(t.notes@.len() as int).len() == 0);
            }
        }
        let ghost before = out@;
        if title_hit || note_hit.is_some() {
            let snip = if title_hit {
                snippet_for(t.title.as_str(), q)
            } else {
                let n = note_hit.unwrap();
                snippet_for(t.notes[n].as_str(), q)
            };
            let title = join3(p.title.as_str(), sep.as_slice(), t.title.as_str());
            out.push(
                SearchResult {
                    kind: SearchKind::Task,
                    title,
                    snippet: snip,
                    project_id: Some(p.id),
                    idea_id: None,
                    task_id: Some(t.id),
                    note_idx: None,
                },
            );
        }
        proof {
            let ts = p@.tasks.take(j + 1);
            assert(ts.drop_last() =~= p@.tasks.take(j as int));
            assert(ts.last() == t@);
            assert(result_views(out@) =~= result_views(before) + task_hit(p@, t@, q@));
        }
        j = j + 1;
    }
    proof {
        assert(p@.tasks.take(p.tasks@.len() as int) =~= p@.tasks);
    }
    out
}

/// The results for one idea and its notes.
fn search_idea(i: &Idea, q: &str) -> (r: Vec<SearchResult>)
    requires
        q@.len() > 0,
        hits(i@.title, q@) ==> snippet_ok(i@.title, q@),
        forall|j: int| 0 <= j < i@.notes.len() && hits(#[trigger] i@.notes[j], q@) ==> snippet_ok(i@.notes[j], q@),
    ensures
        result_views(r@) == idea_hit(i@, q@) + note_hits(i@, i@.notes.len() as int, q@),
{
    let mut out: Vec<SearchResult> = Vec::new();
    if text_hits(i.title.as_str(), q) {
        out.push(
            SearchResult {
                kind: SearchKind::Idea,
                title: i.title.clone(),
                snippet: snippet_for(i.title.as_str(), q),
                project_id: None,
                idea_id: Some(i.id),
                task_id: None,
                note_idx: None,
            },
        );
    }
    let ghost head = result_views(out@);
    assert(head =~= idea_hit(i@, q@));
    let label: Vec<char> = vec![' ', '/', ' ', 'n', 'o', 't', 'e', ' '];
    let mut k: usize = 0;
    while k < i.notes.len()
        invariant
            k <= i.notes@.len(),
            q@.len() > 0,
            label@ == seq![' ', '/', ' ', 'n', 'o', 't', 'e', ' '],
            forall|j: int|
                0 <= j < i@.notes.len() && hits(#[trigger] i@.notes[j], q@) ==> snippet_ok(i@.notes[j], q@),
            result_views(out@) == head + note_hits(i@, k as int, q@),
        decreases i.notes@.len() - k,
    {
        assert(k + 1 <= i.notes@.len());
        assert(i@.notes[k as int] == i.notes@[k as int]@);
        let ghost before = out@;
        if text_hits(i.notes[k].as_str(), q) {
            let num = decimal_chars(k + 1);
            let mut tv = chars_of(i.title.as_str());
            push_chars(&mut tv, label.as_slice());
            push_chars(&mut tv, num.as_slice());
            proof {
                assert(tv@ =~= note_title(i@.title, k as int));
            }
            out.push(
                SearchResult {
                    kind: SearchKind::IdeaNote,
                    title: string_of(tv.as_slice()),
                    snippet: snippet_for(i.notes[k].as_str(), q),
                    project_id: None,
                    idea_id: Some(i.id),
                    task_id: None,
                    note_idx: Some(k),
                },
            );
        }
        proof {
            let extra = if hits(i@.notes[k as int], q@) {
                seq![
                    SearchResultView {
                        kind: SearchKind::IdeaNote,
                        title: note_title(i@.title, k as int),
                        snippet: snippet(i@.notes[k as int], q@),
                        project_id: None,
                        idea_id: Some(i.id),
                        task_id: None,
                        note_idx: Some(k),
                    },
                ]
            } else {
                seq![]
            };
            assert(note_hits(i@, k + 1, q@) == note_hits(i@, k as int, q@) + extra);
            assert(result_views(out@) =~= result_views(before) + extra);
            assert(result_views(out@) =~= head + note_hits(i@, k + 1, q@));
        }
        k = k + 1;
    }
    proof {
        assert(i@.notes.len() == i.notes@.len());
    }
    out
}

/// Searches projects, tasks and ideas for `query` as `search` describes.
pub fn compute_search(projects: &[Project], ideas: &[Idea], query: &str) -> (r: Vec<SearchResult>)
    requires
        search_ok(project_views(projects@), idea_views(ideas@), query@),
    ensures
        result_views(r@) == search(project_views(projects@), idea_views(ideas@), query@),
{
    let t = trimmed(query);
    let q = to_lowercase(t.as_str());
    let ghost ps = project_views(projects@);
    let ghost is = idea_views(ideas@);
    if q.as_str().is_empty() {
        let out: Vec<SearchResult> = Vec::new();
        assert(result_views(out@) =~= Seq::<SearchResultView>::empty());
        return out;
    }
    let qs = q.as_str();
    let mut out: Vec<SearchResult> = Vec::new();
    let mut i: usize = 0;
    while i < projects.len()
        invariant
            i <= projects@.len(),
            ps == project_views(projects@),
            qs@ == query_key(query@),
            qs@.len() > 0,
            search_ok(ps, is, query@),
            result_views(out@) == project_results(ps.take(i as int), qs@),
        decreases projects@.len() - i,
    {
        let p = &projects[i];
        assert(p@ == ps[i as int]);
        proof {
            assert forall|j: int| 0 <= j < p@.tasks.len() implies #[trigger] task_ok(p@.tasks[j], qs@) by {
                assert(task_ok(ps[i as int].tasks[j], qs@));
            }
        }
        let mut found = search_project(p, qs);
        let ghost before = out@;
        let ghost fv = found@;
        out.append(&mut found);
        proof {
            assert(result_views(out@) =~= result_views(before) + result_views(fv));
        }
        proof {
            let pp = ps.take(i + 1);
            assert(pp.drop_last() =~= ps.take(i as int));
        }
        i = i + 1;
    }
    proof {
        assert(ps.take(projects@.len() as int) =~= ps);
    }
    let ghost pr = out@;
    let mut i: usize = 0;
    while i < ideas.len()
        invariant
            i <= ideas@.len(),
            is == idea_views(ideas@),
            qs@ == query_key(query@),
            qs@.len() > 0,
            search_ok(ps, is, query@),
            result_views(out@) == result_views(pr) + idea_results(is.take(i as int), qs@),
        decreases ideas@.len() - i,
    {
        let idea = &ideas[i];
        assert(idea@ == is[i as int]);
        proof {
            assert forall|j: int| 0 <= j < idea@.notes.len() && hits(#[trigger] idea@.notes[j], qs@) implies snippet_ok(idea@.notes[j], qs@) by {
                assert(hits(is[i as int].notes[j], qs@));
            }
        }
        let mut found = search_idea(idea, qs);
        let ghost before = out@;
        let ghost fv = found@;
        out.append(&mut found);
        proof {
            assert(result_views(out@) =~= result_views(before) + result_views(fv));
            let pp = is.take(i + 1);
            assert(pp.drop_last() =~= is.take(i as int));
        }
        i = i + 1;
    }
    proof {
        assert(is.take(ideas@.len() as int) =~= is);
    }
    out
}

/// Checks `snippet_ok`.
pub fn snippet_is_ok(text: &str, q: &str) -> (r: bool)
    ensures
        r == snippet_ok(text@, q@),
{
    let lower = to_lowercase(text);
    let tb = text.as_bytes();
    let qb = q.as_bytes();
    let lb = lower.as_str().as_bytes();
    let lbn = lb.len();
    match byte_find(lb, qb) {
        Some(pos) => {
            proof {
                lemma_find_contains(encode_utf8(lowercase(text@)), encode_utf8(q@));
                assert(pos + qb@.len() <= lbn);
            }
            let start = if pos >= 20 {
                pos - 20
            } else {
                0
            };
            let lim = pos + qb.len();
            let end = if lim <= tb.len() && tb.len() - lim >= 40 {
                lim + 40
            } else {
                tb.len()
            };
            start <= end && text.is_char_boundary(start) && text.is_char_boundary(end)
        },
        None => true,
    }
}

/// Checks `task_ok`.
fn task_is_ok(t: &crate::model::Task, q: &str) -> (r: bool)
    ensures
        r == task_ok(t@, q@),
{
    if text_hits(t.title.as_str(), q) {
        return snippet_is_ok(t.title.as_str(), q);
    }
    let mut k: usize = 0;
    proof {
        assert(t@.notes.skip(0) =~= t@.notes);
    }
    while k < t.notes.len()
        invariant
            k <= t.notes@.len(),
            !hits(t@.title, q@),
            first_note_hit(t@.notes, q@) == first_note_hit(t@.notes.skip(k as int), q@),
        decreases t.notes@.len() - k,
    {
        proof {
            let s = t@.notes.skip(k as int);
            assert(s[0] == t.notes@[k as int]@);
            assert(s.drop_first() =~= t@.notes.skip(k + 1));
        }
        if text_hits(t.notes[k].as_str(), q) {
            assert(first_note_hit(t@.notes.skip(k as int), q@) == Some(t.notes@[k as int]@));
            let r = snippet_is_ok(t.notes[k].as_str(), q);
            assert(!hits(t@.title, q@));
            assert(r == task_ok(t@, q@));
            return r;
        }
        k = k + 1;
    }
    proof {
        assert(t@.notes.skip(t.notes@.len() as int).len() == 0);
    }
    true
}

/// Checks `search_ok`: whether searching for `query` cuts only snippets that
/// can be cut.
pub fn search_is_ok(projects: &[Project], ideas: &[Idea], query: &str) -> (r: bool)
    ensures
        r == search_ok(project_views(projects@), idea_views(ideas@), query@),
{
    let t = trimmed(query);
    let q = to_lowercase(t.as_str());
    if q.as_str().is_empty() {
        return true;
    }
    let qs = q.as_str();
    let ghost ps = project_views(projects@);
    let ghost is = idea_views(ideas@);
    let mut i: usize = 0;
    while i < projects.len()
        invariant
            i <= projects@.len(),
            ps == project_views(projects@),
            qs@ == query_key(query@),
            qs@.len() > 0,
            forall|a: int| 0 <= a < i && hits(#[trigger] ps[a].title, qs@) ==> snippet_ok(ps[a].title, qs@),
            forall|a: int, b: int|
                0 <= a < i && 0 <= b < ps[a].tasks.len() ==> #[trigger] task_ok(ps[a].tasks[b], qs@),
        decreases projects@.len() - i,
    {
        let p = &projects[i];
        assert(p@ == ps[i as int]);
        if text_hits(p.title.as_str(), qs) && !snippet_is_ok(p.title.as_str(), qs) {
            assert(hits(ps[i as int].title, qs@));
            return false;
        }
        let mut j: usize = 0;
        while j < p.tasks.len()
            invariant
                i < projects@.len(),
                ps == project_views(projects@),
                qs@ == query_key(query@),
                qs@.len() > 0,
                p@ == ps[i as int],
                j <= p.tasks@.len(),
                forall|b: int| 0 <= b < j ==> #[trigger] task_ok(ps[i as int].tasks[b], qs@),
            decreases p.tasks@.len() - j,
        {
            assert(p.tasks@[j as int]@ == ps[i as int].tasks[j as int]);
            if !task_is_ok(&p.tasks[j], qs) {
                assert(!task_ok(ps[i as int].tasks[j as int], qs@));
                return false;
            }
            j = j + 1;
        }
        i = i + 1;
    }
    let mut i: usize = 0;
    while i < ideas.len()
        invariant
            i <= ideas@.len(),
            is == idea_views(ideas@),
            qs@ == query_key(query@),
            qs@.len() > 0,
            forall|a: int| 0 <= a < i && hits(#[trigger] is[a].title, qs@) ==> snippet_ok(is[a].title, qs@),
            forall|a: int, b: int|
                0 <= a < i && 0 <= b < is[a].notes.len() && hits(#[trigger] is[a].notes[b], qs@)
                    ==> snippet_ok(is[a].notes[b], qs@),
        decreases ideas@.len() - i,
    {
        let idea = &ideas[i];
        assert(idea@ == is[i as int]);
        if text_hits(idea.title.as_str(), qs) && !snippet_is_ok(idea.title.as_str(), qs) {
            assert(hits(is[i as int].title, qs@));
            return false;
        }
        let mut j: usize = 0;
        while j < idea.notes.len()
            invariant
                i < ideas@.len(),
                is == idea_views(ideas@),
                qs@ == query_key(query@),
                qs@.len() > 0,
                idea@ == is[i as int],
                j <= idea.notes@.len(),
                forall|b: int|
                    0 <= b < j && hits(#[trigger] is[i as int].notes[b], qs@) ==> snippet_ok(
                        is[i as int].notes[b],
                        qs@,
                    ),
            decreases idea.notes@.len() - j,
        {
            assert(idea.notes@[j as int]@ == is[i as int].notes[j as int]);
            if text_hits(idea.notes[j].as_str(), qs) && !snippet_is_ok(idea.notes[j].as_str(), qs) {
                assert(hits(is[i as int].notes[j as int], qs@));
                return false;
            }
            j = j + 1;
        }
        i = i + 1;
    }
    true
}

// ---------------------------------------------------------------------------
// Where results point.

/// Whether a result points at an item of the lists: a project result at a
/// project with its id; a task result at a project with its project id that
/// has a task with its task id; an idea result at an idea with its id; a
/// note result at an idea with its id that has a note at its index.
pub open spec fn points_into(r: SearchResultView, ps: Seq<ProjectView>, is: Seq<IdeaView>) -> bool {
    match r.kind {
        SearchKind::Project => exists|i: int| 0 <= i < ps.len() && r.project_id == Some(#[trigger] ps[i].id),
        SearchKind::Task => exists|i: int, j: int|
            0 <= i < ps.len() && 0 <= j < ps[i].tasks.len() && r.project_id == Some(
                #[trigger] ps[i].id,
            ) && r.task_id == Some(#[trigger] ps[i].tasks[j].id),
        SearchKind::Idea => exists|i: int| 0 <= i < is.len() && r.idea_id == Some(#[trigger] is[i].id),
        SearchKind::IdeaNote => exists|i: int|
            0 <= i < is.len() && r.idea_id == Some(#[trigger] is[i].id) && (r.note_idx matches Some(
                n,
            ) && n < is[i].notes.len()),
    }
}

proof fn lemma_task_hits_point(ps: Seq<ProjectView>, i: int, m: int, q: Seq<char>)
    requires
        0 <= i < ps.len(),
        0 <= m <= ps[i].tasks.len(),
    ensures
        forall|k: int|
            0 <= k < task_hits(ps[i], ps[i].tasks.take(m), q).len() ==> #[trigger] task_hits(
                ps[i],
                ps[i].tasks.take(m),
                q,
            )[k].kind == SearchKind::Task && points_into(
                task_hits(ps[i], ps[i].tasks.take(m), q)[k],
                ps,
                seq![],
            ),
    decreases m,
{
    if m > 0 {
        let ts = ps[i].tasks.take(m);
        assert(ts.drop_last() =~= ps[i].tasks.take(m - 1));
        lemma_task_hits_point(ps, i, m - 1, q);
        let prev = task_hits(ps[i], ps[i].tasks.take(m - 1), q);
        let last = task_hit(ps[i], ts.last(), q);
        assert(task_hits(ps[i], ts, q) == prev + last);
        assert forall|k: int| 0 <= k < (prev + last).len() implies #[trigger] (prev + last)[k].kind
            == SearchKind::Task && points_into((prev + last)[k], ps, seq![]) by {
            if k >= prev.len() {
                assert((prev + last)[k] == last[k - prev.len()]);
                assert(ts.last() == ps[i].tasks[m - 1]);
                let r = last[k - prev.len()];
                assert(r.project_id == Some(ps[i].id) && r.task_id == Some(ps[i].tasks[m - 1].id));
            } else {
                assert((prev + last)[k] == prev[k]);
            }
        }
    }
}

proof fn lemma_project_results_point(ps: Seq<ProjectView>, n: int, q: Seq<char>)
    requires
        0 <= n <= ps.len(),
    ensures
        forall|k: int|
            0 <= k < project_results(ps.take(n), q).len() ==> {
                let r = #[trigger] project_results(ps.take(n), q)[k];
                (r.kind == SearchKind::Project || r.kind == SearchKind::Task) && points_into(
                    r,
                    ps,
                    seq![],
                )
            },
    decreases n,
{
    if n > 0 {
        let pn = ps.take(n);
        assert(pn.drop_last() =~= ps.take(n - 1));
        assert(pn.last() == ps[n - 1]);
        lemma_project_results_point(ps, n - 1, q);
        lemma_task_hits_point(ps, n - 1, ps[n - 1].tasks.len() as int, q);
        assert(ps[n - 1].tasks.take(ps[n - 1].tasks.len() as int) =~= ps[n - 1].tasks);
        let a = project_results(ps.take(n - 1), q);
        let b = project_hit(ps[n - 1], q);
        let c = task_hits(ps[n - 1], ps[n - 1].tasks, q);
        assert(project_results(pn, q) == a + b + c);
        assert forall|k: int| 0 <= k < (a + b + c).len() implies {
            let r = #[trigger] (a + b + c)[k];
            (r.kind == SearchKind::Project || r.kind == SearchKind::Task) && points_into(r, ps, seq![])
        } by {
            if k < a.len() {
                assert((a + b + c)[k] == a[k]);
            } else if k < a.len() + b.len() {
                assert((a + b + c)[k] == b[k - a.len()]);
                assert(b[k - a.len()].project_id == Some(ps[n - 1].id));
            } else {
                assert((a + b + c)[k] == c[k - a.len() - b.len()]);
            }
        }
    }
}

proof fn lemma_note_hits_point(is: Seq<IdeaView>, i: int, m: int, q: Seq<char>)
    requires
        0 <= i < is.len(),
        0 <= m <= is[i].notes.len(),
    ensures
        forall|k: int|
            0 <= k < note_hits(is[i], m, q).len() ==> #[trigger] note_hits(is[i], m, q)[k].kind
                == SearchKind::IdeaNote && points_into(note_hits(is[i], m, q)[k], seq![], is),
    decreases m,
{
    if m > 0 {
        lemma_note_hits_point(is, i, m - 1, q);
        let prev = note_hits(is[i], m - 1, q);
        let last = if hits(is[i].notes[m - 1], q) {
            seq![
                SearchResultView {
                    kind: SearchKind::IdeaNote,
                    title: note_title(is[i].title, m - 1),
                    snippet: snippet(is[i].notes[m - 1], q),
                    project_id: None,
                    idea_id: Some(is[i].id),
                    task_id: None,
                    note_idx: Some((m - 1) as usize),
                },
            ]
        } else {
            seq![]
        };
        assert(note_hits(is[i], m, q) == prev + last);
        assert forall|k: int| 0 <= k < (prev + last).len() implies #[trigger] (prev + last)[k].kind
            == SearchKind::IdeaNote && points_into((prev + last)[k], seq![], is) by {
            if k >= prev.len() {
                assert((prev + last)[k] == last[k - prev.len()]);
            } else {
                assert((prev + last)[k] == prev[k]);
            }
        }
    }
}

proof fn lemma_idea_results_point(is: Seq<IdeaView>, n: int, q: Seq<char>)
    requires
        0 <= n <= is.len(),
    ensures
        forall|k: int|
            0 <= k < idea_results(is.take(n), q).len() ==> {
                let r = #[trigger] idea_results(is.take(n), q)[k];
                (r.kind == SearchKind::Idea || r.kind == SearchKind::IdeaNote) && points_into(
                    r,
                    seq![],
                    is,
                )
            },
    decreases n,
{
    if n > 0 {
        let in_ = is.take(n);
        assert(in_.drop_last() =~= is.take(n - 1));
        assert(in_.last() == is[n - 1]);
        lemma_idea_results_point(is, n - 1, q);
        lemma_note_hits_point(is, n - 1, is[n - 1].notes.len() as int, q);
        let a = idea_results(is.take(n - 1), q);
        let b = idea_hit(is[n - 1], q);
        let c = note_hits(is[n - 1], is[n - 1].notes.len() as int, q);
        assert(idea_results(in_, q) == a + b + c);
        assert forall|k: int| 0 <= k < (a + b + c).len() implies {
            let r = #[trigger] (a + b + c)[k];
            (r.kind == SearchKind::Idea || r.kind == SearchKind::IdeaNote) && points_into(r, seq![], is)
        } by {
            if k < a.len() {
                assert((a + b + c)[k] == a[k]);
            } else if k < a.len() + b.len() {
                assert((a + b + c)[k] == b[k - a.len()]);
                assert(b[k - a.len()].idea_id == Some(is[n - 1].id));
            } else {
                assert((a + b + c)[k] == c[k - a.len() - b.len()]);
            }
        }
    }
}

/// Every result of a search points at an item of the lists searched (see
/// `points_into`).
pub proof fn law_results_point_into_lists(ps: Seq<ProjectView>, is: Seq<IdeaView>, query: Seq<char>)
    ensures
        forall|k: int|
            0 <= k < search(ps, is, query).len() ==> points_into(
                #[trigger] search(ps, is, query)[k],
                ps,
                is,
            ),
{
    let q = query_key(query);
    if q.len() > 0 {
        lemma_project_results_point(ps, ps.len() as int, q);
        lemma_idea_results_point(is, is.len() as int, q);
        assert(ps.take(ps.len() as int) =~= ps);
        assert(is.take(is.len() as int) =~= is);
        let a = project_results(ps, q);
        let b = idea_results(is, q);
        assert forall|k: int| 0 <= k < (a + b).len() implies points_into(#[trigger] (a + b)[k], ps, is) by {
            if k < a.len() {
                assert((a + b)[k] == a[k]);
                let r = a[k];
                if r.kind == SearchKind::Project {
                    let i = choose|i: int| 0 <= i < ps.len() && r.project_id == Some(#[trigger] ps[i].id);
                    assert(0 <= i < ps.len() && r.project_id == Some(ps[i].id));
                } else {
                    let (i, j) = choose|i: int, j: int|
                        0 <= i < ps.len() && 0 <= j < ps[i].tasks.len() && r.project_id == Some(
                            #[trigger] ps[i].id,
                        ) && r.task_id == Some(#[trigger] ps[i].tasks[j].id);
                    assert(0 <= i < ps.len() && 0 <= j < ps[i].tasks.len() && r.project_id == Some(
                        ps[i].id,
                    ) && r.task_id == Some(ps[i].tasks[j].id));
                }
            } else {
                assert((a + b)[k] == b[k - a.len()]);
                let r = b[k - a.len()];
                if r.kind == SearchKind::Idea {
                    let i = choose|i: int| 0 <= i < is.len() && r.idea_id == Some(#[trigger] is[i].id);
                    assert(0 <= i < is.len() && r.idea_id == Some(is[i].id));
                } else {
                    let i = choose|i: int|
                        0 <= i < is.len() && r.idea_id == Some(#[trigger] is[i].id) && (
                        r.note_idx matches Some(n) && n < is[i].notes.len());
                    assert(0 <= i < is.len() && r.idea_id == Some(is[i].id));
                }
            }
        }
        assert(search(ps, is, query) == a + b);
    }
}

// ---------------------------------------------------------------------------
// What a search finds of tasks.

/// Whether the key `q` is in the title of task `t` or in one of its notes.
pub open spec fn task_matches(t: TaskView, q: Seq<char>) -> bool {
    hits(t.title, q) || exists|n: int| 0 <= n < t.notes.len() && hits(#[trigger] t.notes[n], q)
}

/// Whether `r` is a result for task `t` of project `p` under the key `q`: it
/// names the project and the task, and its snippet comes from the title
/// where the key is in it, else from the first note (in order) holding it.
pub open spec fn is_task_result(r: SearchResultView, p: ProjectView, t: TaskView, q: Seq<char>) -> bool {
    &&& r.kind == SearchKind::Task
    &&& r.title == p.title + slash() + t.title
    &&& r.project_id == Some(p.id)
    &&& r.idea_id is None
    &&& r.task_id == Some(t.id)
    &&& r.note_idx is None
    &&& hits(t.title, q) ==> r.snippet == snippet(t.title, q)
    &&& !hits(t.title, q) ==> exists|n: int|
        0 <= n < t.notes.len() && hits(#[trigger] t.notes[n], q) && (forall|m: int|
            0 <= m < n ==> !hits(#[trigger] t.notes[m], q)) && r.snippet == snippet(t.notes[n], q)
}

/// The first note that the key hits is the first, in order, of the notes
/// holding it; there is none exactly when no note holds it.
proof fn lemma_first_note_hit(notes: Seq<Seq<char>>, q: Seq<char>)
    ensures
        first_note_hit(notes, q) is None <==> forall|n: int|
            0 <= n < notes.len() ==> !hits(#[trigger] notes[n], q),
        first_note_hit(notes, q) matches Some(x) ==> exists|n: int|
            0 <= n < notes.len() && hits(#[trigger] notes[n], q) && (forall|m: int|
                0 <= m < n ==> !hits(#[trigger] notes[m], q)) && x == notes[n],
    decreases notes.len(),
{
    if notes.len() > 0 {
        let rest = notes.drop_first();
        lemma_first_note_hit(rest, q);
        if hits(notes[0], q) {
            assert(hits(notes[0], q) && (forall|m: int| 0 <= m < 0 ==> !hits(#[trigger] notes[m], q)));
        } else {
            assert forall|n: int| 1 <= n < notes.len() implies notes[n] == rest[n - 1] by {}
            if first_note_hit(rest, q) is None {
                assert forall|n: int| 0 <= n < notes.len() implies !hits(#[trigger] notes[n], q) by {
                    if n > 0 {
                        assert(notes[n] == rest[n - 1]);
                    }
                }
            } else {
                let n1 = choose|n: int|
                    0 <= n < rest.len() && hits(#[trigger] rest[n], q) && (forall|m: int|
                        0 <= m < n ==> !hits(#[trigger] rest[m], q)) && first_note_hit(rest, q)->0
                        == rest[n];
                assert(notes[n1 + 1] == rest[n1]);
                assert forall|m: int| 0 <= m < n1 + 1 implies !hits(#[trigger] notes[m], q) by {
                    if m > 0 {
                        assert(notes[m] == rest[m - 1]);
                    }
                }
                assert(!hits(rest[n1], q) ==> false);
                assert(hits(notes[n1 + 1], q));
            }
        }
    }
}

/// The result for a task is there exactly when the key is in its title or
/// one of its notes, and is then the task's result.
proof fn lemma_task_hit(p: ProjectView, t: TaskView, q: Seq<char>)
    ensures
        task_hit(p, t, q).len() == (if task_matches(t, q) {
            1int
        } else {
            0int
        }),
        task_matches(t, q) ==> is_task_result(task_hit(p, t, q)[0], p, t, q),
{
    lemma_first_note_hit(t.notes, q);
    if !hits(t.title, q) {
        if first_note_hit(t.notes, q) is None {
            assert(!task_matches(t, q));
        } else {
            let n = choose|n: int|
                0 <= n < t.notes.len() && hits(#[trigger] t.notes[n], q) && (forall|m: int|
                    0 <= m < n ==> !hits(#[trigger] t.notes[m], q)) && first_note_hit(t.notes, q)->0
                    == t.notes[n];
            assert(hits(t.notes[n], q));
            assert(task_matches(t, q));
        }
    }
}

/// The results for the first `m` tasks of project `i`: one for each task
/// that the key matches, each the result for a task among them.
proof fn lemma_task_hits_of(ps: Seq<ProjectView>, i: int, m: int, q: Seq<char>)
    requires
        0 <= i < ps.len(),
        0 <= m <= ps[i].tasks.len(),
    ensures
        forall|j: int|
            0 <= j < m && task_matches(#[trigger] ps[i].tasks[j], q) ==> exists|k: int|
                0 <= k < task_hits(ps[i], ps[i].tasks.take(m), q).len() && is_task_result(
                    #[trigger] task_hits(ps[i], ps[i].tasks.take(m), q)[k],
                    ps[i],
                    ps[i].tasks[j],
                    q,
                ),
        forall|k: int|
            0 <= k < task_hits(ps[i], ps[i].tasks.take(m), q).len() ==> (#[trigger] task_hits(
                ps[i],
                ps[i].tasks.take(m),
                q,
            )[k]).kind == SearchKind::Task && exists|j: int|
                0 <= j < m && task_matches(#[trigger] ps[i].tasks[j], q) && is_task_result(
                    task_hits(ps[i], ps[i].tasks.take(m), q)[k],
                    ps[i],
                    ps[i].tasks[j],
                    q,
                ),
    decreases m,
{
    if m == 0 {
        assert(task_hits(ps[i], ps[i].tasks.take(0), q).len() == 0);
    } else {
        let ts = ps[i].tasks.take(m);
        assert(ts.drop_last() =~= ps[i].tasks.take(m - 1));
        assert(ts.last() == ps[i].tasks[m - 1]);
        lemma_task_hits_of(ps, i, m - 1, q);
        lemma_task_hit(ps[i], ps[i].tasks[m - 1], q);
        let prev = task_hits(ps[i], ps[i].tasks.take(m - 1), q);
        let last = task_hit(ps[i], ps[i].tasks[m - 1], q);
        let all = task_hits(ps[i], ts, q);
        assert(all == prev + last);
        assert forall|j: int| 0 <= j < m && task_matches(#[trigger] ps[i].tasks[j], q) implies exists|
            k: int,
        | 0 <= k < all.len() && is_task_result(#[trigger] all[k], ps[i], ps[i].tasks[j], q) by {
            if j == m - 1 {
                assert(all[prev.len() as int] == last[0]);
                assert(is_task_result(all[prev.len() as int], ps[i], ps[i].tasks[j], q));
            } else {
                let k = choose|k: int|
                    0 <= k < prev.len() && is_task_result(#[trigger] prev[k], ps[i], ps[i].tasks[j], q);
                assert(all[k] == prev[k]);
            }
        }
        assert forall|k: int| 0 <= k < all.len() implies (#[trigger] all[k]).kind == SearchKind::Task
            && exists|j: int|
            0 <= j < m && task_matches(#[trigger] ps[i].tasks[j], q) && is_task_result(
                all[k],
                ps[i],
                ps[i].tasks[j],
                q,
            ) by {
            if k < prev.len() {
                assert(all[k] == prev[k]);
                assert(prev[k].kind == SearchKind::Task);
                let j = choose|j: int|
                    0 <= j < m - 1 && task_matches(#[trigger] ps[i].tasks[j], q) && is_task_result(
                        prev[k],
                        ps[i],
                        ps[i].tasks[j],
                        q,
                    );
                assert(task_matches(ps[i].tasks[j], q));
            } else {
                assert(all[k] == last[k - prev.len()]);
                assert(task_matches(ps[i].tasks[m - 1], q));
                assert(k - prev.len() == 0);
                assert(is_task_result(all[k], ps[i], ps[i].tasks[m - 1], q));
            }
        }
    }
}

/// Among the results for the first `n` projects there is the result of
/// each of their tasks that the key matches.
#[verifier::spinoff_prover]
proof fn lemma_project_results_find(ps: Seq<ProjectView>, n: int, q: Seq<char>)
    requires
        0 <= n <= ps.len(),
    ensures
        forall|i: int, j: int|
            0 <= i < n && 0 <= j < ps[i].tasks.len() && task_matches(#[trigger] ps[i].tasks[j], q)
                ==> exists|k: int|
                0 <= k < project_results(ps.take(n), q).len() && is_task_result(
                    #[trigger] project_results(ps.take(n), q)[k],
                    ps[i],
                    ps[i].tasks[j],
                    q,
                ),
    decreases n,
{
    if n > 0 {
        let pn = ps.take(n);
        assert(pn.drop_last() =~= ps.take(n - 1));
        assert(pn.last() == ps[n - 1]);
        lemma_project_results_find(ps, n - 1, q);
        let l = ps[n - 1].tasks.len() as int;
        lemma_task_hits_of(ps, n - 1, l, q);
        assert(ps[n - 1].tasks.take(l) =~= ps[n - 1].tasks);
        let a = project_results(ps.take(n - 1), q);
        let b = project_hit(ps[n - 1], q);
        let c = task_hits(ps[n - 1], ps[n - 1].tasks, q);
        let all = project_results(pn, q);
        assert(all == a + b + c);
        assert forall|i: int, j: int|
            0 <= i < n && 0 <= j < ps[i].tasks.len() && task_matches(#[trigger] ps[i].tasks[j], q)
                implies exists|k: int|
            0 <= k < all.len() && is_task_result(#[trigger] all[k], ps[i], ps[i].tasks[j], q) by {
            if i == n - 1 {
                let k = choose|k: int|
                    0 <= k < c.len() && is_task_result(#[trigger] c[k], ps[i], ps[i].tasks[j], q);
                assert(all[a.len() + b.len() + k] == c[k]);
            } else {
                let k = choose|k: int|
                    0 <= k < a.len() && is_task_result(#[trigger] a[k], ps[i], ps[i].tasks[j], q);
                assert(all[k] == a[k]);
            }
        }
    }
}

/// Every task result among the results for the first `n` projects is the
/// result of one of their tasks that the key matches.
#[verifier::spinoff_prover]
proof fn lemma_project_results_from(ps: Seq<ProjectView>, n: int, q: Seq<char>)
    requires
        0 <= n <= ps.len(),
    ensures
        forall|k: int|
            0 <= k < project_results(ps.take(n), q).len() && (#[trigger] project_results(
                ps.take(n),
                q,
            )[k]).kind == SearchKind::Task ==> exists|i: int, j: int|
                0 <= i < n && 0 <= j < ps[i].tasks.len() && task_matches(
                    #[trigger] ps[i].tasks[j],
                    q,
                ) && is_task_result(project_results(ps.take(n), q)[k], ps[i], ps[i].tasks[j], q),
    decreases n,
{
    if n > 0 {
        let pn = ps.take(n);
        assert(pn.drop_last() =~= ps.take(n - 1));
        assert(pn.last() == ps[n - 1]);
        lemma_project_results_from(ps, n - 1, q);
        let l = ps[n - 1].tasks.len() as int;
        lemma_task_hits_of(ps, n - 1, l, q);
        assert(ps[n - 1].tasks.take(l) =~= ps[n - 1].tasks);
        let a = project_results(ps.take(n - 1), q);
        let b = project_hit(ps[n - 1], q);
        let c = task_hits(ps[n - 1], ps[n - 1].tasks, q);
        let all = project_results(pn, q);
        assert(all == a + b + c);
        assert forall|k: int| 0 <= k < all.len() && (#[trigger] all[k]).kind == SearchKind::Task implies exists|
            i: int,
            j: int,
        |
            0 <= i < n && 0 <= j < ps[i].tasks.len() && task_matches(#[trigger] ps[i].tasks[j], q)
                && is_task_result(all[k], ps[i], ps[i].tasks[j], q) by {
            if k < a.len() {
                assert(all[k] == a[k]);
                let (i, j) = choose|i: int, j: int|
                    0 <= i < n - 1 && 0 <= j < ps[i].tasks.len() && task_matches(
                        #[trigger] ps[i].tasks[j],
                        q,
                    ) && is_task_result(a[k], ps[i], ps[i].tasks[j], q);
                assert(task_matches(ps[i].tasks[j], q));
            } else if k < a.len() + b.len() {
                assert(all[k] == b[k - a.len()]);
            } else {
                let kc = k - a.len() - b.len();
                assert(all[k] == c[kc]);
                assert(c[kc].kind == SearchKind::Task);
                let j = choose|j: int|
                    0 <= j < l && task_matches(#[trigger] ps[n - 1].tasks[j], q) && is_task_result(
                        c[kc],
                        ps[n - 1],
                        ps[n - 1].tasks[j],
                        q,
                    );
                assert(task_matches(ps[n - 1].tasks[j], q));
            }
        }
    }
}

/// With a key that is not blank, a search finds a task exactly when the key
/// is in the task's title or in one of its notes, whichever note it is: for
/// every such task there is a result that names its project and it, with a
/// snippet of the title, or else of the first note holding the key; and
/// every task result is such a result for a task of the lists.
pub proof fn law_search_finds_tasks(ps: Seq<ProjectView>, is: Seq<IdeaView>, query: Seq<char>)
    requires
        query_key(query).len() > 0,
    ensures
        forall|i: int, j: int|
            0 <= i < ps.len() && 0 <= j < ps[i].tasks.len() && task_matches(
                #[trigger] ps[i].tasks[j],
                query_key(query),
            ) ==> exists|k: int|
                0 <= k < search(ps, is, query).len() && is_task_result(
                    #[trigger] search(ps, is, query)[k],
                    ps[i],
                    ps[i].tasks[j],
                    query_key(query),
                ),
        forall|k: int|
            0 <= k < search(ps, is, query).len() && (#[trigger] search(ps, is, query)[k]).kind
                == SearchKind::Task ==> exists|i: int, j: int|
                0 <= i < ps.len() && 0 <= j < ps[i].tasks.len() && task_matches(
                    #[trigger] ps[i].tasks[j],
                    query_key(query),
                ) && is_task_result(search(ps, is, query)[k], ps[i], ps[i].tasks[j], query_key(query)),
{
    let q = query_key(query);
    lemma_project_results_find(ps, ps.len() as int, q);
    lemma_project_results_from(ps, ps.len() as int, q);
    lemma_idea_results_point(is, is.len() as int, q);
    assert(ps.take(ps.len() as int) =~= ps);
    assert(is.take(is.len() as int) =~= is);
    let a = project_results(ps, q);
    let b = idea_results(is, q);
    let all = search(ps, is, query);
    assert(all == a + b);
    assert forall|i: int, j: int|
        0 <= i < ps.len() && 0 <= j < ps[i].tasks.len() && task_matches(#[trigger] ps[i].tasks[j], q)
            implies exists|k: int| 0 <= k < all.len() && is_task_result(#[trigger] all[k], ps[i], ps[i].tasks[j], q) by {
        let k = choose|k: int|
            0 <= k < a.len() && is_task_result(#[trigger] a[k], ps[i], ps[i].tasks[j], q);
        assert(all[k] == a[k]);
    }
    assert forall|k: int| 0 <= k < all.len() && (#[trigger] all[k]).kind == SearchKind::Task implies exists|
        i: int,
        j: int,
    |
        0 <= i < ps.len() && 0 <= j < ps[i].tasks.len() && task_matches(#[trigger] ps[i].tasks[j], q)
            && is_task_result(all[k], ps[i], ps[i].tasks[j], q) by {
        if k < a.len() {
            assert(all[k] == a[k]);
        } else {
            assert(all[k] == b[k - a.len()]);
        }
    }
}

// ---------------------------------------------------------------------------
// What a search finds of projects, ideas and idea notes.

/// The result for a project whose title holds the key.
pub open spec fn project_result(p: ProjectView, q: Seq<char>) -> SearchResultView {
    SearchResultView {
        kind: SearchKind::Project,
        title: p.title,
        snippet: snippet(p.title, q),
        project_id: Some(p.id),
        idea_id: None,
        task_id: None,
        note_idx: None,
    }
}

/// The result for an idea whose title holds the key.
pub open spec fn idea_result(i: IdeaView, q: Seq<char>) -> SearchResultView {
    SearchResultView {
        kind: SearchKind::Idea,
        title: i.title,
        snippet: snippet(i.title, q),
        project_id: None,
        idea_id: Some(i.id),
        task_id: None,
        note_idx: None,
    }
}

/// The result for note `n` of an idea, a note that holds the key.
pub open spec fn idea_note_result(i: IdeaView, n: int, q: Seq<char>) -> SearchResultView {
    SearchResultView {
        kind: SearchKind::IdeaNote,
        title: note_title(i.title, n),
        snippet: snippet(i.notes[n], q),
        project_id: None,
        idea_id: Some(i.id),
        task_id: None,
        note_idx: Some(n as usize),
    }
}

/// Among the results for the first `n` projects is the result of each of
/// them whose title holds the key.
#[verifier::spinoff_prover]
proof fn lemma_project_results_titles(ps: Seq<ProjectView>, n: int, q: Seq<char>)
    requires
        0 <= n <= ps.len(),
    ensures
        forall|i: int|
            0 <= i < n && hits(#[trigger] ps[i].title, q) ==> exists|k: int|
                0 <= k < project_results(ps.take(n), q).len() && #[trigger] project_results(
                    ps.take(n),
                    q,
                )[k] == project_result(ps[i], q),
    decreases n,
{
    if n > 0 {
        let pn = ps.take(n);
        assert(pn.drop_last() =~= ps.take(n - 1));
        assert(pn.last() == ps[n - 1]);
        lemma_project_results_titles(ps, n - 1, q);
        let a = project_results(ps.take(n - 1), q);
        let b = project_hit(ps[n - 1], q);
        let c = task_hits(ps[n - 1], ps[n - 1].tasks, q);
        let all = project_results(pn, q);
        assert(all == a + b + c);
        assert forall|i: int| 0 <= i < n && hits(#[trigger] ps[i].title, q) implies exists|k: int|
            0 <= k < all.len() && #[trigger] all[k] == project_result(ps[i], q) by {
            if i == n - 1 {
                assert(all[a.len() as int] == b[0]);
            } else {
                let k = choose|k: int| 0 <= k < a.len() && #[trigger] a[k] == project_result(ps[i], q);
                assert(all[k] == a[k]);
            }
        }
    }
}

/// Among the results for the first `m` notes of idea `i` is the result of
/// each of them that holds the key.
proof fn lemma_note_hits_find(is: Seq<IdeaView>, i: int, m: int, q: Seq<char>)
    requires
        0 <= i < is.len(),
        0 <= m <= is[i].notes.len(),
    ensures
        forall|n: int|
            0 <= n < m && hits(#[trigger] is[i].notes[n], q) ==> exists|k: int|
                0 <= k < note_hits(is[i], m, q).len() && #[trigger] note_hits(is[i], m, q)[k]
                    == idea_note_result(is[i], n, q),
    decreases m,
{
    if m > 0 {
        lemma_note_hits_find(is, i, m - 1, q);
        let prev = note_hits(is[i], m - 1, q);
        let all = note_hits(is[i], m, q);
        let last: Seq<SearchResultView> = if hits(is[i].notes[m - 1], q) {
            seq![idea_note_result(is[i], m - 1, q)]
        } else {
            seq![]
        };
        assert(all == prev + last);
        assert forall|n: int| 0 <= n < m && hits(#[trigger] is[i].notes[n], q) implies exists|k: int|
            0 <= k < all.len() && #[trigger] all[k] == idea_note_result(is[i], n, q) by {
            if n == m - 1 {
                assert(all[prev.len() as int] == last[0]);
            } else {
                let k = choose|k: int|
                    0 <= k < prev.len() && #[trigger] prev[k] == idea_note_result(is[i], n, q);
                assert(all[k] == prev[k]);
            }
        }
    }
}

/// Among the results for the first `n` ideas is the result of each of them
/// whose title holds the key, and of each of their notes that holds it.
#[verifier::spinoff_prover]
proof fn lemma_idea_results_find(is: Seq<IdeaView>, n: int, q: Seq<char>)
    requires
        0 <= n <= is.len(),
    ensures
        forall|i: int|
            0 <= i < n && hits(#[trigger] is[i].title, q) ==> exists|k: int|
                0 <= k < idea_results(is.take(n), q).len() && #[trigger] idea_results(is.take(n), q)[k]
                    == idea_result(is[i], q),
        forall|i: int, j: int|
            0 <= i < n && 0 <= j < is[i].notes.len() && hits(#[trigger] is[i].notes[j], q)
                ==> exists|k: int|
                0 <= k < idea_results(is.take(n), q).len() && #[trigger] idea_results(is.take(n), q)[k]
                    == idea_note_result(is[i], j, q),
    decreases n,
{
    if n > 0 {
        let in_ = is.take(n);
        assert(in_.drop_last() =~= is.take(n - 1));
        assert(in_.last() == is[n - 1]);
        lemma_idea_results_find(is, n - 1, q);
        lemma_note_hits_find(is, n - 1, is[n - 1].notes.len() as int, q);
        let a = idea_results(is.take(n - 1), q);
        let b = idea_hit(is[n - 1], q);
        let c = note_hits(is[n - 1], is[n - 1].notes.len() as int, q);
        let all = idea_results(in_, q);
        assert(all == a + b + c);
        assert forall|i: int| 0 <= i < n && hits(#[trigger] is[i].title, q) implies exists|k: int|
            0 <= k < all.len() && #[trigger] all[k] == idea_result(is[i], q) by {
            if i == n - 1 {
                assert(all[a.len() as int] == b[0]);
            } else {
                let k = choose|k: int| 0 <= k < a.len() && #[trigger] a[k] == idea_result(is[i], q);
                assert(all[k] == a[k]);
            }
        }
        assert forall|i: int, j: int|
            0 <= i < n && 0 <= j < is[i].notes.len() && hits(#[trigger] is[i].notes[j], q)
                implies exists|k: int|
            0 <= k < all.len() && #[trigger] all[k] == idea_note_result(is[i], j, q) by {
            if i == n - 1 {
                let k = choose|k: int|
                    0 <= k < c.len() && #[trigger] c[k] == idea_note_result(is[i], j, q);
                assert(all[a.len() + b.len() + k] == c[k]);
            } else {
                let k = choose|k: int|
                    0 <= k < a.len() && #[trigger] a[k] == idea_note_result(is[i], j, q);
                assert(all[k] == a[k]);
            }
        }
    }
}

/// With a key that is not blank, a search finds every project and idea
/// whose title holds the key, and every note of an idea that holds it,
/// whichever note it is: each has its result among the results.
pub proof fn law_search_finds_titles_and_idea_notes(
    ps: Seq<ProjectView>,
    is: Seq<IdeaView>,
    query: Seq<char>,
)
    requires
        query_key(query).len() > 0,
    ensures
        forall|i: int|
            0 <= i < ps.len() && hits(#[trigger] ps[i].title, query_key(query)) ==> exists|k: int|
                0 <= k < search(ps, is, query).len() && #[trigger] search(ps, is, query)[k]
                    == project_result(ps[i], query_key(query)),
        forall|i: int|
            0 <= i < is.len() && hits(#[trigger] is[i].title, query_key(query)) ==> exists|k: int|
                0 <= k < search(ps, is, query).len() && #[trigger] search(ps, is, query)[k]
                    == idea_result(is[i], query_key(query)),
        forall|i: int, j: int|
            0 <= i < is.len() && 0 <= j < is[i].notes.len() && hits(
                #[trigger] is[i].notes[j],
                query_key(query),
            ) ==> exists|k: int|
                0 <= k < search(ps, is, query).len() && #[trigger] search(ps, is, query)[k]
                    == idea_note_result(is[i], j, query_key(query)),
{
    let q = query_key(query);
    lemma_project_results_titles(ps, ps.len() as int, q);
    lemma_idea_results_find(is, is.len() as int, q);
    assert(ps.take(ps.len() as int) =~= ps);
    assert(is.take(is.len() as int) =~= is);
    let a = project_results(ps, q);
    let b = idea_results(is, q);
    let all = search(ps, is, query);
    assert(all == a + b);
    assert forall|i: int| 0 <= i < ps.len() && hits(#[trigger] ps[i].title, q) implies exists|k: int|
        0 <= k < all.len() && #[trigger] all[k] == project_result(ps[i], q) by {
        let k = choose|k: int| 0 <= k < a.len() && #[trigger] a[k] == project_result(ps[i], q);
        assert(all[k] == a[k]);
    }
    assert forall|i: int| 0 <= i < is.len() && hits(#[trigger] is[i].title, q) implies exists|k: int|
        0 <= k < all.len() && #[trigger] all[k] == idea_result(is[i], q) by {
        let k = choose|k: int| 0 <= k < b.len() && #[trigger] b[k] == idea_result(is[i], q);
        assert(all[a.len() + k] == b[k]);
    }
    assert forall|i: int, j: int|
        0 <= i < is.len() && 0 <= j < is[i].notes.len() && hits(#[trigger] is[i].notes[j], q)
            implies exists|k: int|
        0 <= k < all.len() && #[trigger] all[k] == idea_note_result(is[i], j, q) by {
        let k = choose|k: int| 0 <= k < b.len() && #[trigger] b[k] == idea_note_result(is[i], j, q);
        assert(all[a.len() + k] == b[k]);
    }
}

/// Every project result among the results for the first `n` projects is
/// the result of one of them whose title holds the key.
#[verifier::spinoff_prover]
proof fn lemma_project_results_titles_from(ps: Seq<ProjectView>, n: int, q: Seq<char>)
    requires
        0 <= n <= ps.len(),
    ensures
        forall|k: int|
            0 <= k < project_results(ps.take(n), q).len() && (#[trigger] project_results(
                ps.take(n),
                q,
            )[k]).kind == SearchKind::Project ==> exists|i: int|
                0 <= i < n && hits(#[trigger] ps[i].title, q) && project_results(ps.take(n), q)[k]
                    == project_result(ps[i], q),
    decreases n,
{
    if n > 0 {
        let pn = ps.take(n);
        assert(pn.drop_last() =~= ps.take(n - 1));
        assert(pn.last() == ps[n - 1]);
        lemma_project_results_titles_from(ps, n - 1, q);
        let l = ps[n - 1].tasks.len() as int;
        lemma_task_hits_of(ps, n - 1, l, q);
        assert(ps[n - 1].tasks.take(l) =~= ps[n - 1].tasks);
        let a = project_results(ps.take(n - 1), q);
        let b = project_hit(ps[n - 1], q);
        let c = task_hits(ps[n - 1], ps[n - 1].tasks, q);
        let all = project_results(pn, q);
        assert(all == a + b + c);
        assert forall|k: int| 0 <= k < all.len() && (#[trigger] all[k]).kind == SearchKind::Project implies exists|
            i: int,
        | 0 <= i < n && hits(#[trigger] ps[i].title, q) && all[k] == project_result(ps[i], q) by {
            if k < a.len() {
                assert(all[k] == a[k]);
                let i = choose|i: int|
                    0 <= i < n - 1 && hits(#[trigger] ps[i].title, q) && a[k] == project_result(ps[i], q);
                assert(hits(ps[i].title, q));
            } else if k < a.len() + b.len() {
                assert(all[k] == b[k - a.len()]);
                assert(hits(ps[n - 1].title, q));
            } else {
                assert(all[k] == c[k - a.len() - b.len()]);
                assert(c[k - a.len() - b.len()].kind == SearchKind::Task);
            }
        }
    }
}

/// Every result for the first `m` notes of idea `i` is the result of one of
/// them that holds the key.
proof fn lemma_note_hits_from(is: Seq<IdeaView>, i: int, m: int, q: Seq<char>)
    requires
        0 <= i < is.len(),
        0 <= m <= is[i].notes.len(),
    ensures
        forall|k: int|
            0 <= k < note_hits(is[i], m, q).len() ==> exists|n: int|
                0 <= n < m && hits(#[trigger] is[i].notes[n], q) && #[trigger] note_hits(is[i], m, q)[k]
                    == idea_note_result(is[i], n, q),
    decreases m,
{
    if m > 0 {
        lemma_note_hits_from(is, i, m - 1, q);
        let prev = note_hits(is[i], m - 1, q);
        let all = note_hits(is[i], m, q);
        let last: Seq<SearchResultView> = if hits(is[i].notes[m - 1], q) {
            seq![idea_note_result(is[i], m - 1, q)]
        } else {
            seq![]
        };
        assert(all == prev + last);
        assert forall|k: int| 0 <= k < all.len() implies exists|n: int|
            0 <= n < m && hits(#[trigger] is[i].notes[n], q) && #[trigger] all[k] == idea_note_result(is[i], n, q) by {
            if k < prev.len() {
                assert(all[k] == prev[k]);
                let n = choose|n: int|
                    0 <= n < m - 1 && hits(#[trigger] is[i].notes[n], q) && #[trigger] prev[k]
                        == idea_note_result(is[i], n, q);
                assert(hits(is[i].notes[n], q));
            } else {
                assert(all[k] == last[k - prev.len()]);
                assert(hits(is[i].notes[m - 1], q));
            }
        }
    }
}

/// Every result for the first `n` ideas is the result of one of them whose
/// title holds the key, or of one of their notes that holds it.
#[verifier::spinoff_prover]
proof fn lemma_idea_results_from(is: Seq<IdeaView>, n: int, q: Seq<char>)
    requires
        0 <= n <= is.len(),
    ensures
        forall|k: int|
            0 <= k < idea_results(is.take(n), q).len() ==> {
                let r = #[trigger] idea_results(is.take(n), q)[k];
                ||| exists|i: int| 0 <= i < n && hits(#[trigger] is[i].title, q) && r == idea_result(is[i], q)
                ||| exists|i: int, j: int|
                    0 <= i < n && 0 <= j < is[i].notes.len() && hits(#[trigger] is[i].notes[j], q) && r
                        == idea_note_result(is[i], j, q)
            },
    decreases n,
{
    if n > 0 {
        let in_ = is.take(n);
        assert(in_.drop_last() =~= is.take(n - 1));
        assert(in_.last() == is[n - 1]);
        lemma_idea_results_from(is, n - 1, q);
        lemma_note_hits_from(is, n - 1, is[n - 1].notes.len() as int, q);
        let a = idea_results(is.take(n - 1), q);
        let b = idea_hit(is[n - 1], q);
        let c = note_hits(is[n - 1], is[n - 1].notes.len() as int, q);
        let all = idea_results(in_, q);
        assert(all == a + b + c);
        assert forall|k: int| 0 <= k < all.len() implies {
            let r = #[trigger] all[k];
            ||| exists|i: int| 0 <= i < n && hits(#[trigger] is[i].title, q) && r == idea_result(is[i], q)
            ||| exists|i: int, j: int|
                0 <= i < n && 0 <= j < is[i].notes.len() && hits(#[trigger] is[i].notes[j], q) && r
                    == idea_note_result(is[i], j, q)
        } by {
            if k < a.len() {
                assert(all[k] == a[k]);
                if exists|i: int| 0 <= i < n - 1 && hits(#[trigger] is[i].title, q) && a[k] == idea_result(is[i], q) {
                    let i = choose|i: int|
                        0 <= i < n - 1 && hits(#[trigger] is[i].title, q) && a[k] == idea_result(is[i], q);
                    assert(hits(is[i].title, q));
                } else {
                    let (i, j) = choose|i: int, j: int|
                        0 <= i < n - 1 && 0 <= j < is[i].notes.len() && hits(#[trigger] is[i].notes[j], q)
                            && a[k] == idea_note_result(is[i], j, q);
                    assert(hits(is[i].notes[j], q));
                }
            } else if k < a.len() + b.len() {
                assert(all[k] == b[k - a.len()]);
                assert(hits(is[n - 1].title, q));
            } else {
                let kc = k - a.len() - b.len();
                assert(all[k] == c[kc]);
                let j = choose|j: int|
                    0 <= j < is[n - 1].notes.len() && hits(#[trigger] is[n - 1].notes[j], q)
                        && #[trigger] c[kc] == idea_note_result(is[n - 1], j, q);
                assert(hits(is[n - 1].notes[j], q));
            }
        }
    }
}

/// A search finds nothing but what holds the key: a blank key finds
/// nothing; every project result is that of a project whose title holds
/// the key, every idea result that of an idea whose title holds it, and
/// every note result that of a note of an idea that holds it.
pub proof fn law_search_finds_only_hits(ps: Seq<ProjectView>, is: Seq<IdeaView>, query: Seq<char>)
    ensures
        query_key(query).len() == 0 ==> search(ps, is, query).len() == 0,
        forall|k: int|
            0 <= k < search(ps, is, query).len() && (#[trigger] search(ps, is, query)[k]).kind
                == SearchKind::Project ==> exists|i: int|
                0 <= i < ps.len() && hits(#[trigger] ps[i].title, query_key(query)) && search(
                    ps,
                    is,
                    query,
                )[k] == project_result(ps[i], query_key(query)),
        forall|k: int|
            0 <= k < search(ps, is, query).len() && (#[trigger] search(ps, is, query)[k]).kind
                == SearchKind::Idea ==> exists|i: int|
                0 <= i < is.len() && hits(#[trigger] is[i].title, query_key(query)) && search(
                    ps,
                    is,
                    query,
                )[k] == idea_result(is[i], query_key(query)),
        forall|k: int|
            0 <= k < search(ps, is, query).len() && (#[trigger] search(ps, is, query)[k]).kind
                == SearchKind::IdeaNote ==> exists|i: int, j: int|
                0 <= i < is.len() && 0 <= j < is[i].notes.len() && hits(
                    #[trigger] is[i].notes[j],
                    query_key(query),
                ) && search(ps, is, query)[k] == idea_note_result(is[i], j, query_key(query)),
{
    let q = query_key(query);
    if q.len() > 0 {
        lemma_project_results_titles_from(ps, ps.len() as int, q);
        lemma_project_results_point(ps, ps.len() as int, q);
        lemma_idea_results_from(is, is.len() as int, q);
        assert(ps.take(ps.len() as int) =~= ps);
        assert(is.take(is.len() as int) =~= is);
        let a = project_results(ps, q);
        let b = idea_results(is, q);
        let all = search(ps, is, query);
        assert(all == a + b);
        assert forall|k: int| 0 <= k < all.len() && (#[trigger] all[k]).kind == SearchKind::Project implies exists|
            i: int,
        | 0 <= i < ps.len() && hits(#[trigger] ps[i].title, q) && all[k] == project_result(ps[i], q) by {
            if k < a.len() {
                assert(all[k] == a[k]);
            } else {
                assert(all[k] == b[k - a.len()]);
                let r = b[k - a.len()];
                if exists|i: int| 0 <= i < is.len() && hits(#[trigger] is[i].title, q) && r == idea_result(is[i], q) {
                    let i = choose|i: int| 0 <= i < is.len() && hits(#[trigger] is[i].title, q) && r == idea_result(is[i], q);
                    assert(r.kind == SearchKind::Idea);
                } else {
                    let (i, j) = choose|i: int, j: int|
                        0 <= i < is.len() && 0 <= j < is[i].notes.len() && hits(#[trigger] is[i].notes[j], q) && r
                            == idea_note_result(is[i], j, q);
                    assert(r.kind == SearchKind::IdeaNote);
                }
            }
        }
        assert forall|k: int| 0 <= k < all.len() && (#[trigger] all[k]).kind == SearchKind::Idea implies exists|
            i: int,
        | 0 <= i < is.len() && hits(#[trigger] is[i].title, q) && all[k] == idea_result(is[i], q) by {
            if k < a.len() {
                assert(all[k] == a[k]);
            } else {
                assert(all[k] == b[k - a.len()]);
                let r = b[k - a.len()];
                if !exists|i: int| 0 <= i < is.len() && hits(#[trigger] is[i].title, q) && r == idea_result(is[i], q) {
                    let (i, j) = choose|i: int, j: int|
                        0 <= i < is.len() && 0 <= j < is[i].notes.len() && hits(#[trigger] is[i].notes[j], q) && r
                            == idea_note_result(is[i], j, q);
                    assert(r.kind == SearchKind::IdeaNote);
                }
            }
        }
        assert forall|k: int| 0 <= k < all.len() && (#[trigger] all[k]).kind == SearchKind::IdeaNote implies exists|
            i: int,
            j: int,
        |
            0 <= i < is.len() && 0 <= j < is[i].notes.len() && hits(#[trigger] is[i].notes[j], q)
                && all[k] == idea_note_result(is[i], j, q) by {
            if k < a.len() {
                assert(all[k] == a[k]);
            } else {
                assert(all[k] == b[k - a.len()]);
                let r = b[k - a.len()];
                if exists|i: int| 0 <= i < is.len() && hits(#[trigger] is[i].title, q) && r == idea_result(is[i], q) {
                    let i = choose|i: int| 0 <= i < is.len() && hits(#[trigger] is[i].title, q) && r == idea_result(is[i], q);
                    assert(r.kind == SearchKind::Idea);
                }
            }
        }
    }
}

} // verus!
