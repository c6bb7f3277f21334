//! Reading back what was written: the front matter and body of a written
//! file come back out of it, and so do an idea's notes and a project's tasks,
//! as long as their texts keep to one trimmed line each.

use vstd::prelude::*;
use crate::model::{TaskView, hex_digit, law_id_text_round_trip, nibble, uuid_hyphenated};
use crate::storage::{
    FrontmatterError, TaskSkeleton, body_notes, comment_ok, project_body_ok, task_line_ok, body_tasks, bom, box_done, box_open,
    close_fence, comment_bounds, comment_close, comment_open, document, drop_repeated,
    fold_tasks, frontmatter_parts, id_in_words, id_prefix, idea_note, indent,
    mark, note_lines, notes_text, open_fence, task_block, task_line,
    task_line_text, tasks_fit, tasks_text, title_and_id, lemma_word_len_eq,
};
use crate::text::{
    contains, find, starts_with, words, is_first_occurrence, is_space, lemma_find_contains, lemma_find_first,
    lemma_lines_unfold, lemma_trim_end_take, lemma_trim_start_skip, lines, occurs_at, strip_cr,
    trim, trim_end, trim_start,
};

verus! {

/// Whether `s` holds no line feed.
pub open spec fn no_newline(s: Seq<char>) -> bool {
    forall|i: int| 0 <= i < s.len() ==> s[i] != '\n'
}

/// Whether `s` is empty or ends a line.
pub open spec fn ends_line(s: Seq<char>) -> bool {
    s.len() == 0 || s.last() == '\n'
}

/// The first line feed of `x + "\n" + y`, where `x` holds none, ends `x`.
proof fn lemma_first_newline(x: Seq<char>, y: Seq<char>)
    requires
        no_newline(x),
    ensures
        find(x + seq!['\n'] + y, seq!['\n']) == Some(x.len() as int),
{
    let s = x + seq!['\n'] + y;
    assert(s.subrange(x.len() as int, x.len() + 1int) =~= seq!['\n']);
    assert forall|j: int| 0 <= j < x.len() implies !occurs_at(s, seq!['\n'], j) by {
        if occurs_at(s, seq!['\n'], j) {
            assert(s.subrange(j, j + 1)[0] == s[j]);
            assert(s[j] == x[j]);
        }
    }
    lemma_find_first(s, seq!['\n'], x.len() as int);
}

/// Appending a line to text that ends a line appends it to the lines.
pub proof fn lemma_lines_append(a: Seq<char>, l: Seq<char>)
    requires
        ends_line(a),
        no_newline(l),
    ensures
        lines(a + l + seq!['\n']) == lines(a).push(strip_cr(l)),
    decreases a.len(),
{
    let s = a + l + seq!['\n'];
    if a.len() == 0 {
        assert(s =~= l + seq!['\n'] + Seq::<char>::empty());
        lemma_first_newline(l, Seq::<char>::empty());
        lemma_lines_unfold(s, l.len() as int);
        assert(s.take(l.len() as int) =~= l);
        assert(s.skip(l.len() + 1int).len() == 0);
        assert(lines(a) =~= Seq::<Seq<char>>::empty());
        assert(lines(s) =~= lines(a).push(strip_cr(l)));
    } else {
        assert(occurs_at(a, seq!['\n'], a.len() - 1)) by {
            assert(a.subrange(a.len() - 1, a.len() as int) =~= seq!['\n']);
        }
        lemma_find_contains(a, seq!['\n']);
        let k = find(a, seq!['\n'])->0;
        assert(is_first_occurrence(a, seq!['\n'], k));
        let x = a.take(k);
        let rest = a.skip(k + 1);
        assert(no_newline(x)) by {
            assert forall|j: int| 0 <= j < x.len() implies x[j] != '\n' by {
                assert(!occurs_at(a, seq!['\n'], j));
                if x[j] == '\n' {
                    assert(a.subrange(j, j + 1) =~= seq!['\n']);
                }
            }
        }
        assert(a[k] == '\n') by {
            assert(a.subrange(k, k + 1)[0] == a[k]);
        }
        assert(a =~= x + seq!['\n'] + rest);
        assert(ends_line(rest)) by {
            if rest.len() > 0 {
                assert(rest.last() == a.last());
            }
        }
        lemma_lines_unfold(a, k);
        assert(a.take(k) == x);
        lemma_lines_append(rest, l);
        assert(s =~= x + seq!['\n'] + (rest + l + seq!['\n']));
        lemma_first_newline(x, rest + l + seq!['\n']);
        lemma_lines_unfold(s, k);
        assert(s.take(k) =~= x);
        assert(s.skip(k + 1) =~= rest + l + seq!['\n']);
        assert(lines(s) =~= lines(a).push(strip_cr(l)));
    }
}

/// A trimmed text neither starts nor ends with white space.
pub proof fn lemma_trimmed(s: Seq<char>)
    requires
        trim(s) == s,
    ensures
        trim_start(s) == s,
        trim_end(s) == s,
        s.len() > 0 ==> !is_space(s[0]) && !is_space(s.last()),
{
    lemma_trim_start_skip(s);
    let t = trim_start(s);
    lemma_trim_end_take(t);
    assert(s.len() == trim_end(t).len());
    assert(t.len() == s.len());
    assert(t =~= s);
}

/// The bullet line of a trimmed one-line note holds the note.
proof fn lemma_bullet_line(n: Seq<char>)
    requires
        no_newline(n),
        trim(n) == n,
    ensures
        no_newline(seq!['-', ' '] + n),
        strip_cr(seq!['-', ' '] + n) == seq!['-', ' '] + n,
        idea_note(seq!['-', ' '] + n) == Some(n),
{
    let l = seq!['-', ' '] + n;
    assert forall|j: int| 0 <= j < l.len() implies l[j] != '\n' by {
        if j >= 2 {
            assert(l[j] == n[j - 2]);
        }
    }
    lemma_trimmed(n);
    if n.len() > 0 {
        assert(l.last() == n.last());
    }
    assert(!is_space(l[0]));
    assert(trim_start(l) == l);
    assert(l.subrange(0, 2) =~= seq!['-', ' ']);
    assert(l.skip(2) =~= n);
}

/// Writing one more note adds it to the notes read back.
#[verifier::spinoff_prover]
proof fn lemma_idea_step(prev: Seq<Seq<char>>, n: Seq<char>)
    requires
        no_newline(n),
        trim(n) == n,
    ensures
        body_notes(notes_text(prev.push(n))) == body_notes(notes_text(prev)).push(n),
{
    let ns = prev.push(n);
    let a = notes_text(prev);
    let l = seq!['-', ' '] + n;
    assert(ns.drop_last() =~= prev);
    assert(ends_line(a));
    lemma_bullet_line(n);
    assert(notes_text(ns) =~= a + l + seq!['\n']);
    lemma_lines_append(a, l);
    let ls = lines(notes_text(ns));
    assert(ls == lines(a).push(l));
    assert(ls.drop_last() =~= lines(a));
    assert(ls.last() == l);
}

/// The notes of the body written for `ns`, read back, are `ns`, where every
/// note is trimmed and holds no line feed.
pub proof fn law_idea_body_round_trip(ns: Seq<Seq<char>>)
    requires
        forall|i: int| 0 <= i < ns.len() ==> no_newline(#[trigger] ns[i]) && trim(ns[i]) == ns[i],
    ensures
        body_notes(notes_text(ns)) == ns,
    decreases ns.len(),
{
    if ns.len() > 0 {
        let prev = ns.drop_last();
        law_idea_body_round_trip(prev);
        lemma_idea_step(prev, ns.last());
        assert(prev.push(ns.last()) =~= ns);
    }
}

/// The front matter and body of a written file come back out of it: the
/// YAML (which ends its last line and holds no line feed followed by `---`)
/// without its last line feed, and the body (which does not start with a
/// line feed).
pub proof fn law_frontmatter_round_trip(yaml: Seq<char>, body: Seq<char>)
    requires
        yaml.len() > 0,
        yaml.last() == '\n',
        !contains(yaml, close_fence()),
        body.len() == 0 || body[0] != '\n',
    ensures
        frontmatter_parts(document(yaml, body)) == Ok::<(Seq<char>, Seq<char>), FrontmatterError>(
            (yaml.drop_last(), body),
        ),
{
    let raw = document(yaml, body);
    let tail = seq!['-', '-', '-', '\n', '\n'] + body;
    assert(raw =~= open_fence() + (yaml + tail));
    assert(!starts_with(raw, bom())) by {
        assert(raw.subrange(0, 1)[0] == '-');
        assert(bom()[0] != '-');
    }
    assert(drop_repeated(raw, bom()) == raw);
    assert(raw.subrange(0, 4) =~= open_fence());
    let rest = raw.skip(4);
    assert(rest =~= yaml + tail);
    let n = yaml.len() as int;
    assert(occurs_at(rest, close_fence(), n - 1)) by {
        assert(rest.subrange(n - 1, n + 3) =~= close_fence());
    }
    assert forall|j: int| 0 <= j < n - 1 implies !occurs_at(rest, close_fence(), j) by {
        if occurs_at(rest, close_fence(), j) {
            if j + 4 <= n {
                assert(yaml.subrange(j, j + 4) =~= rest.subrange(j, j + 4));
                assert(occurs_at(yaml, close_fence(), j));
                assert(contains(yaml, close_fence()));
            } else {
                let m = n - 1 - j;
                assert(rest.subrange(j, j + 4)[m] == rest[n - 1]);
                assert(rest[n - 1] == '\n');
                assert(close_fence()[m] == '-');
            }
        }
    }
    lemma_find_first(rest, close_fence(), n - 1);
    assert(rest.take(n - 1) =~= yaml.drop_last());
    let after = rest.skip(n - 1);
    let nl_body = seq!['\n', '\n'] + body;
    assert(after =~= close_fence() + nl_body);
    assert(after.subrange(0, 4) =~= close_fence());
    assert(after.skip(4) =~= nl_body);
    assert(!starts_with(nl_body, close_fence())) by {
        if nl_body.len() >= 4 {
            assert(nl_body.subrange(0, 4)[1] == nl_body[1]);
        }
    }
    assert(drop_repeated(nl_body, close_fence()) == nl_body);
    assert(starts_with(after, close_fence()));
    assert(drop_repeated(after, close_fence()) == drop_repeated(after.skip(4), close_fence()));
    assert(drop_repeated(after, close_fence()) == nl_body);
    assert(!starts_with(nl_body, seq!['\r'])) by {
        assert(nl_body.subrange(0, 1)[0] == '\n');
    }
    assert(drop_repeated(nl_body, seq!['\r']) == nl_body);
    let one = seq!['\n'] + body;
    assert(nl_body.subrange(0, 1) =~= seq!['\n']);
    assert(nl_body.skip(1) =~= one);
    assert(one.subrange(0, 1) =~= seq!['\n']);
    assert(one.skip(1) =~= body);
    assert(!starts_with(body, seq!['\n'])) by {
        if body.len() > 0 {
            assert(body.subrange(0, 1)[0] == body[0]);
        }
    }
    assert(drop_repeated(body, seq!['\n']) == body);
    assert(drop_repeated(one, seq!['\n']) == body);
    assert(drop_repeated(nl_body, seq!['\n']) == body);
}

// -------------------------------------------------------------------------
// Project bodies.

/// The characters of a written UUID are hex digits and hyphens.
proof fn lemma_uuid_chars(id: u128)
    ensures
        uuid_hyphenated(id).len() == 36,
        forall|i: int|
            0 <= i < 36 ==> {
                let c = #[trigger] uuid_hyphenated(id)[i];
                c != '>' && c != '\n' && !is_space(c)
            },
{
    assert forall|x: u128| #[trigger] (x & 0xf) <= 15 by {
        assert((x & 0xf) <= 15) by (bit_vector);
    }
    assert forall|i: int| 0 <= i < 36 implies {
        let c = #[trigger] uuid_hyphenated(id)[i];
        c != '>' && c != '\n' && !is_space(c)
    } by {
        let k = crate::model::nibble_of_position(i);
        let sh = (4 * (31 - k)) as u128;
        assert(((id >> sh) & 0xf) <= 15);
        let n = nibble(id, k);
        assert(0 <= n <= 15);
    }
}

/// The words of ` w ` are `w` alone, where `w` is a non-empty word.
proof fn lemma_single_word(w: Seq<char>)
    requires
        w.len() > 0,
        forall|i: int| 0 <= i < w.len() ==> !is_space(#[trigger] w[i]),
    ensures
        words(seq![' '] + w + seq![' ']) == seq![w],
{
    let s = seq![' '] + w + seq![' '];
    let t = w + seq![' '];
    assert(s.drop_first() =~= t);
    assert(trim_start(t) == t) by {
        assert(!is_space(t[0]));
    }
    assert(trim_start(s) == t);
    assert forall|i: int| 0 <= i < w.len() implies !is_space(#[trigger] t[i]) by {
        assert(t[i] == w[i]);
    }
    lemma_word_len_eq(t, w.len() as int);
    assert(t.take(w.len() as int) =~= w);
    let u = t.skip(w.len() as int);
    assert(u =~= seq![' ']);
    assert(u.drop_first().len() == 0);
    assert(trim_start(u.drop_first()).len() == 0);
    assert(trim_start(u).len() == 0);
    assert(words(u) =~= Seq::<Seq<char>>::empty());
    assert(words(s) =~= seq![w]);
}

/// The line of a task without its line feed.
pub open spec fn task_line_chars(t: TaskView) -> Seq<char> {
    task_line_text(t).drop_last()
}

/// The comment of a task's line: `<!-- id:UUID -->`.
pub open spec fn id_comment(id: u128) -> Seq<char> {
    seq!['<', '!', '-', '-', ' ', 'i', 'd', ':'] + uuid_hyphenated(id) + seq![' ', '-', '-', '>']
}

/// The skeleton that a written task reads back as.
pub open spec fn skeleton_of(t: TaskView) -> TaskSkeleton {
    TaskSkeleton { title: t.title, completed: t.completed, id: Some(t.id), notes: t.notes }
}

/// Whether a note can be written on an indented line and read back: one
/// line, without trailing white space, not blank, and not itself looking
/// like a check-box line.
pub open spec fn clean_note(n: Seq<char>) -> bool {
    &&& no_newline(n)
    &&& trim_end(n) == n
    &&& trim(n).len() > 0
    &&& !starts_with(trim_start(n), box_open())
    &&& !starts_with(trim_start(n), box_done())
}

/// Whether a task can be written and read back: a trimmed one-line title
/// without a comment opening, and clean notes.
pub open spec fn clean_task(t: TaskView) -> bool {
    &&& no_newline(t.title)
    &&& trim(t.title) == t.title
    &&& !contains(t.title, comment_open())
    &&& forall|i: int| 0 <= i < t.notes.len() ==> clean_note(#[trigger] t.notes[i])
}

/// The text after a written task's check box, past white space: the title
/// and a space (nothing for an empty title), then the id comment.
pub open spec fn after_box(t: TaskView) -> Seq<char> {
    (if t.title.len() > 0 {
        t.title + seq![' ']
    } else {
        seq![]
    }) + id_comment(t.id)
}

proof fn lemma_after_box(t: TaskView)
    requires
        trim(t.title) == t.title,
    ensures
        trim_start(task_line_chars(t).skip(5)) == after_box(t),
{
    let title = t.title;
    let c = id_comment(t.id);
    lemma_trimmed(title);
    let line = task_line_chars(t);
    let a = seq![' '] + title + seq![' '] + c;
    assert(line.skip(5) =~= a);
    assert(is_space(a[0]));
    let b = title + seq![' '] + c;
    assert(a.drop_first() =~= b);
    assert(trim_start(a) == trim_start(b));
    if title.len() > 0 {
        assert(b[0] == title[0]);
        assert(trim_start(b) == b);
        assert(b =~= after_box(t));
    } else {
        let d = seq![' '] + c;
        assert(b =~= d);
        assert(is_space(d[0]));
        assert(d.drop_first() =~= c);
        assert(trim_start(d) == trim_start(c));
        assert(c[0] == '<');
        assert(trim_start(c) == c);
        assert(c =~= after_box(t));
    }
}

#[verifier::spinoff_prover]
proof fn lemma_comment_bounds(t: TaskView)
    requires
        trim(t.title) == t.title,
        !contains(t.title, comment_open()),
    ensures
        comment_bounds(after_box(t)) == Some((after_box(t).len() - 48, 45int)),
        after_box(t).len() >= 48,
{
    let title = t.title;
    let u = uuid_hyphenated(t.id);
    let c = id_comment(t.id);
    let s = after_box(t);
    lemma_uuid_chars(t.id);
    assert(c.len() == 48);
    let start = s.len() - 48;
    assert(s.skip(start) =~= c);
    assert(occurs_at(s, comment_open(), start)) by {
        assert(s.subrange(start, start + 4) =~= comment_open());
    }
    assert forall|j: int| 0 <= j < start implies !occurs_at(s, comment_open(), j) by {
        if occurs_at(s, comment_open(), j) {
            if j + 4 <= title.len() {
                assert(title.subrange(j, j + 4) =~= s.subrange(j, j + 4));
                assert(occurs_at(title, comment_open(), j));
            } else {
                let m = title.len() - j;
                assert(s.subrange(j, j + 4)[m] == s[title.len() as int]);
                assert(s[title.len() as int] == ' ');
            }
        }
    }
    lemma_find_first(s, comment_open(), start);
    assert(occurs_at(c, comment_close(), 45)) by {
        assert(c.subrange(45, 48) =~= comment_close());
    }
    assert forall|j: int| 0 <= j < 45 implies !occurs_at(c, comment_close(), j) by {
        if occurs_at(c, comment_close(), j) {
            assert(c.subrange(j, j + 3)[2] == c[j + 2]);
            if 8 <= j + 2 < 44 {
                assert(c[j + 2] == u[j + 2 - 8]);
            }
        }
    }
    lemma_find_first(c, comment_close(), 45);
}

/// The title and id of the text after a written task's check box.
proof fn lemma_title_and_id(t: TaskView)
    requires
        clean_task(t),
    ensures
        title_and_id(trim_start(task_line_chars(t).skip(5))) == (t.title, Some(t.id)),
{
    let title = t.title;
    let u = uuid_hyphenated(t.id);
    let c = id_comment(t.id);
    lemma_after_box(t);
    lemma_comment_bounds(t);
    lemma_uuid_chars(t.id);
    lemma_trimmed(title);
    let s = after_box(t);
    let start = s.len() - 48;
    let p = s.take(start);
    assert(trim(p) == title) by {
        if title.len() > 0 {
            assert(p =~= title + seq![' ']);
            assert(trim_start(p) == p) by {
                assert(p[0] == title[0]);
            }
            assert(p.drop_last() =~= title);
            assert(is_space(p.last()));
        } else {
            assert(p.len() == 0);
            assert(trim_start(p) =~= p);
        }
    }
    let w = id_prefix() + u;
    assert(s.subrange(start + 4, start + 45) =~= seq![' '] + w + seq![' ']);
    assert forall|i: int| 0 <= i < w.len() implies !is_space(#[trigger] w[i]) by {
        if i >= 3 {
            assert(w[i] == u[i - 3]);
        }
    }
    lemma_single_word(w);
    assert(w.subrange(0, 3) =~= id_prefix());
    assert(w.skip(3) =~= u);
    assert(seq![w].drop_last().len() == 0);
    law_id_text_round_trip(t.id);
    assert(id_in_words(seq![w]) == Some(t.id));
}

/// A written task line reads back as the task, without notes.
proof fn lemma_task_line(t: TaskView)
    requires
        clean_task(t),
    ensures
        task_line(task_line_chars(t)) == Some(TaskSkeleton { notes: seq![], ..skeleton_of(t) }),
{
    let l = task_line_chars(t);
    lemma_title_and_id(t);
    assert(l[0] == '-');
    assert(trim_start(l) == l);
    assert(l.subrange(0, 5) =~= seq!['-', ' ', '[', mark(t.completed), ']']);
    if t.completed {
        assert(starts_with(l, box_done()));
    } else {
        assert(starts_with(l, box_open()));
        assert(!starts_with(l, box_done()));
    }
}

/// The open task, if any, closed off.
pub open spec fn closed(f: (Seq<TaskSkeleton>, Option<TaskSkeleton>)) -> Seq<TaskSkeleton> {
    match f.1 {
        Some(c) => f.0.push(c),
        None => f.0,
    }
}

/// What reading one more line does to the tasks read so far (the step of
/// `fold_tasks`).
pub open spec fn fold_step(prev: (Seq<TaskSkeleton>, Option<TaskSkeleton>), line: Seq<char>) -> (
    Seq<TaskSkeleton>,
    Option<TaskSkeleton>,
) {
    match task_line(line) {
        Some(t) => (closed(prev), Some(t)),
        None => if starts_with(line, indent()) && prev.1 is Some && trim(line.skip(2)).len() > 0 {
            (
                prev.0,
                Some(
                    TaskSkeleton {
                        notes: prev.1->0.notes.push(trim_end(line.skip(2))),
                        ..prev.1->0
                    },
                ),
            )
        } else {
            prev
        },
    }
}

proof fn lemma_fold_push(ls: Seq<Seq<char>>, x: Seq<char>)
    ensures
        fold_tasks(ls.push(x)) == fold_step(fold_tasks(ls), x),
{
    assert(ls.push(x).drop_last() =~= ls);
}

/// A clean note's indented line is no task line and adds the note.
proof fn lemma_note_line(n: Seq<char>)
    requires
        clean_note(n),
    ensures
        no_newline(indent() + n),
        strip_cr(indent() + n) == indent() + n,
        task_line(indent() + n) is None,
        starts_with(indent() + n, indent()),
        (indent() + n).skip(2) == n,
        trim(n).len() > 0,
        trim_end(n) == n,
        trim_start(indent() + n) == trim_start(n),
{
    let nl = indent() + n;
    assert(no_newline(nl)) by {
        assert forall|j: int| 0 <= j < nl.len() implies nl[j] != '\n' by {
            if j >= 2 {
                assert(nl[j] == n[j - 2]);
            }
        }
    }
    lemma_trim_end_take(n);
    assert(n.len() > 0) by {
        if n.len() == 0 {
            assert(trim_start(n) =~= n);
        }
    }
    assert(strip_cr(nl) == nl) by {
        assert(nl.last() == n.last());
    }
    assert(is_space(nl[0]) && is_space(nl[1]));
    assert(nl.drop_first().drop_first() =~= n);
    assert(trim_start(nl) == trim_start(nl.drop_first()));
    assert(trim_start(nl.drop_first()) == trim_start(n));
    assert(nl.subrange(0, 2) =~= indent());
    assert(nl.skip(2) =~= n);
}

/// A written task line holds no line feed and reads back as the task.
proof fn lemma_line_facts(t: TaskView)
    requires
        clean_task(t),
    ensures
        task_line_text(t) == task_line_chars(t) + seq!['\n'],
        no_newline(task_line_chars(t)),
        strip_cr(task_line_chars(t)) == task_line_chars(t),
        task_line(task_line_chars(t)) == Some(TaskSkeleton { notes: seq![], ..skeleton_of(t) }),
{
    let l = task_line_chars(t);
    assert(task_line_text(t) =~= l + seq!['\n']);
    lemma_uuid_chars(t.id);
    let u = uuid_hyphenated(t.id);
    assert forall|j: int| 0 <= j < l.len() implies l[j] != '\n' by {
        let n = t.title.len() as int;
        if 6 <= j < 6 + n {
            assert(l[j] == t.title[j - 6]);
        } else if 15 + n <= j < 51 + n {
            assert(l[j] == u[j - 15 - n]);
        }
    }
    lemma_task_line(t);
}

/// The notes of a written task read back one by one.
#[verifier::rlimit(40)]
#[verifier::spinoff_prover]
proof fn lemma_block_notes(a: Seq<char>, t: TaskView, k: int)
    requires
        ends_line(a),
        clean_task(t),
        0 <= k <= t.notes.len(),
    ensures
        ends_line(a + task_line_text(t) + note_lines(t.notes.take(k))),
        fold_tasks(lines(a + task_line_text(t) + note_lines(t.notes.take(k)))) == (
            closed(fold_tasks(lines(a))),
            Some(TaskSkeleton { notes: t.notes.take(k), ..skeleton_of(t) }),
        ),
    decreases k,
{
    if k == 0 {
        let l = task_line_chars(t);
        lemma_line_facts(t);
        assert(t.notes.take(0) =~= Seq::<Seq<char>>::empty());
        let s = a + task_line_text(t) + note_lines(t.notes.take(k));
        assert(s =~= a + l + seq!['\n']);
        lemma_lines_append(a, l);
        lemma_fold_push(lines(a), l);
        assert(lines(s) == lines(a).push(l));
    } else {
        lemma_block_notes(a, t, k - 1);
        let prev = a + task_line_text(t) + note_lines(t.notes.take(k - 1));
        let n = t.notes[k - 1];
        let nl = indent() + n;
        lemma_note_line(n);
        assert(t.notes.take(k).drop_last() =~= t.notes.take(k - 1));
        assert(t.notes.take(k - 1).push(n) =~= t.notes.take(k));
        let s = a + task_line_text(t) + note_lines(t.notes.take(k));
        assert(s =~= prev + nl + seq!['\n']);
        lemma_lines_append(prev, nl);
        lemma_fold_push(lines(prev), nl);
        assert(lines(s) == lines(prev).push(nl));
    }
}

/// A written task block reads back as the task, left open.
#[verifier::rlimit(40)]
#[verifier::spinoff_prover]
proof fn lemma_block(a: Seq<char>, t: TaskView)
    requires
        ends_line(a),
        clean_task(t),
    ensures
        ends_line(a + task_block(t)),
        fold_tasks(lines(a + task_block(t))) == (closed(fold_tasks(lines(a))), Some(skeleton_of(t))),
{
    let k = t.notes.len() as int;
    lemma_block_notes(a, t, k);
    assert(t.notes.take(k) =~= t.notes);
    let prev = a + task_line_text(t) + note_lines(t.notes);
    let e = Seq::<char>::empty();
    let s = a + task_block(t);
    assert(s =~= prev + e + seq!['\n']);
    lemma_blank_line();
    lemma_lines_append(prev, e);
    lemma_fold_push(lines(prev), e);
    assert(lines(s) == lines(prev).push(e));
}

/// A blank line is no task line and no note line.
proof fn lemma_blank_line()
    ensures
        no_newline(Seq::<char>::empty()),
        strip_cr(Seq::<char>::empty()) == Seq::<char>::empty(),
        task_line(Seq::<char>::empty()) is None,
        !starts_with(Seq::<char>::empty(), indent()),
{
    let e = Seq::<char>::empty();
    assert(trim_start(e) =~= e);
}

/// The tasks of a written project body read back, the last one still open.
#[verifier::spinoff_prover]
proof fn lemma_tasks_fold(ts: Seq<TaskView>)
    requires
        forall|i: int| 0 <= i < ts.len() ==> clean_task(#[trigger] ts[i]),
    ensures
        ends_line(tasks_text(ts)),
        closed(fold_tasks(lines(tasks_text(ts)))) == ts.map_values(|t: TaskView| skeleton_of(t)),
    decreases ts.len(),
{
    if ts.len() == 0 {
        assert(lines(tasks_text(ts)) =~= Seq::<Seq<char>>::empty());
        assert(ts.map_values(|t: TaskView| skeleton_of(t)) =~= Seq::<TaskSkeleton>::empty());
    } else {
        let prev = ts.drop_last();
        assert forall|i: int| 0 <= i < prev.len() implies clean_task(#[trigger] prev[i]) by {
            assert(prev[i] == ts[i]);
        }
        lemma_tasks_fold(prev);
        lemma_block(tasks_text(prev), ts.last());
        assert(tasks_text(ts) == tasks_text(prev) + task_block(ts.last()));
        assert(ts.map_values(|t: TaskView| skeleton_of(t)) =~= prev.map_values(
            |t: TaskView| skeleton_of(t),
        ).push(skeleton_of(ts.last())));
    }
}

/// The tasks read back from the body written for `ts` are `ts`, where every
/// task is clean (see `clean_task`): whatever tasks fit the skeletons that
/// the body describes, they are the tasks written, ids included.
pub proof fn law_project_body_round_trip(ts: Seq<TaskView>, read: Seq<TaskView>)
    requires
        forall|i: int| 0 <= i < ts.len() ==> clean_task(#[trigger] ts[i]),
        tasks_fit(read, body_tasks(tasks_text(ts))),
    ensures
        read == ts,
{
    lemma_tasks_fold(ts);
    let ss = body_tasks(tasks_text(ts));
    assert(ss == closed(fold_tasks(lines(tasks_text(ts)))));
    assert(read.len() == ts.len());
    assert forall|i: int| 0 <= i < ts.len() implies read[i] == ts[i] by {
        assert(ss[i] == skeleton_of(ts[i]));
        assert(crate::storage::task_fits(read[i], ss[i]));
    }
    assert(read =~= ts);
}

proof fn lemma_tasks_text_start(ts: Seq<TaskView>)
    ensures
        tasks_text(ts).len() == 0 || tasks_text(ts)[0] == '-',
    decreases ts.len(),
{
    if ts.len() > 0 {
        lemma_tasks_text_start(ts.drop_last());
        let a = tasks_text(ts.drop_last());
        let b = task_block(ts.last());
        assert(tasks_text(ts) == a + b);
        if a.len() == 0 {
            assert((a + b)[0] == b[0]);
        } else {
            assert((a + b)[0] == a[0]);
        }
    }
}

proof fn lemma_notes_text_start(ns: Seq<Seq<char>>)
    ensures
        notes_text(ns).len() == 0 || notes_text(ns)[0] == '-',
    decreases ns.len(),
{
    if ns.len() > 0 {
        lemma_notes_text_start(ns.drop_last());
        let a = notes_text(ns.drop_last());
        let b = seq!['-', ' '] + ns.last() + seq!['\n'];
        assert(notes_text(ns) == a + b);
        if a.len() == 0 {
            assert((a + b)[0] == b[0]);
        } else {
            assert((a + b)[0] == a[0]);
        }
    }
}

/// Whether YAML text can stand between the fences of a file: it ends its
/// last line and holds no line feed followed by `---`.
pub open spec fn clean_yaml(yaml: Seq<char>) -> bool {
    yaml.len() > 0 && yaml.last() == '\n' && !contains(yaml, close_fence())
}

/// A written project file reads back: the front matter is the YAML written
/// (without its last line feed), and the tasks read from the body are the
/// tasks written.
pub proof fn law_project_file_round_trip(yaml: Seq<char>, ts: Seq<TaskView>, read: Seq<TaskView>)
    requires
        clean_yaml(yaml),
        forall|i: int| 0 <= i < ts.len() ==> clean_task(#[trigger] ts[i]),
    ensures
        frontmatter_parts(document(yaml, tasks_text(ts))) == Ok::<
            (Seq<char>, Seq<char>),
            FrontmatterError,
        >((yaml.drop_last(), tasks_text(ts))),
        project_body_ok(tasks_text(ts)),
        tasks_fit(read, body_tasks(tasks_text(ts))) ==> read == ts,
{
    law_written_body_readable(ts);
    lemma_tasks_text_start(ts);
    law_frontmatter_round_trip(yaml, tasks_text(ts));
    if tasks_fit(read, body_tasks(tasks_text(ts))) {
        law_project_body_round_trip(ts, read);
    }
}

/// A written idea file reads back: the front matter is the YAML written
/// (without its last line feed), and the notes read from the body are the
/// notes written, where every note is trimmed and holds no line feed.
pub proof fn law_idea_file_round_trip(yaml: Seq<char>, ns: Seq<Seq<char>>)
    requires
        clean_yaml(yaml),
        forall|i: int| 0 <= i < ns.len() ==> no_newline(#[trigger] ns[i]) && trim(ns[i]) == ns[i],
    ensures
        frontmatter_parts(document(yaml, notes_text(ns))) == Ok::<
            (Seq<char>, Seq<char>),
            FrontmatterError,
        >((yaml.drop_last(), notes_text(ns))),
        body_notes(notes_text(ns)) == ns,
{
    lemma_notes_text_start(ns);
    law_frontmatter_round_trip(yaml, notes_text(ns));
    law_idea_body_round_trip(ns);
}

// -------------------------------------------------------------------------
// Written project bodies can be read.

/// A written task line can be read (its comment closes after it opens).
proof fn lemma_task_line_ok(t: TaskView)
    requires
        clean_task(t),
    ensures
        task_line_ok(task_line_chars(t)),
{
    let l = task_line_chars(t);
    lemma_after_box(t);
    lemma_comment_bounds(t);
    assert(l[0] == '-');
    assert(trim_start(l) == l);
    assert(comment_ok(after_box(t)));
}

/// A line that reads fine, appended to a readable body, leaves it readable.
proof fn lemma_ok_push(a: Seq<char>, l: Seq<char>)
    requires
        ends_line(a),
        no_newline(l),
        project_body_ok(a),
        task_line_ok(strip_cr(l)),
    ensures
        project_body_ok(a + l + seq!['\n']),
        ends_line(a + l + seq!['\n']),
{
    lemma_lines_append(a, l);
    let ls = lines(a + l + seq!['\n']);
    assert forall|i: int| 0 <= i < ls.len() implies task_line_ok(#[trigger] ls[i]) by {
        if i < lines(a).len() {
            assert(ls[i] == lines(a)[i]);
        }
    }
}

/// A written task block, appended to a readable body, leaves it readable.
#[verifier::spinoff_prover]
proof fn lemma_block_ok(a: Seq<char>, t: TaskView, k: int)
    requires
        ends_line(a),
        clean_task(t),
        project_body_ok(a),
        0 <= k <= t.notes.len(),
    ensures
        project_body_ok(a + task_line_text(t) + note_lines(t.notes.take(k))),
        ends_line(a + task_line_text(t) + note_lines(t.notes.take(k))),
    decreases k,
{
    if k == 0 {
        let l = task_line_chars(t);
        lemma_line_facts(t);
        lemma_task_line_ok(t);
        assert(t.notes.take(0) =~= Seq::<Seq<char>>::empty());
        assert(a + task_line_text(t) + note_lines(t.notes.take(k)) =~= a + l + seq!['\n']);
        lemma_ok_push(a, l);
    } else {
        lemma_block_ok(a, t, k - 1);
        let prev = a + task_line_text(t) + note_lines(t.notes.take(k - 1));
        let n = t.notes[k - 1];
        let nl = indent() + n;
        lemma_note_line(n);
        assert(task_line_ok(nl)) by {
            assert(clean_note(n));
        }
        assert(t.notes.take(k).drop_last() =~= t.notes.take(k - 1));
        assert(t.notes.take(k).last() == n);
        assert(a + task_line_text(t) + note_lines(t.notes.take(k)) =~= prev + nl + seq!['\n']);
        lemma_ok_push(prev, nl);
    }
}

/// The body written for clean tasks can be read: no task line's comment
/// closes inside its own opening.
pub proof fn law_written_body_readable(ts: Seq<TaskView>)
    requires
        forall|i: int| 0 <= i < ts.len() ==> clean_task(#[trigger] ts[i]),
    ensures
        project_body_ok(tasks_text(ts)),
    decreases ts.len(),
{
    if ts.len() == 0 {
        assert(lines(tasks_text(ts)) =~= Seq::<Seq<char>>::empty());
    } else {
        let prev = ts.drop_last();
        let t = ts.last();
        assert forall|i: int| 0 <= i < prev.len() implies clean_task(#[trigger] prev[i]) by {
            assert(prev[i] == ts[i]);
        }
        law_written_body_readable(prev);
        lemma_tasks_fold(prev);
        lemma_block_ok(tasks_text(prev), t, t.notes.len() as int);
        assert(t.notes.take(t.notes.len() as int) =~= t.notes);
        let b = tasks_text(prev) + task_line_text(t) + note_lines(t.notes);
        lemma_blank_line();
        assert(task_line_ok(Seq::<char>::empty())) by {
            assert(trim_start(Seq::<char>::empty()) =~= Seq::<char>::empty());
        }
        lemma_ok_push(b, Seq::<char>::empty());
        assert(tasks_text(ts) =~= b + Seq::<char>::empty() + seq!['\n']);
    }
}

} // verus!
