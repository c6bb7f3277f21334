//! The order of projects and ideas: by title, case-insensitively, with items
//! of equal keys kept in the order they came in.

use vstd::prelude::*;
use crate::app::{first_where, lemma_first_where, lemma_first_where_found};
use crate::model::{Idea, IdeaView, Project, ProjectView, idea_views, project_views};
use crate::text::{chars_of, lowercase, to_lowercase};

verus! {

/// Whether `a` comes strictly before `b`, comparing characters by their code
/// points from the left, a proper prefix first. This is the order of `str`
/// (UTF-8 bytes compare as their code points do).
pub open spec fn text_lt(a: Seq<char>, b: Seq<char>) -> bool
    decreases a.len(),
{
    if b.len() == 0 {
        false
    } else if a.len() == 0 {
        true
    } else if a[0] != b[0] {
        (a[0] as u32) < (b[0] as u32)
    } else {
        text_lt(a.drop_first(), b.drop_first())
    }
}

/// The sort key of a project: its title in lower case.
pub open spec fn project_key(p: ProjectView) -> Seq<char> {
    lowercase(p.title)
}

/// The sort key of an idea: its title in lower case.
pub open spec fn idea_key(i: IdeaView) -> Seq<char> {
    lowercase(i.title)
}

/// `s` with `x` inserted before the first element whose key is greater than
/// that of `x` (at the end if there is none).
pub open spec fn insert_by_key<T>(s: Seq<T>, x: T, key: spec_fn(T) -> Seq<char>) -> Seq<T> {
    match first_where(s, |y: T| text_lt(key(x), key(y))) {
        Some(j) => s.insert(j, x),
        None => s.push(x),
    }
}

/// The stable sort of `s` by `key`: each element in turn inserted after the
/// elements already placed whose keys are not greater.
pub open spec fn sort_by_key<T>(s: Seq<T>, key: spec_fn(T) -> Seq<char>) -> Seq<T>
    decreases s.len(),
{
    if s.len() == 0 {
        s
    } else {
        insert_by_key(sort_by_key(s.drop_last(), key), s.last(), key)
    }
}

/// Projects in title order.
pub open spec fn sort_projects(s: Seq<ProjectView>) -> Seq<ProjectView> {
    sort_by_key(s, |p: ProjectView| project_key(p))
}

/// Ideas in title order.
pub open spec fn sort_ideas(s: Seq<IdeaView>) -> Seq<IdeaView> {
    sort_by_key(s, |i: IdeaView| idea_key(i))
}

/// Whether `a` comes strictly before `b` (see `text_lt`).
fn chars_lt(a: &[char], b: &[char]) -> (r: bool)
    ensures
        r == text_lt(a@, b@),
{
    let mut i: usize = 0;
    assert(a@.skip(0) =~= a@);
    assert(b@.skip(0) =~= b@);
    while i < a.len() && i < b.len() && a[i] == b[i]
        invariant
            i <= a@.len(),
            i <= b@.len(),
            text_lt(a@, b@) == text_lt(a@.skip(i as int), b@.skip(i as int)),
        decreases a@.len() - i,
    {
        proof {
            let sa = a@.skip(i as int);
            let sb = b@.skip(i as int);
            assert(sa.drop_first() =~= a@.skip(i + 1));
            assert(sb.drop_first() =~= b@.skip(i + 1));
        }
        i = i + 1;
    }
    if i >= b.len() {
        false
    } else if i >= a.len() {
        true
    } else {
        (a[i] as u32) < (b[i] as u32)
    }
}

/// Whether title `a` comes strictly before title `b`, case-insensitively.
fn title_lt(a: &str, b: &str) -> (r: bool)
    ensures
        r == text_lt(lowercase(a@), lowercase(b@)),
{
    let la = to_lowercase(a);
    let lb = to_lowercase(b);
    let ca = chars_of(la.as_str());
    let cb = chars_of(lb.as_str());
    chars_lt(ca.as_slice(), cb.as_slice())
}

/// Inserts `x` into the sorted `out` after the projects whose keys are not
/// greater.
fn insert_project(out: &mut Vec<Project>, x: Project)
    ensures
        project_views(final(out)@) == insert_by_key(
            project_views(old(out)@),
            x@,
            |p: ProjectView| project_key(p),
        ),
{
    let ghost key = |p: ProjectView| project_key(p);
    let ghost s = project_views(out@);
    let ghost f = |y: ProjectView| text_lt(key(x@), key(y));
    let mut j: usize = 0;
    let mut stop = false;
    while j < out.len() && !stop
        invariant
            s == project_views(out@),
            stop ==> j < out@.len() && f(s[j as int]),
            key == (|p: ProjectView| project_key(p)),
            f == (|y: ProjectView| text_lt(key(x@), key(y))),
            j <= out@.len(),
            forall|k: int| 0 <= k < j ==> !f(#[trigger] s[k]),
        decreases out@.len() - j + (if stop {
            0int
        } else {
            1int
        }),
    {
        if title_lt(x.title.as_str(), out[j].title.as_str()) {
            assert(s[j as int] == out@[j as int]@);
            stop = true;
        } else {
            assert(s[j as int] == out@[j as int]@);
            j = j + 1;
        }
    }
    proof {
        lemma_first_where(s, f, j as int);
    }
    let ghost xv = x@;
    out.insert(j, x);
    assert(project_views(out@) =~= if j < s.len() {
        s.insert(j as int, xv)
    } else {
        s.push(xv)
    });
}

/// Inserts `x` into the sorted `out` after the ideas whose keys are not
/// greater.
fn insert_idea(out: &mut Vec<Idea>, x: Idea)
    ensures
        idea_views(final(out)@) == insert_by_key(
            idea_views(old(out)@),
            x@,
            |i: IdeaView| idea_key(i),
        ),
{
    let ghost key = |i: IdeaView| idea_key(i);
    let ghost s = idea_views(out@);
    let ghost f = |y: IdeaView| text_lt(key(x@), key(y));
    let mut j: usize = 0;
    let mut stop = false;
    while j < out.len() && !stop
        invariant
            s == idea_views(out@),
            stop ==> j < out@.len() && f(s[j as int]),
            key == (|i: IdeaView| idea_key(i)),
            f == (|y: IdeaView| text_lt(key(x@), key(y))),
            j <= out@.len(),
            forall|k: int| 0 <= k < j ==> !f(#[trigger] s[k]),
        decreases out@.len() - j + (if stop {
            0int
        } else {
            1int
        }),
    {
        if title_lt(x.title.as_str(), out[j].title.as_str()) {
            assert(s[j as int] == out@[j as int]@);
            stop = true;
        } else {
            assert(s[j as int] == out@[j as int]@);
            j = j + 1;
        }
    }
    proof {
        lemma_first_where(s, f, j as int);
    }
    let ghost xv = x@;
    out.insert(j, x);
    assert(idea_views(out@) =~= if j < s.len() {
        s.insert(j as int, xv)
    } else {
        s.push(xv)
    });
}

/// Sorts projects by title, case-insensitively; projects with equal keys
/// keep their order.
pub fn sort_projects_by_title(v: &mut Vec<Project>)
    ensures
        project_views(final(v)@) == sort_projects(project_views(old(v)@)),
{
    let ghost s0 = project_views(v@);
    let n = v.len();
    assert(s0.len() == n);
    let mut out: Vec<Project> = Vec::new();
    let mut taken: usize = 0;
    while v.len() > 0
        invariant
            taken + v@.len() == s0.len(),
            s0.len() <= usize::MAX,
            project_views(v@) == s0.skip(taken as int),
            project_views(out@) == sort_projects(s0.take(taken as int)),
        decreases v@.len(),
    {
        let ghost before = v@;
        assert(project_views(before)[0] == before[0]@);
        let x = v.remove(0);
        proof {
            assert(x@ == s0[taken as int]);
            assert(s0.take(taken + 1).drop_last() =~= s0.take(taken as int));
            assert forall|k: int| 0 <= k < v@.len() implies #[trigger] project_views(v@)[k] == s0.skip(
                taken + 1,
            )[k] by {
                assert(v@[k] == before[k + 1]);
                assert(project_views(before)[k + 1] == before[k + 1]@);
            }
            assert(project_views(v@) =~= s0.skip(taken + 1));
        }
        insert_project(&mut out, x);
        taken = taken + 1;
    }
    assert(s0.take(taken as int) =~= s0);
    *v = out;
}

/// Sorts ideas by title, case-insensitively; ideas with equal keys keep
/// their order.
pub fn sort_ideas_by_title(v: &mut Vec<Idea>)
    ensures
        idea_views(final(v)@) == sort_ideas(idea_views(old(v)@)),
{
    let ghost s0 = idea_views(v@);
    let n = v.len();
    assert(s0.len() == n);
    let mut out: Vec<Idea> = Vec::new();
    let mut taken: usize = 0;
    while v.len() > 0
        invariant
            taken + v@.len() == s0.len(),
            s0.len() <= usize::MAX,
            idea_views(v@) == s0.skip(taken as int),
            idea_views(out@) == sort_ideas(s0.take(taken as int)),
        decreases v@.len(),
    {
        let ghost before = v@;
        assert(idea_views(before)[0] == before[0]@);
        let x = v.remove(0);
        proof {
            assert(x@ == s0[taken as int]);
            assert(s0.take(taken + 1).drop_last() =~= s0.take(taken as int));
            assert forall|k: int| 0 <= k < v@.len() implies #[trigger] idea_views(v@)[k] == s0.skip(
                taken + 1,
            )[k] by {
                assert(v@[k] == before[k + 1]);
                assert(idea_views(before)[k + 1] == before[k + 1]@);
            }
            assert(idea_views(v@) =~= s0.skip(taken + 1));
        }
        insert_idea(&mut out, x);
        taken = taken + 1;
    }
    assert(s0.take(taken as int) =~= s0);
    *v = out;
}

// -------------------------------------------------------------------------
// Laws.

/// No text comes before itself, and of two texts at most one comes first.
pub proof fn lemma_text_lt_asymmetric(a: Seq<char>, b: Seq<char>)
    ensures
        !(text_lt(a, b) && text_lt(b, a)),
    decreases a.len(),
{
    if a.len() > 0 && b.len() > 0 && a[0] == b[0] {
        lemma_text_lt_asymmetric(a.drop_first(), b.drop_first());
    }
}

/// The order of texts is transitive.
pub proof fn lemma_text_lt_transitive(a: Seq<char>, b: Seq<char>, c: Seq<char>)
    requires
        text_lt(a, b),
        text_lt(b, c),
    ensures
        text_lt(a, c),
    decreases a.len(),
{
    if a.len() > 0 && a[0] == b[0] && b[0] == c[0] {
        lemma_text_lt_transitive(a.drop_first(), b.drop_first(), c.drop_first());
    }
}

/// Whether no element of `s` has a key that comes before the key of an
/// element before it.
pub open spec fn sorted_by_key<T>(s: Seq<T>, key: spec_fn(T) -> Seq<char>) -> bool {
    forall|i: int, j: int| 0 <= i < j < s.len() ==> !text_lt(key(s[j]), key(s[i]))
}

proof fn lemma_insert_sorted<T>(s: Seq<T>, x: T, key: spec_fn(T) -> Seq<char>)
    requires
        sorted_by_key(s, key),
    ensures
        sorted_by_key(insert_by_key(s, x, key), key),
        insert_by_key(s, x, key).to_multiset() == s.to_multiset().insert(x),
{
    let f = |y: T| text_lt(key(x), key(y));
    lemma_first_where_found(s, f);
    match first_where(s, f) {
        Some(j) => {
            let r = s.insert(j, x);
            vstd::seq_lib::to_multiset_insert(s, j, x);
            assert forall|i: int, m: int| 0 <= i < m < r.len() implies !text_lt(
                key(r[m]),
                key(r[i]),
            ) by {
                if m < j {
                    assert(r[i] == s[i] && r[m] == s[m]);
                } else if m == j {
                    assert(r[i] == s[i]);
                    assert(!f(s[i]));
                } else if i == j {
                    assert(r[m] == s[m - 1]);
                    assert(f(s[j]));
                    if text_lt(key(s[m - 1]), key(x)) {
                        if m - 1 == j {
                            lemma_text_lt_asymmetric(key(x), key(s[j]));
                        } else {
                            lemma_text_lt_transitive(key(s[m - 1]), key(x), key(s[j]));
                        }
                    }
                } else if i < j {
                    assert(r[i] == s[i] && r[m] == s[m - 1]);
                } else {
                    assert(r[i] == s[i - 1] && r[m] == s[m - 1]);
                }
            }
        },
        None => {
            let r = s.push(x);
            vstd::seq_lib::to_multiset_build(s, x);
            assert forall|i: int, m: int| 0 <= i < m < r.len() implies !text_lt(
                key(r[m]),
                key(r[i]),
            ) by {
                assert(r[i] == s[i]);
                if m < s.len() {
                    assert(r[m] == s[m]);
                } else {
                    assert(!f(s[i]));
                }
            }
        },
    }
}

/// Sorting puts the elements in the order of their keys, and keeps every
/// element, each as many times as it was there.
pub proof fn law_sort_by_key<T>(s: Seq<T>, key: spec_fn(T) -> Seq<char>)
    ensures
        sorted_by_key(sort_by_key(s, key), key),
        sort_by_key(s, key).to_multiset() == s.to_multiset(),
    decreases s.len(),
{
    if s.len() == 0 {
        assert(sort_by_key(s, key) == s);
    } else {
        law_sort_by_key(s.drop_last(), key);
        lemma_insert_sorted(sort_by_key(s.drop_last(), key), s.last(), key);
        vstd::seq_lib::to_multiset_build(s.drop_last(), s.last());
        assert(s.drop_last().push(s.last()) =~= s);
    }
}

/// The projects in title order are in the order of their whole lower-cased
/// titles, and are the projects that were there.
pub proof fn law_sort_projects(s: Seq<ProjectView>)
    ensures
        sorted_by_key(sort_projects(s), |p: ProjectView| project_key(p)),
        forall|i: int, j: int|
            0 <= i < j < s.len() ==> !(text_lt(
                lowercase(#[trigger] sort_projects(s)[j].title),
                lowercase(#[trigger] sort_projects(s)[i].title),
            )),
        sort_projects(s).to_multiset() == s.to_multiset(),
        sort_projects(s).len() == s.len(),
{
    let key = |p: ProjectView| project_key(p);
    law_sort_by_key(s, key);
    let r = sort_projects(s);
    assert(r.len() == s.len()) by {
        assert(r.to_multiset().len() == s.to_multiset().len());
        r.to_multiset_ensures();
        s.to_multiset_ensures();
    }
    assert forall|i: int, j: int| 0 <= i < j < s.len() implies !text_lt(
        lowercase(#[trigger] r[j].title),
        lowercase(#[trigger] r[i].title),
    ) by {
        assert(key(r[j]) == lowercase(r[j].title));
        assert(key(r[i]) == lowercase(r[i].title));
    }
}

/// The ideas in title order are in the order of their whole lower-cased
/// titles, and are the ideas that were there.
pub proof fn law_sort_ideas(s: Seq<IdeaView>)
    ensures
        sorted_by_key(sort_ideas(s), |i: IdeaView| idea_key(i)),
        forall|i: int, j: int|
            0 <= i < j < s.len() ==> !(text_lt(
                lowercase(#[trigger] sort_ideas(s)[j].title),
                lowercase(#[trigger] sort_ideas(s)[i].title),
            )),
        sort_ideas(s).to_multiset() == s.to_multiset(),
        sort_ideas(s).len() == s.len(),
{
    let key = |i: IdeaView| idea_key(i);
    law_sort_by_key(s, key);
    let r = sort_ideas(s);
    assert(r.len() == s.len()) by {
        assert(r.to_multiset().len() == s.to_multiset().len());
        r.to_multiset_ensures();
        s.to_multiset_ensures();
    }
    assert forall|i: int, j: int| 0 <= i < j < s.len() implies !text_lt(
        lowercase(#[trigger] r[j].title),
        lowercase(#[trigger] r[i].title),
    ) by {
        assert(key(r[j]) == lowercase(r[j].title));
        assert(key(r[i]) == lowercase(r[i].title));
    }
}

/// Projects whose lower-cased titles are both `k` come out of the title
/// order in the order they came in.
pub proof fn law_sort_projects_stable(s: Seq<ProjectView>, k: Seq<char>)
    ensures
        sort_projects(s).filter(|p: ProjectView| lowercase(p.title) == k) == s.filter(
            |p: ProjectView| lowercase(p.title) == k,
        ),
{
    let key = |p: ProjectView| project_key(p);
    law_sort_is_stable(s, key, k);
    assert(has_key(key, k) =~= (|p: ProjectView| lowercase(p.title) == k));
}

/// Ideas whose lower-cased titles are both `k` come out of the title order
/// in the order they came in.
pub proof fn law_sort_ideas_stable(s: Seq<IdeaView>, k: Seq<char>)
    ensures
        sort_ideas(s).filter(|i: IdeaView| lowercase(i.title) == k) == s.filter(
            |i: IdeaView| lowercase(i.title) == k,
        ),
{
    let key = |i: IdeaView| idea_key(i);
    law_sort_is_stable(s, key, k);
    assert(has_key(key, k) =~= (|i: IdeaView| lowercase(i.title) == k));
}

/// `a` comes before `b` exactly where, at the first position at which they
/// differ, `a` holds the smaller code point, or `a` is a proper prefix of
/// `b`.
pub proof fn law_text_lt(a: Seq<char>, b: Seq<char>)
    ensures
        text_lt(a, b) <==> exists|k: int|
            0 <= k <= a.len() && k < b.len() && #[trigger] a.take(k) == b.take(k) && (k == a.len()
                || (a[k] as u32) < (b[k] as u32)),
    decreases a.len(),
{
    if b.len() == 0 {
    } else if a.len() == 0 {
        assert(a.take(0) =~= b.take(0));
    } else if a[0] != b[0] {
        if text_lt(a, b) {
            assert(a.take(0) =~= b.take(0));
        } else {
            assert forall|k: int|
                0 <= k <= a.len() && k < b.len() && #[trigger] a.take(k) == b.take(k) implies !(k
                == a.len() || (a[k] as u32) < (b[k] as u32)) by {
                if k > 0 {
                    assert(a.take(k)[0] == b.take(k)[0]);
                }
            }
        }
    } else {
        let a1 = a.drop_first();
        let b1 = b.drop_first();
        law_text_lt(a1, b1);
        if text_lt(a, b) {
            let k1 = choose|k: int|
                0 <= k <= a1.len() && k < b1.len() && #[trigger] a1.take(k) == b1.take(k) && (k
                    == a1.len() || (a1[k] as u32) < (b1[k] as u32));
            let k = k1 + 1;
            assert forall|i: int| 0 <= i < k implies a.take(k)[i] == b.take(k)[i] by {
                if i > 0 {
                    assert(a1.take(k1)[i - 1] == b1.take(k1)[i - 1]);
                }
            }
            assert(a.take(k) =~= b.take(k));
            if k1 < a1.len() {
                assert(a[k] == a1[k1]);
            }
            assert(b[k] == b1[k1]);
        } else {
            assert forall|k: int|
                0 <= k <= a.len() && k < b.len() && #[trigger] a.take(k) == b.take(k) implies !(k
                == a.len() || (a[k] as u32) < (b[k] as u32)) by {
                if k > 0 {
                    let k1 = k - 1;
                    assert forall|i: int| 0 <= i < k1 implies a1.take(k1)[i] == b1.take(k1)[i] by {
                        assert(a.take(k)[i + 1] == b.take(k)[i + 1]);
                    }
                    assert(a1.take(k1) =~= b1.take(k1));
                    if k < a.len() {
                        assert(a[k] == a1[k1]);
                    }
                    assert(b[k] == b1[k1]);
                }
            }
        }
    }
}

/// Whether an element's key is `k`.
pub open spec fn has_key<T>(key: spec_fn(T) -> Seq<char>, k: Seq<char>) -> spec_fn(T) -> bool {
    |y: T| key(y) == k
}

/// The elements of `s` whose key is `k`, in order.
pub open spec fn with_key<T>(s: Seq<T>, key: spec_fn(T) -> Seq<char>, k: Seq<char>) -> Seq<T> {
    s.filter(has_key(key, k))
}

proof fn lemma_none_with_key<T>(s: Seq<T>, key: spec_fn(T) -> Seq<char>, k: Seq<char>)
    requires
        forall|m: int| 0 <= m < s.len() ==> key(#[trigger] s[m]) != k,
    ensures
        with_key(s, key, k) =~= Seq::<T>::empty(),
{
    let p = has_key(key, k);
    s.filter_lemma(p);
    if s.filter(p).len() > 0 {
        let e = s.filter(p)[0];
        assert(p(e));
        assert(s.filter(p).contains(e));
        s.lemma_filter_contains_rev(p, e);
        let m = choose|m: int| 0 <= m < s.len() && s[m] == e;
        assert(key(s[m]) != k);
    }
}

proof fn lemma_push_with_key<T>(s: Seq<T>, x: T, key: spec_fn(T) -> Seq<char>, k: Seq<char>)
    ensures
        with_key(s.push(x), key, k) == (if key(x) == k {
            with_key(s, key, k).push(x)
        } else {
            with_key(s, key, k)
        }),
{
    reveal(Seq::filter);
    assert(s.push(x).drop_last() =~= s);
}

proof fn lemma_insert_with_key<T>(s: Seq<T>, x: T, key: spec_fn(T) -> Seq<char>, k: Seq<char>)
    requires
        sorted_by_key(s, key),
    ensures
        with_key(insert_by_key(s, x, key), key, k) == (if key(x) == k {
            with_key(s, key, k).push(x)
        } else {
            with_key(s, key, k)
        }),
{
    let f = |y: T| text_lt(key(x), key(y));
    let p = has_key(key, k);
    lemma_first_where_found(s, f);
    match first_where(s, f) {
        Some(j) => {
            let a = s.take(j);
            let b = s.skip(j);
            assert(s =~= a + b);
            assert(s.insert(j, x) =~= a + seq![x] + b);
            Seq::filter_distributes_over_add(a, b, p);
            Seq::filter_distributes_over_add(a + seq![x], b, p);
            Seq::filter_distributes_over_add(a, seq![x], p);
            lemma_push_with_key(Seq::<T>::empty(), x, key, k);
            assert(Seq::<T>::empty().push(x) =~= seq![x]);
            assert(with_key(Seq::<T>::empty(), key, k) =~= Seq::<T>::empty()) by {
                reveal(Seq::filter);
            }
            if key(x) == k {
                assert forall|m: int| 0 <= m < b.len() implies key(#[trigger] b[m]) != k by {
                    assert(b[m] == s[j + m]);
                    assert(f(s[j]));
                    if key(s[j + m]) == k {
                        if m == 0 {
                            lemma_text_lt_asymmetric(key(x), key(x));
                        } else {
                            assert(!text_lt(key(s[j + m]), key(s[j])));
                        }
                    }
                }
                lemma_none_with_key(b, key, k);
                assert(with_key(s.insert(j, x), key, k) =~= with_key(s, key, k).push(x));
            } else {
                assert(with_key(s.insert(j, x), key, k) =~= with_key(s, key, k));
            }
        },
        None => {
            lemma_push_with_key(s, x, key, k);
        },
    }
}

/// Sorting keeps the order of the elements with equal keys: for every key,
/// the elements with that key come out in the order they came in.
pub proof fn law_sort_is_stable<T>(s: Seq<T>, key: spec_fn(T) -> Seq<char>, k: Seq<char>)
    ensures
        with_key(sort_by_key(s, key), key, k) == with_key(s, key, k),
    decreases s.len(),
{
    if s.len() > 0 {
        let prev = s.drop_last();
        law_sort_is_stable(prev, key, k);
        law_sort_by_key(prev, key);
        lemma_insert_with_key(sort_by_key(prev, key), s.last(), key, k);
        lemma_push_with_key(prev, s.last(), key, k);
        assert(prev.push(s.last()) =~= s);
    }
}

} // verus!
