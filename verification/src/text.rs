//! Text helpers over character and byte sequences: trimming, prefixes,
//! searching, line splitting, word splitting and decimal numerals, each with
//! the meaning that std gives the operation of the same name.

use vstd::prelude::*;

verus! {

// ---------------------------------------------------------------------------
// Character properties and case mapping, as std computes them.

/// Whether std's `char::is_alphanumeric` holds of the non-ASCII character `c`.
pub uninterp spec fn char_is_alphanumeric(c: char) -> bool;

/// The text that std's `str::to_lowercase` makes of `s`.
pub uninterp spec fn lowercase(s: Seq<char>) -> Seq<char>;

/// Whether `c` is ASCII.
pub open spec fn is_ascii_char(c: char) -> bool {
    (c as u32) < 128
}

/// The non-ASCII characters with the Unicode White_Space property: U+0085,
/// U+00A0, U+1680, U+2000 to U+200A, U+2028, U+2029, U+202F, U+205F and
/// U+3000.
#[verifier::opaque]
pub open spec fn is_unicode_space(c: char) -> bool {
    let u = c as u32;
    u == 0x85 || u == 0xa0 || u == 0x1680 || (0x2000 <= u && u <= 0x200a) || u == 0x2028 || u
        == 0x2029 || u == 0x202f || u == 0x205f || u == 0x3000
}

/// White space as `char::is_whitespace` has it: of ASCII characters, the
/// space and tab through carriage return (U+0009 to U+000D); of the others,
/// those with the Unicode White_Space property.
pub open spec fn is_space(c: char) -> bool {
    if is_ascii_char(c) {
        c == ' ' || ('\t' <= c && c <= '\r')
    } else {
        is_unicode_space(c)
    }
}

/// Letters and digits as `char::is_alphanumeric` has them: of ASCII
/// characters, `a-z`, `A-Z` and `0-9`; of the others, those that are
/// alphabetic or numeric in Unicode.
pub open spec fn is_alnum(c: char) -> bool {
    if is_ascii_char(c) {
        ('a' <= c && c <= 'z') || ('A' <= c && c <= 'Z') || ('0' <= c && c <= '9')
    } else {
        char_is_alphanumeric(c)
    }
}

/// Calls `char::is_alphanumeric` on a non-ASCII character; the result is
/// named by `char_is_alphanumeric` and nothing more is stated of it.
#[verifier::external_body]
fn non_ascii_is_alphanumeric(c: char) -> (r: bool)
    ensures
        r == char_is_alphanumeric(c),
{
    c.is_alphanumeric()
}

/// `char::is_whitespace`.
pub fn is_whitespace(c: char) -> (r: bool)
    ensures
        r == is_space(c),
{
    let u = c as u32;
    proof {
        reveal(is_unicode_space);
    }
    if u < 128 {
        c == ' ' || ('\t' <= c && c <= '\r')
    } else {
        u == 0x85 || u == 0xa0 || u == 0x1680 || (0x2000 <= u && u <= 0x200a) || u == 0x2028
            || u == 0x2029 || u == 0x202f || u == 0x205f || u == 0x3000
    }
}

/// `char::is_alphanumeric`.
pub fn is_alphanumeric(c: char) -> (r: bool)
    ensures
        r == is_alnum(c),
{
    if (c as u32) < 128 {
        ('a' <= c && c <= 'z') || ('A' <= c && c <= 'Z') || ('0' <= c && c <= '9')
    } else {
        non_ascii_is_alphanumeric(c)
    }
}

/// Whether every character of `s` is ASCII.
pub open spec fn is_ascii_text(s: Seq<char>) -> bool {
    forall|i: int| 0 <= i < s.len() ==> is_ascii_char(#[trigger] s[i])
}

/// `c` lower-cased if it is an ASCII capital letter.
pub open spec fn ascii_lower_char(c: char) -> char {
    if 'A' <= c && c <= 'Z' {
        ((c as u32) + 32) as char
    } else {
        c
    }
}

/// `s` with its ASCII capital letters lower-cased.
pub open spec fn ascii_lower(s: Seq<char>) -> Seq<char> {
    s.map_values(|c: char| ascii_lower_char(c))
}

/// Calls `str::to_lowercase`; the result is named by `lowercase`. Of ASCII
/// text the contract states what the Unicode lower-case mapping that std
/// applies makes of it: `A` to `Z` become `a` to `z`, every other
/// character stays (as `str::to_ascii_lowercase` has it). Nothing more is
/// stated of other text.
#[verifier::external_body]
pub(crate) fn to_lowercase(s: &str) -> (r: String)
    ensures
        r@ == lowercase(s@),
        is_ascii_text(s@) ==> r@ == ascii_lower(s@),
{
    s.to_lowercase()
}

/// Calls `str::chars` and collects the characters in order.
#[verifier::external_body]
pub(crate) fn chars_of(s: &str) -> (v: Vec<char>)
    ensures
        v@ == s@,
{
    s.chars().collect()
}

/// Collects characters into a `String` (std's `FromIterator<&char>`), in
/// order.
#[verifier::external_body]
pub(crate) fn string_of(chars: &[char]) -> (s: String)
    ensures
        s@ == chars@,
{
    chars.iter().collect()
}

// ---------------------------------------------------------------------------
// Trimming.

/// `s` without its leading white space (std's `str::trim_start`).
pub open spec fn trim_start(s: Seq<char>) -> Seq<char>
    decreases s.len(),
{
    if s.len() > 0 && is_space(s[0]) {
        trim_start(s.drop_first())
    } else {
        s
    }
}

/// `s` without its trailing white space (std's `str::trim_end`).
pub open spec fn trim_end(s: Seq<char>) -> Seq<char>
    decreases s.len(),
{
    if s.len() > 0 && is_space(s.last()) {
        trim_end(s.drop_last())
    } else {
        s
    }
}

/// `s` without leading and trailing white space (std's `str::trim`).
pub open spec fn trim(s: Seq<char>) -> Seq<char> {
    trim_end(trim_start(s))
}

/// Number of leading white-space characters of `s`.
pub open spec fn leading_ws(s: Seq<char>) -> nat
    decreases s.len(),
{
    if s.len() > 0 && is_space(s[0]) {
        1 + leading_ws(s.drop_first())
    } else {
        0
    }
}

/// Length of `s` once its trailing white space is removed.
pub open spec fn end_without_ws(s: Seq<char>) -> nat
    decreases s.len(),
{
    if s.len() > 0 && is_space(s.last()) {
        end_without_ws(s.drop_last())
    } else {
        s.len()
    }
}

pub proof fn lemma_trim_start_skip(s: Seq<char>)
    ensures
        leading_ws(s) <= s.len(),
        trim_start(s) == s.skip(leading_ws(s) as int),
        forall|i: int| 0 <= i < leading_ws(s) ==> is_space(#[trigger] s[i]),
        leading_ws(s) < s.len() ==> !is_space(s[leading_ws(s) as int]),
    decreases s.len(),
{
    if s.len() > 0 && is_space(s[0]) {
        lemma_trim_start_skip(s.drop_first());
        assert(s.drop_first().skip(leading_ws(s.drop_first()) as int) =~= s.skip(
            leading_ws(s) as int,
        ));
        assert forall|i: int| 0 <= i < leading_ws(s) implies is_space(#[trigger] s[i]) by {
            if i > 0 {
                assert(s[i] == s.drop_first()[i - 1]);
            }
        }
    } else {
        assert(s.skip(0) =~= s);
    }
}

pub proof fn lemma_trim_end_take(s: Seq<char>)
    ensures
        end_without_ws(s) <= s.len(),
        trim_end(s) == s.take(end_without_ws(s) as int),
        forall|i: int| end_without_ws(s) <= i < s.len() ==> is_space(#[trigger] s[i]),
        end_without_ws(s) > 0 ==> !is_space(s[end_without_ws(s) - 1]),
    decreases s.len(),
{
    if s.len() > 0 && is_space(s.last()) {
        lemma_trim_end_take(s.drop_last());
        assert(s.drop_last().take(end_without_ws(s.drop_last()) as int) =~= s.take(
            end_without_ws(s) as int,
        ));
        assert forall|i: int| end_without_ws(s) <= i < s.len() implies is_space(
            #[trigger] s[i],
        ) by {
            if i < s.len() - 1 {
                assert(s[i] == s.drop_last()[i]);
            }
        }
    } else {
        assert(s.take(s.len() as int) =~= s);
    }
}

/// Index of the first character of `v[from..to]` that is not white space, or
/// `to`.
pub fn skip_ws_forward(v: &[char], from: usize, to: usize) -> (k: usize)
    requires
        from <= to <= v@.len(),
    ensures
        from <= k <= to,
        k == from + leading_ws(v@.subrange(from as int, to as int)),
{
    let ghost s = v@.subrange(from as int, to as int);
    proof {
        lemma_trim_start_skip(s);
    }
    let mut k = from;
    while k < to
        invariant
            from <= k <= to <= v@.len(),
            s == v@.subrange(from as int, to as int),
            leading_ws(s) <= s.len(),
            forall|i: int| 0 <= i < leading_ws(s) ==> is_space(#[trigger] s[i]),
            leading_ws(s) < s.len() ==> !is_space(s[leading_ws(s) as int]),
            k - from <= leading_ws(s),
        decreases to - k,
    {
        if !is_whitespace(v[k]) {
            assert(s[k - from] == v@[k as int]);
            return k;
        }
        assert(s[k - from] == v@[k as int]);
        k = k + 1;
    }
    k
}

/// One past the last character of `v[from..to]` that is not white space, or
/// `from`.
pub fn skip_ws_backward(v: &[char], from: usize, to: usize) -> (k: usize)
    requires
        from <= to <= v@.len(),
    ensures
        from <= k <= to,
        k == from + end_without_ws(v@.subrange(from as int, to as int)),
{
    let ghost s = v@.subrange(from as int, to as int);
    proof {
        lemma_trim_end_take(s);
    }
    let mut k = to;
    while k > from
        invariant
            from <= k <= to <= v@.len(),
            s == v@.subrange(from as int, to as int),
            end_without_ws(s) <= s.len(),
            forall|i: int| end_without_ws(s) <= i < s.len() ==> is_space(#[trigger] s[i]),
            end_without_ws(s) > 0 ==> !is_space(s[end_without_ws(s) - 1]),
            k - from >= end_without_ws(s),
        decreases k - from,
    {
        if !is_whitespace(v[k - 1]) {
            assert(s[k - 1 - from] == v@[k - 1]);
            return k;
        }
        assert(s[k - 1 - from] == v@[k - 1]);
        k = k - 1;
    }
    k
}

/// The bounds of `trim(v[from..to])` within `v`.
pub fn trim_bounds(v: &[char], from: usize, to: usize) -> (r: (usize, usize))
    requires
        from <= to <= v@.len(),
    ensures
        from <= r.0 <= r.1 <= to,
        v@.subrange(r.0 as int, r.1 as int) == trim(v@.subrange(from as int, to as int)),
        v@.subrange(r.0 as int, to as int) == trim_start(v@.subrange(from as int, to as int)),
{
    let a = skip_ws_forward(v, from, to);
    let b = skip_ws_backward(v, a, to);
    proof {
        let s = v@.subrange(from as int, to as int);
        lemma_trim_start_skip(s);
        assert(s.skip(leading_ws(s) as int) =~= v@.subrange(a as int, to as int));
        let t = v@.subrange(a as int, to as int);
        lemma_trim_end_take(t);
        assert(t.take(end_without_ws(t) as int) =~= v@.subrange(a as int, b as int));
    }
    (a, b)
}

/// `trim(s)` as a new string.
pub fn trimmed(s: &str) -> (r: String)
    ensures
        r@ == trim(s@),
{
    let v = chars_of(s);
    let (a, b) = trim_bounds(v.as_slice(), 0, v.len());
    assert(v@.subrange(0, v@.len() as int) =~= v@);
    string_of(slice_of(v.as_slice(), a, b).as_slice())
}

/// A copy of `v[from..to]`.
pub fn slice_of(v: &[char], from: usize, to: usize) -> (r: Vec<char>)
    requires
        from <= to <= v@.len(),
    ensures
        r@ == v@.subrange(from as int, to as int),
{
    let mut r: Vec<char> = Vec::new();
    let mut i = from;
    while i < to
        invariant
            from <= i <= to <= v@.len(),
            r@ == v@.subrange(from as int, i as int),
        decreases to - i,
    {
        r.push(v[i]);
        assert(r@ =~= v@.subrange(from as int, i + 1));
        i = i + 1;
    }
    r
}

/// Appends the characters of `s` to `out`.
pub fn push_chars(out: &mut Vec<char>, s: &[char])
    ensures
        final(out)@ == old(out)@ + s@,
{
    let mut i: usize = 0;
    while i < s.len()
        invariant
            i <= s@.len(),
            out@ == old(out)@ + s@.take(i as int),
        decreases s@.len() - i,
    {
        out.push(s[i]);
        assert(s@.take(i + 1) =~= s@.take(i as int).push(s@[i as int]));
        i = i + 1;
    }
    assert(s@.take(s@.len() as int) =~= s@);
}

// ---------------------------------------------------------------------------
// Prefixes and occurrences.

/// Whether `p` occurs in `s` at position `i`.
pub open spec fn occurs_at<T>(s: Seq<T>, p: Seq<T>, i: int) -> bool {
    0 <= i && i + p.len() <= s.len() && s.subrange(i, i + p.len()) == p
}

/// Whether `s` starts with `p`.
pub open spec fn starts_with<T>(s: Seq<T>, p: Seq<T>) -> bool {
    occurs_at(s, p, 0)
}

/// Whether `i` is the first position at which `p` occurs in `s`.
pub open spec fn is_first_occurrence<T>(s: Seq<T>, p: Seq<T>, i: int) -> bool {
    occurs_at(s, p, i) && forall|j: int| 0 <= j < i ==> !occurs_at(s, p, j)
}

/// Whether `p` occurs in `s` (std's `str::contains`).
pub open spec fn contains<T>(s: Seq<T>, p: Seq<T>) -> bool {
    exists|i: int| occurs_at(s, p, i)
}

/// The first position at which `p` occurs in `s` (std's `str::find`).
pub open spec fn find<T>(s: Seq<T>, p: Seq<T>) -> Option<int> {
    if exists|i: int| is_first_occurrence(s, p, i) {
        Some(choose|i: int| is_first_occurrence(s, p, i))
    } else {
        None
    }
}

pub proof fn lemma_find_first<T>(s: Seq<T>, p: Seq<T>, i: int)
    requires
        is_first_occurrence(s, p, i),
    ensures
        find(s, p) == Some(i),
{
    let j = choose|j: int| is_first_occurrence(s, p, j);
    assert(is_first_occurrence(s, p, j));
    if j < i {
        assert(!occurs_at(s, p, j));
    } else if i < j {
        assert(!occurs_at(s, p, i));
    }
}

/// An occurrence of `p` at `i` means that `find` gives a position no later
/// than `i`.
pub proof fn lemma_find_some<T>(s: Seq<T>, p: Seq<T>, i: int)
    requires
        occurs_at(s, p, i),
    ensures
        find(s, p) matches Some(k) && k <= i && is_first_occurrence(s, p, k),
    decreases i,
{
    if exists|j: int| 0 <= j < i && occurs_at(s, p, j) {
        let j = choose|j: int| 0 <= j < i && occurs_at(s, p, j);
        lemma_find_some(s, p, j);
    } else {
        lemma_find_first(s, p, i);
    }
}

/// No occurrence at all means that `find` gives nothing.
pub proof fn lemma_find_none<T>(s: Seq<T>, p: Seq<T>)
    requires
        forall|i: int| !occurs_at(s, p, i),
    ensures
        find(s, p) is None,
{
}

/// Whether `p` occurs in `v` at position `i`.
pub fn char_match_at(v: &[char], p: &[char], i: usize) -> (r: bool)
    ensures
        r == occurs_at(v@, p@, i as int),
{
    let n = v.len();
    if i > n || p.len() > n - i {
        return false;
    }
    let mut k: usize = 0;
    while k < p.len()
        invariant
            n == v@.len(),
            i + p@.len() <= v@.len(),
            k <= p@.len(),
            forall|j: int| 0 <= j < k ==> v@[i + j] == p@[j],
        decreases p@.len() - k,
    {
        if v[i + k] != p[k] {
            assert(v@.subrange(i as int, i + p@.len())[k as int] != p@[k as int]);
            return false;
        }
        k = k + 1;
    }
    assert(v@.subrange(i as int, i + p@.len()) =~= p@);
    true
}

/// The first position at or after `from` at which `p` occurs in `v`.
pub fn char_find_from(v: &[char], p: &[char], from: usize) -> (r: Option<usize>)
    requires
        from <= v@.len(),
    ensures
        match r {
            Some(i) => from <= i && occurs_at(v@, p@, i as int) && forall|j: int|
                from <= j < i ==> !occurs_at(v@, p@, j),
            None => forall|j: int| from <= j ==> !occurs_at(v@, p@, j),
        },
{
    let n = v.len();
    let mut i = from;
    loop
        invariant
            n == v@.len(),
            from <= i <= n,
            forall|j: int| from <= j < i ==> !occurs_at(v@, p@, j),
        decreases n - i,
    {
        if char_match_at(v, p, i) {
            return Some(i);
        }
        if i == n {
            return None;
        }
        i = i + 1;
    }
}

/// std's `str::find` on characters: the first position of `p` in `v`.
pub fn char_find(v: &[char], p: &[char]) -> (r: Option<usize>)
    ensures
        match r {
            Some(i) => find(v@, p@) == Some(i as int),
            None => find(v@, p@) is None,
        },
{
    let r = char_find_from(v, p, 0);
    proof {
        match r {
            Some(i) => lemma_find_first(v@, p@, i as int),
            None => lemma_find_none(v@, p@),
        }
    }
    r
}

/// Whether `p` occurs in `v` at position `i` (bytes).
pub fn byte_match_at(v: &[u8], p: &[u8], i: usize) -> (r: bool)
    ensures
        r == occurs_at(v@, p@, i as int),
{
    let n = v.len();
    if i > n || p.len() > n - i {
        return false;
    }
    let mut k: usize = 0;
    while k < p.len()
        invariant
            n == v@.len(),
            i + p@.len() <= v@.len(),
            k <= p@.len(),
            forall|j: int| 0 <= j < k ==> v@[i + j] == p@[j],
        decreases p@.len() - k,
    {
        if v[i + k] != p[k] {
            assert(v@.subrange(i as int, i + p@.len())[k as int] != p@[k as int]);
            return false;
        }
        k = k + 1;
    }
    assert(v@.subrange(i as int, i + p@.len()) =~= p@);
    true
}

/// std's `str::find` on bytes: the first position of `p` in `v`.
pub fn byte_find(v: &[u8], p: &[u8]) -> (r: Option<usize>)
    ensures
        match r {
            Some(i) => find(v@, p@) == Some(i as int),
            None => find(v@, p@) is None,
        },
{
    let n = v.len();
    let mut i: usize = 0;
    loop
        invariant
            n == v@.len(),
            i <= n,
            forall|j: int| 0 <= j < i ==> !occurs_at(v@, p@, j),
        decreases n - i,
    {
        if byte_match_at(v, p, i) {
            proof {
                lemma_find_first(v@, p@, i as int);
            }
            return Some(i);
        }
        if i == n {
            proof {
                assert forall|j: int| #![auto] !occurs_at(v@, p@, j) by {
                    if j > n {
                        assert(!occurs_at(v@, p@, j));
                    }
                }
                lemma_find_none(v@, p@);
            }
            return None;
        }
        i = i + 1;
    }
}

/// `find` gives a position only where the pattern occurs, and gives none
/// only where it does not occur.
pub proof fn lemma_find_contains<T>(s: Seq<T>, p: Seq<T>)
    ensures
        find(s, p) is Some <==> contains(s, p),
        find(s, p) matches Some(i) ==> is_first_occurrence(s, p, i),
{
    if contains(s, p) {
        let i = choose|i: int| occurs_at(s, p, i);
        lemma_find_some(s, p, i);
    }
}

// ---------------------------------------------------------------------------
// Lines and words.

/// `s` without one trailing carriage return.
pub open spec fn strip_cr(s: Seq<char>) -> Seq<char> {
    if s.len() > 0 && s.last() == '\r' {
        s.drop_last()
    } else {
        s
    }
}

/// The lines of `s` (std's `str::lines`): split at each line feed, with a
/// carriage return before the line feed removed, and no empty last line for a
/// final line feed.
pub open spec fn lines(s: Seq<char>) -> Seq<Seq<char>>
    decreases s.len(),
{
    if s.len() == 0 {
        seq![]
    } else {
        match find(s, seq!['\n']) {
            Some(k) => if 0 <= k < s.len() {
                seq![strip_cr(s.take(k))] + lines(s.skip(k + 1))
            } else {
                seq![]
            },
            None => seq![s],
        }
    }
}

/// The white-space separated words of `s` (std's `str::split_whitespace`).
pub open spec fn words(s: Seq<char>) -> Seq<Seq<char>>
    decreases s.len(),
{
    let t = trim_start(s);
    if t.len() == 0 {
        seq![]
    } else {
        let n = word_len(t);
        if 0 < n <= t.len() && t.len() <= s.len() {
            seq![t.take(n as int)] + words(t.skip(n as int))
        } else {
            seq![]
        }
    }
}

/// Length of the run of non-white-space characters that starts `s`.
pub open spec fn word_len(s: Seq<char>) -> nat
    decreases s.len(),
{
    if s.len() > 0 && !is_space(s[0]) {
        1 + word_len(s.drop_first())
    } else {
        0
    }
}

pub proof fn lemma_word_len(s: Seq<char>)
    ensures
        word_len(s) <= s.len(),
        forall|i: int| 0 <= i < word_len(s) ==> !is_space(#[trigger] s[i]),
        word_len(s) < s.len() ==> is_space(s[word_len(s) as int]),
        s.len() > 0 && !is_space(s[0]) ==> word_len(s) > 0,
    decreases s.len(),
{
    if s.len() > 0 && !is_space(s[0]) {
        lemma_word_len(s.drop_first());
        assert forall|i: int| 0 <= i < word_len(s) implies !is_space(#[trigger] s[i]) by {
            if i > 0 {
                assert(s[i] == s.drop_first()[i - 1]);
            }
        }
        if word_len(s) < s.len() {
            assert(s[word_len(s) as int] == s.drop_first()[word_len(s.drop_first()) as int]);
        }
    }
}

pub proof fn lemma_lines_unfold(s: Seq<char>, k: int)
    requires
        s.len() > 0,
        find(s, seq!['\n']) == Some(k),
    ensures
        0 <= k < s.len(),
        lines(s) == seq![strip_cr(s.take(k))] + lines(s.skip(k + 1)),
{
    lemma_find_contains(s, seq!['\n']);
}

/// Splits `v[from..to]` at line feeds into lines as `lines` describes.
pub fn split_lines(v: &[char]) -> (r: Vec<Vec<char>>)
    ensures
        r@.len() == lines(v@).len(),
        forall|i: int| 0 <= i < r@.len() ==> #[trigger] r@[i]@ == lines(v@)[i],
{
    let nl: Vec<char> = vec!['\n'];
    assert(nl@ =~= seq!['\n']);
    let mut out: Vec<Vec<char>> = Vec::new();
    let mut pos: usize = 0;
    let ghost total = lines(v@);
    proof {
        assert(v@.skip(0) =~= v@);
        assert(out@.map_values(|l: Vec<char>| l@) =~= Seq::<Seq<char>>::empty());
        assert(total =~= out@.map_values(|l: Vec<char>| l@) + lines(v@.skip(pos as int)));
    }
    while pos < v.len()
        invariant
            pos <= v@.len(),
            nl@ == seq!['\n'],
            total == lines(v@),
            total == out@.map_values(|l: Vec<char>| l@) + lines(v@.skip(pos as int)),
        decreases v@.len() - pos,
    {
        let ghost rest = v@.skip(pos as int);
        match char_find_from(v, nl.as_slice(), pos) {
            Some(k) => {
                proof {
                    assert forall|j: int| 0 <= j < k - pos implies !occurs_at(rest, seq!['\n'], j) by {
                        assert(!occurs_at(v@, nl@, j + pos));
                        assert(rest.subrange(j, j + 1) =~= v@.subrange(j + pos, j + pos + 1));
                    }
                    assert(rest.subrange(k - pos, k - pos + 1) =~= v@.subrange(k as int, k + 1));
                    assert(is_first_occurrence(rest, seq!['\n'], k - pos));
                    lemma_find_first(rest, seq!['\n'], k - pos);
                    lemma_lines_unfold(rest, k - pos);
                }
                let mut end = k;
                if end > pos && v[end - 1] == '\r' {
                    end = end - 1;
                }
                let line = slice_of(v, pos, end);
                proof {
                    let t = rest.take(k - pos);
                    assert(t =~= v@.subrange(pos as int, k as int));
                    if k > pos && v@[k - 1] == '\r' {
                        assert(strip_cr(t) =~= line@);
                    } else {
                        assert(strip_cr(t) =~= line@);
                    }
                    assert(rest.skip(k - pos + 1) =~= v@.skip(k + 1));
                }
                let ghost before = out@;
                out.push(line);
                proof {
                    assert(out@.map_values(|l: Vec<char>| l@) =~= before.map_values(
                        |l: Vec<char>| l@,
                    ).push(line@));
                    assert(seq![strip_cr(rest.take(k - pos))] + lines(v@.skip(k + 1)) =~= seq![
                        line@,
                    ] + lines(v@.skip(k + 1)));
                    assert(before.map_values(|l: Vec<char>| l@) + (seq![line@] + lines(
                        v@.skip(k + 1),
                    )) =~= before.map_values(|l: Vec<char>| l@).push(line@) + lines(
                        v@.skip(k + 1),
                    ));
                }
                pos = k + 1;
            },
            None => {
                proof {
                    assert forall|j: int| !occurs_at(rest, seq!['\n'], j) by {
                        if occurs_at(rest, seq!['\n'], j) {
                            assert(rest.subrange(j, j + 1) =~= v@.subrange(j + pos, j + pos + 1));
                            assert(occurs_at(v@, nl@, j + pos));
                        }
                    }
                    lemma_find_none(rest, seq!['\n']);
                    assert(rest =~= v@.subrange(pos as int, v@.len() as int));
                }
                let line = slice_of(v, pos, v.len());
                let ghost before = out@;
                out.push(line);
                proof {
                    assert(out@.map_values(|l: Vec<char>| l@) =~= before.map_values(
                        |l: Vec<char>| l@,
                    ).push(line@));
                    assert(v@.skip(v@.len() as int) =~= Seq::<char>::empty());
                    assert(lines(v@.skip(v@.len() as int)) =~= Seq::<Seq<char>>::empty());
                    assert(before.map_values(|l: Vec<char>| l@) + seq![rest] =~= out@.map_values(
                        |l: Vec<char>| l@,
                    ) + lines(v@.skip(v@.len() as int)));
                }
                pos = v.len();
            },
        }
    }
    proof {
        assert(v@.skip(pos as int) =~= Seq::<char>::empty());
        assert(total =~= out@.map_values(|l: Vec<char>| l@));
    }
    out
}

// ---------------------------------------------------------------------------
// Decimal numerals.

/// The ASCII digit for `d`.
pub open spec fn digit(d: int) -> char {
    (48 + d) as char
}

/// The decimal numeral of `n`, as std's `Display` writes it.
pub open spec fn decimal(n: nat) -> Seq<char>
    decreases n,
{
    if n < 10 {
        seq![digit(n as int)]
    } else {
        decimal(n / 10) + seq![digit((n % 10) as int)]
    }
}

/// The decimal numeral of `n`.
pub fn decimal_chars(n: usize) -> (r: Vec<char>)
    ensures
        r@ == decimal(n as nat),
    decreases n,
{
    let d = (n % 10) as u8;
    let c = (48u8 + d) as char;
    if n < 10 {
        let r = vec![c];
        assert(r@ =~= seq![digit(n as int)]);
        r
    } else {
        let mut r = decimal_chars(n / 10);
        r.push(c);
        assert(r@ =~= decimal((n / 10) as nat) + seq![digit((n % 10) as int)]);
        r
    }
}

/// The text `a`, then `b`, then `c`.
pub fn join3(a: &str, b: &[char], c: &str) -> (r: String)
    ensures
        r@ == a@ + b@ + c@,
{
    let mut out = chars_of(a);
    push_chars(&mut out, b);
    let cv = chars_of(c);
    push_chars(&mut out, cv.as_slice());
    string_of(out.as_slice())
}

/// `s` with `c` appended.
pub fn with_char(s: &str, c: char) -> (r: String)
    ensures
        r@ == s@.push(c),
{
    let mut out = chars_of(s);
    out.push(c);
    string_of(out.as_slice())
}

/// `s` without its last character (unchanged when empty), as `String::pop`
/// leaves it.
pub fn without_last(s: &str) -> (r: String)
    ensures
        r@ == (if s@.len() > 0 {
            s@.drop_last()
        } else {
            s@
        }),
{
    let mut out = chars_of(s);
    if out.len() > 0 {
        out.pop();
    }
    assert(s@.len() > 0 ==> out@ =~= s@.drop_last());
    string_of(out.as_slice())
}

/// The text `a`, then `b`.
pub fn join2(a: &str, b: &[char]) -> (r: String)
    ensures
        r@ == a@ + b@,
{
    let mut out = chars_of(a);
    push_chars(&mut out, b);
    string_of(out.as_slice())
}

} // verus!
