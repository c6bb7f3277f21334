//! Item shortcuts: items are addressed by one letter (`a b c ...`) and, past
//! the seventeenth item, by two letters (`aa ab ...`). The letters reserved for
//! actions (`h i j k l n p t x`) never start a shortcut.

use vstd::prelude::*;
use crate::text::string_of;

verus! {

/// The letters that address the first items, in order.
pub const SINGLE_SHORTCUT_LETTERS: [char; 17] = [
    'a', 'b', 'c', 'd', 'e', 'f', 'g', 'm', 'o', 'q', 'r', 's', 'u', 'v', 'w', 'y', 'z',
];

/// The shortcut letters as a sequence.
pub open spec fn letters() -> Seq<char> {
    seq!['a', 'b', 'c', 'd', 'e', 'f', 'g', 'm', 'o', 'q', 'r', 's', 'u', 'v', 'w', 'y', 'z']
}

/// Number of items that have a shortcut at all.
pub open spec fn n_shortcuts() -> int {
    459
}

/// The lower-case ASCII letter at position `k` of the alphabet.
pub open spec fn alphabet_letter(k: int) -> char {
    (97 + k) as char
}

/// The shortcut of the item at index `i`, if it has one.
pub open spec fn spec_shortcut(i: int) -> Option<Seq<char>> {
    if 0 <= i < 17 {
        Some(seq![letters()[i]])
    } else if 17 <= i < n_shortcuts() {
        Some(seq![letters()[(i - 17) / 26], alphabet_letter((i - 17) % 26)])
    } else {
        None
    }
}

/// Position of `c` among the shortcut letters.
pub open spec fn spec_letter_index(c: char) -> Option<int> {
    if exists|k: int| 0 <= k < 17 && letters()[k] == c {
        Some(choose|k: int| 0 <= k < 17 && letters()[k] == c)
    } else {
        None
    }
}

/// The letters that stand for actions and are never the first letter of a
/// shortcut.
pub open spec fn is_reserved_letter(c: char) -> bool {
    c == 'h' || c == 'i' || c == 'j' || c == 'k' || c == 'l' || c == 'n' || c == 'p' || c == 't'
        || c == 'x'
}

proof fn lemma_letters_array()
    ensures
        SINGLE_SHORTCUT_LETTERS@ == letters(),
{
    assert(SINGLE_SHORTCUT_LETTERS@ =~= letters());
}

/// The letters are pairwise distinct.
pub proof fn lemma_letters_distinct()
    ensures
        forall|i: int, j: int| 0 <= i < j < 17 ==> letters()[i] != letters()[j],
{
}

proof fn lemma_letter_index(c: char)
    ensures
        spec_letter_index(c) matches Some(k) ==> 0 <= k < 17 && letters()[k] == c,
        spec_letter_index(c) is None ==> forall|k: int| 0 <= k < 17 ==> letters()[k] != c,
        forall|k: int| 0 <= k < 17 && letters()[k] == c ==> spec_letter_index(c) == Some(k),
{
    lemma_letters_distinct();
}

/// Position of `c` among the shortcut letters.
fn letter_position(c: char) -> (r: Option<usize>)
    ensures
        r matches Some(k) ==> spec_letter_index(c) == Some(k as int),
        r is None ==> spec_letter_index(c) is None,
{
    proof {
        lemma_letters_array();
        lemma_letter_index(c);
    }
    let mut k: usize = 0;
    while k < 17
        invariant
            k <= 17,
            SINGLE_SHORTCUT_LETTERS@ == letters(),
            forall|j: int| 0 <= j < k ==> letters()[j] != c,
            forall|j: int| 0 <= j < 17 && letters()[j] == c ==> spec_letter_index(c) == Some(j),
            spec_letter_index(c) is None ==> forall|j: int| 0 <= j < 17 ==> letters()[j] != c,
        decreases 17 - k,
    {
        if SINGLE_SHORTCUT_LETTERS[k] == c {
            return Some(k);
        }
        k = k + 1;
    }
    proof {
        if spec_letter_index(c) is Some {
            lemma_letter_index(c);
        }
    }
    None
}

/// The shortcut shown beside the item at index `i`: a single letter for the
/// first seventeen items, then two letters, and none past the last two-letter
/// form.
pub fn shortcut_for_index(i: usize) -> (r: Option<String>)
    ensures
        match spec_shortcut(i as int) {
            Some(s) => r matches Some(t) && t@ == s,
            None => r is None,
        },
{
    proof {
        lemma_letters_array();
    }
    if i < 17 {
        let v: Vec<char> = vec![SINGLE_SHORTCUT_LETTERS[i]];
        let s = string_of(v.as_slice());
        assert(v@ =~= seq![letters()[i as int]]);
        Some(s)
    } else {
        let remainder = i - 17;
        let first_idx = remainder / 26;
        let second_idx = remainder % 26;
        if first_idx < 17 {
            let second_byte: u8 = 97u8 + (second_idx as u8);
            let second: char = second_byte as char;
            let v: Vec<char> = vec![SINGLE_SHORTCUT_LETTERS[first_idx], second];
            let s = string_of(v.as_slice());
            assert(v@ =~= seq![letters()[first_idx as int], alphabet_letter(second_idx as int)]);
            Some(s)
        } else {
            None
        }
    }
}

/// Whether `c` is one of the shortcut letters.
pub fn is_shortcut_letter(c: char) -> (r: bool)
    ensures
        r == (spec_letter_index(c) is Some),
{
    proof {
        lemma_letter_index(c);
    }
    letter_position(c).is_some()
}

/// Position of `c` among the shortcut letters, which is the index of the item
/// whose one-letter shortcut is `c`.
pub fn single_shortcut_index(c: char) -> (r: Option<usize>)
    ensures
        match r {
            Some(i) => spec_letter_index(c) == Some(i as int),
            None => spec_letter_index(c) is None,
        },
{
    letter_position(c)
}

/// Whether, with `total_items` items, some item has a two-letter shortcut
/// that starts with `first_char`.
pub fn shortcut_has_two_letter_forms(first_char: char, total_items: usize) -> (r: bool)
    ensures
        r == (total_items > 17 && match spec_letter_index(first_char) {
            Some(k) => 17 + k * 26 < total_items,
            None => false,
        }),
{
    if total_items <= 17 {
        return false;
    }
    match letter_position(first_char) {
        Some(first_idx) => {
            let two_letter_start = 17 + first_idx * 26;
            two_letter_start < total_items
        },
        None => false,
    }
}

/// The index of the item addressed by the two letters `first`, `second`.
/// The second letter counts from `a`, by its byte value, which must not be
/// below that of `a` where the first letter is a shortcut letter (the second
/// letter is not looked at otherwise).
pub fn index_for_two_letter_shortcut(first: char, second: char) -> (r: Option<usize>)
    requires
        spec_letter_index(first) is Some ==> second as u8 >= 97,
    ensures
        match spec_letter_index(first) {
            Some(k) => r == Some((17 + k * 26 + (second as u8 - 97)) as usize),
            None => r is None,
        },
{
    let first_idx = letter_position(first)?;
    let second_idx = (second as u8 - 97u8) as usize;
    Some(17 + first_idx * 26 + second_idx)
}

/// Every item below `17 + 17 * 26` has a shortcut; no other item has one.
pub proof fn law_shortcut_exists(i: int)
    ensures
        spec_shortcut(i) is Some <==> 0 <= i < n_shortcuts(),
{
}

/// No shortcut starts with a letter reserved for an action.
pub proof fn law_shortcut_avoids_reserved(i: int)
    requires
        spec_shortcut(i) is Some,
    ensures
        !is_reserved_letter(spec_shortcut(i)->0[0]),
{
    if i >= 17 {
        let k = (i - 17) / 26;
        assert(0 <= k < 17);
    }
}

/// The shortcut of an item leads back to that item: a one-letter shortcut
/// through `single_shortcut_index`, a two-letter one through
/// `index_for_two_letter_shortcut`.
pub proof fn law_shortcut_round_trip(i: int)
    requires
        0 <= i < n_shortcuts(),
    ensures
        spec_shortcut(i)->0.len() == 1 ==> spec_letter_index(spec_shortcut(i)->0[0]) == Some(i),
        spec_shortcut(i)->0.len() == 2 ==> ({
            let s = spec_shortcut(i)->0;
            &&& s[1] as u8 >= 97
            &&& spec_letter_index(s[0]) matches Some(k) && 17 + k * 26 + (s[1] as u8 - 97) == i
        }),
{
    if i < 17 {
        lemma_letter_index(letters()[i]);
    } else {
        let k = (i - 17) / 26;
        let m = (i - 17) % 26;
        lemma_letter_index(letters()[k]);
        let c = alphabet_letter(m);
        assert(c as u8 == 97 + m) by {
            assert((97 + m) as char as u8 == 97 + m);
        }
    }
}

/// Distinct items have distinct shortcuts.
pub proof fn law_shortcut_injective(i: int, j: int)
    requires
        0 <= i < n_shortcuts(),
        0 <= j < n_shortcuts(),
        i != j,
    ensures
        spec_shortcut(i) != spec_shortcut(j),
{
    law_shortcut_round_trip(i);
    law_shortcut_round_trip(j);
    if spec_shortcut(i) == spec_shortcut(j) {
        let s = spec_shortcut(i)->0;
        if i < 17 {
            assert(s.len() == 1);
        } else {
            assert(s.len() == 2);
        }
    }
}

} // verus!
