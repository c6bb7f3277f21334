use notahub::shortcut::{
    index_for_two_letter_shortcut, is_shortcut_letter, shortcut_for_index,
    shortcut_has_two_letter_forms, single_shortcut_index,
};

#[test]
fn shortcut_for_index_assigns_a_to_first() {
    assert_eq!(shortcut_for_index(0), Some("a".to_string()));
    assert_eq!(shortcut_for_index(16), Some("z".to_string()));
    assert_eq!(shortcut_for_index(17), Some("aa".to_string()));
    assert_eq!(shortcut_for_index(18), Some("ab".to_string()));
    assert_eq!(shortcut_for_index(42), Some("az".to_string()));
    assert_eq!(shortcut_for_index(43), Some("ba".to_string()));
    assert_eq!(shortcut_for_index(458), Some("zz".to_string()));
    assert_eq!(shortcut_for_index(459), None);
}

#[test]
fn reserved_letters_are_not_shortcuts() {
    for c in ['h', 'i', 'j', 'k', 'l', 'n', 'p', 't', 'x'] {
        assert!(!is_shortcut_letter(c));
        assert_eq!(single_shortcut_index(c), None);
    }
    for c in ['a', 'b', 'm', 'o', 'q', 'z'] {
        assert!(is_shortcut_letter(c));
    }
    assert!(!is_shortcut_letter('A'));
}

#[test]
fn single_letters_count_in_order() {
    assert_eq!(single_shortcut_index('a'), Some(0));
    assert_eq!(single_shortcut_index('g'), Some(6));
    assert_eq!(single_shortcut_index('m'), Some(7));
    assert_eq!(single_shortcut_index('z'), Some(16));
}

#[test]
fn two_letter_forms_start_past_seventeen() {
    assert!(!shortcut_has_two_letter_forms('a', 17));
    assert!(shortcut_has_two_letter_forms('a', 18));
    assert!(!shortcut_has_two_letter_forms('b', 43));
    assert!(shortcut_has_two_letter_forms('b', 44));
    assert!(!shortcut_has_two_letter_forms('h', 400));
}

#[test]
fn two_letter_shortcuts_read_back_their_index() {
    assert_eq!(index_for_two_letter_shortcut('a', 'a'), Some(17));
    assert_eq!(index_for_two_letter_shortcut('b', 'a'), Some(43));
    assert_eq!(index_for_two_letter_shortcut('z', 'z'), Some(458));
    assert_eq!(index_for_two_letter_shortcut('h', 'a'), None);
    for i in 17..459usize {
        let s: Vec<char> = shortcut_for_index(i).unwrap().chars().collect();
        assert_eq!(index_for_two_letter_shortcut(s[0], s[1]), Some(i));
    }
    for i in 0..17usize {
        let s: Vec<char> = shortcut_for_index(i).unwrap().chars().collect();
        assert_eq!(single_shortcut_index(s[0]), Some(i));
    }
}

#[test]
fn second_letter_is_not_read_after_a_non_shortcut_first() {
    assert_eq!(index_for_two_letter_shortcut('h', 'A'), None);
    assert_eq!(index_for_two_letter_shortcut('x', '1'), None);
}
