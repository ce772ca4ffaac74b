use translate::text::{
    char_is_whitespace, chars_of, find_occurrence, find_whitespace, has_prefix, is_blank_from,
};

#[test]
fn whitespace_is_the_unicode_property() {
    for code in 0..=0x11_0000u32 {
        if let Some(c) = char::from_u32(code) {
            assert_eq!(char_is_whitespace(c), c.is_whitespace(), "U+{:04X}", code);
        }
    }
}

#[test]
fn chars_of_keeps_every_character() {
    assert_eq!(chars_of(""), Vec::<char>::new());
    assert_eq!(chars_of("aé→😀"), vec!['a', 'é', '→', '😀']);
}

#[test]
fn prefix_test() {
    let s = chars_of("hello");
    assert!(has_prefix(&s, &chars_of("")));
    assert!(has_prefix(&s, &chars_of("he")));
    assert!(has_prefix(&s, &chars_of("hello")));
    assert!(!has_prefix(&s, &chars_of("hello!")));
    assert!(!has_prefix(&s, &chars_of("el")));
}

#[test]
fn first_whitespace_from_a_position() {
    let s = chars_of("ab cd ef");
    assert_eq!(find_whitespace(&s, 0), Some(2));
    assert_eq!(find_whitespace(&s, 2), Some(2));
    assert_eq!(find_whitespace(&s, 3), Some(5));
    assert_eq!(find_whitespace(&s, 6), None);
    assert_eq!(find_whitespace(&s, 8), None);
}

#[test]
fn blank_from_a_position() {
    let s = chars_of("ab \t ");
    assert!(!is_blank_from(&s, 0));
    assert!(!is_blank_from(&s, 1));
    assert!(is_blank_from(&s, 2));
    assert!(is_blank_from(&s, 5));
}

#[test]
fn leftmost_occurrence_within_a_range() {
    let s = chars_of("abcabcabc");
    let bc = chars_of("bc");
    assert_eq!(find_occurrence(&s, 0, 9, &bc), Some(1));
    assert_eq!(find_occurrence(&s, 2, 9, &bc), Some(4));
    assert_eq!(find_occurrence(&s, 2, 5, &bc), None);
    assert_eq!(find_occurrence(&s, 2, 6, &bc), Some(4));
    assert_eq!(find_occurrence(&s, 0, 9, &chars_of("")), Some(0));
    assert_eq!(find_occurrence(&s, 3, 3, &chars_of("")), Some(3));
    assert_eq!(find_occurrence(&s, 0, 9, &chars_of("cb")), None);
    assert_eq!(find_occurrence(&s, 0, 1, &bc), None);
}
