use nub_script::lua_string::{
    is_special_pattern, rel_pos_to_index, string_byte, string_find, string_lower, string_reverse,
    string_upper, sub, FindError,
};

#[test]
fn rel_pos_to_index_positions() {
    assert_eq!(rel_pos_to_index(1, 5), 0);
    assert_eq!(rel_pos_to_index(3, 5), 2);
    assert_eq!(rel_pos_to_index(0, 5), 0);
    assert_eq!(rel_pos_to_index(-1, 5), 4);
    assert_eq!(rel_pos_to_index(-5, 5), 0);
    assert_eq!(rel_pos_to_index(-9, 5), 0);
    assert_eq!(rel_pos_to_index(9, 5), 8);
    assert_eq!(rel_pos_to_index(i64::MIN, 5), 0);
}

#[test]
fn special_patterns() {
    assert!(!is_special_pattern(b"hello world"));
    assert!(is_special_pattern(b"a.b"));
    assert!(is_special_pattern(b"%d"));
    assert!(is_special_pattern(b"x-"));
    assert!(is_special_pattern(b"^"));
    assert!(!is_special_pattern(b""));
}

#[test]
fn sub_selects_positions() {
    let s = b"hello world";
    assert_eq!(sub(s, 1, None).unwrap(), b"hello world");
    assert_eq!(sub(s, 1, Some(5)).unwrap(), b"hello");
    assert_eq!(sub(s, -5, None).unwrap(), b"world");
    assert_eq!(sub(s, 2, Some(-2)).unwrap(), b"ello worl");
    assert_eq!(sub(s, 0, Some(3)).unwrap(), b"hel");
    assert_eq!(sub(s, 5, Some(2)).unwrap(), b"");
    assert_eq!(sub(s, 20, None).unwrap(), b"");
    assert_eq!(sub(s, -100, Some(100)).unwrap(), b"hello world");
    assert_eq!(sub(s, 1, Some(-1)).unwrap(), b"hello world");
    assert_eq!(sub(s, 3, Some(0)).unwrap(), b"");
}

#[test]
fn byte_values() {
    assert_eq!(string_byte(b"ABC", None, None).unwrap(), vec![65]);
    assert_eq!(string_byte(b"ABC", Some(2), None).unwrap(), vec![66]);
    assert_eq!(string_byte(b"ABC", Some(1), Some(-1)).unwrap(), vec![65, 66, 67]);
    assert_eq!(string_byte(b"ABC", Some(5), None).unwrap(), Vec::<i64>::new());
}

#[test]
fn find_plain_occurrences() {
    let s = b"hello hello";
    assert_eq!(string_find(s, b"llo", None, None).unwrap(), Some((3, 5)));
    assert_eq!(string_find(s, b"llo", Some(4), None).unwrap(), Some((9, 11)));
    assert_eq!(string_find(s, b"llo", Some(-3), None).unwrap(), Some((9, 11)));
    assert_eq!(string_find(s, b"xyz", None, None).unwrap(), None);
    assert_eq!(string_find(s, b"", Some(3), None).unwrap(), Some((3, 2)));
    assert_eq!(string_find(s, b"", Some(20), None).unwrap(), None);
    assert_eq!(string_find(s, b"hello hello!", None, None).unwrap(), None);
    assert_eq!(string_find(b"a.b", b".", None, Some(true)).unwrap(), Some((2, 2)));
    match string_find(b"a.b", b".", None, None) {
        Err(e) => assert_eq!(e.message(), "TODO: Implement find() pattern matching"),
        other => panic!("unexpected: {:?}", other),
    }
    assert!(matches!(
        string_find(b"a.b", b".", None, Some(false)),
        Err(FindError::PatternsUnsupported)
    ));
}

#[test]
fn case_and_reverse() {
    assert_eq!(string_lower(b"Hello, World! 123"), b"hello, world! 123".to_vec());
    assert_eq!(string_upper(b"Hello, World! 123"), b"HELLO, WORLD! 123".to_vec());
    assert_eq!(string_reverse(b"abc"), b"cba".to_vec());
    assert_eq!(string_reverse(b""), Vec::<u8>::new());
    assert_eq!(string_lower(&[0xC3, 0x89]), vec![0xC3, 0x89]);
}
