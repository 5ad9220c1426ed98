use cargo::text::{enclose, split_at_spaces, to_decimal, to_env_name, to_uppercase};

#[test]
fn split_keeps_empty_pieces() {
    assert_eq!(split_at_spaces("make  all"), vec!["make", "", "all"]);
    assert_eq!(split_at_spaces(""), vec![""]);
    assert_eq!(split_at_spaces(" x "), vec!["", "x", ""]);
}

#[test]
fn split_pieces_join_to_the_text() {
    let text = "sh  -c  build.sh ";
    assert_eq!(split_at_spaces(text).join(" "), text);
}

#[test]
fn decimal_has_no_leading_zeros() {
    assert_eq!(to_decimal(0), b"0".to_vec());
    assert_eq!(to_decimal(9), b"9".to_vec());
    assert_eq!(to_decimal(10), b"10".to_vec());
    assert_eq!(to_decimal(usize::MAX), usize::MAX.to_string().into_bytes());
}

#[test]
fn uppercase_is_one_character_for_one() {
    assert_eq!(to_uppercase('a'), 'A');
    assert_eq!(to_uppercase('Z'), 'Z');
    assert_eq!(to_uppercase('3'), '3');
    assert_eq!(to_uppercase('\u{e9}'), '\u{c9}');
    assert_eq!(to_uppercase('\u{df}'), '\u{df}');
    assert_eq!(to_uppercase('\u{1f80}'), '\u{1f88}');
    assert_eq!(to_uppercase('\u{1f97}'), '\u{1f9f}');
    assert_eq!(to_uppercase('\u{1fb3}'), '\u{1fbc}');
    assert_eq!(to_uppercase('\u{1f88}'), '\u{1f88}');
}

#[test]
fn names_are_rewritten_for_the_environment() {
    assert_eq!(to_env_name("my-lib_2"), "MY_LIB_2");
    assert_eq!(to_env_name(""), "");
}

#[test]
fn enclose_puts_text_around() {
    assert_eq!(enclose("<", "x", ">"), "<x>");
}
