use reing::text2image::{char_len, wrap_text};

#[test]
fn test_wrap_text() {
    assert_eq!(
        wrap_text(String::from("1234567890"), 5),
        vec![String::from("12345"), String::from("67890")]
    );
    assert_eq!(
        wrap_text(String::from("あいうえおかきくけこ"), 10),
        vec![String::from("あいうえお"), String::from("かきくけこ")]
    );
    assert_eq!(
        wrap_text(String::from("あいうえおかきくけこ"), 9),
        vec![String::from("あいうえお"), String::from("かきくけこ")]
    );
    assert_eq!(
        wrap_text(String::from("あいうえおaかきくけこ"), 9),
        vec![String::from("あいうえお"), String::from("aかきくけ"), String::from("こ")]
    );
    assert_eq!(
        wrap_text(String::from("あい\nうえおかきく\nけこ"), 10),
        vec![String::from("あい"), String::from("うえおかき"), String::from("く"), String::from("けこ")]
    );
}

#[test]
fn char_len_counts_ascii_as_one_cell() {
    assert_eq!(char_len('a'), 1);
    assert_eq!(char_len('~'), 1);
    assert_eq!(char_len('あ'), 2);
    assert_eq!(char_len('é'), 2);
}

#[test]
fn wrap_text_of_empty_text_is_empty() {
    assert_eq!(wrap_text(String::new(), 10), Vec::<String>::new());
    assert_eq!(wrap_text(String::from("\n\n"), 10), Vec::<String>::new());
}

#[test]
fn wrap_text_strips_carriage_returns_before_newlines() {
    assert_eq!(
        wrap_text(String::from("ab\r\ncd\r\n"), 10),
        vec![String::from("ab"), String::from("cd")]
    );
}

#[test]
fn wrap_text_with_zero_width_starts_with_an_empty_piece() {
    assert_eq!(
        wrap_text(String::from("ab"), 0),
        vec![String::new(), String::from("a"), String::from("b")]
    );
}
