use pycom_wrap::comment_wrapper::{format_single_line_comments, is_white_space, to_char_index, CommentWrapper};
use pycom_wrap::lex::LexicalErrorType;
use pycom_wrap::text_size::TextSize;

#[test]
fn test_to_char_offset() {
    let text = "a𐐀b𐐀d";
    let chars: Vec<char> = text.chars().collect();

    let expected_char_offset = 2;
    let actual_char_offset = to_char_index(&chars, TextSize::new(3));
    assert_eq!(expected_char_offset, actual_char_offset);

    let expected_char_offset = 4;
    let actual_char_offset = to_char_index(&chars, TextSize::new(7));
    assert_eq!(expected_char_offset, actual_char_offset);
}

#[test]
fn char_index_past_the_text_is_its_length() {
    let chars: Vec<char> = "ab".chars().collect();
    assert_eq!(to_char_index(&chars, TextSize::new(10)), 2);
    assert_eq!(to_char_index(&chars, TextSize::new(0)), 0);
}

#[test]
fn single_line_comment_is_stripped() {
    assert_eq!(format_single_line_comments("#  hello world \n".to_owned(), 80), "hello world");
    assert_eq!(format_single_line_comments("no hash\r".to_owned(), 80), "no hash");
    assert_eq!(format_single_line_comments("# a\nb ".to_owned(), 80), "ab");
    assert_eq!(format_single_line_comments("#".to_owned(), 80), "");
    assert_eq!(format_single_line_comments("##x".to_owned(), 80), "#x");
}

#[test]
fn process_reports_the_first_lexical_error() {
    let wrapper = CommentWrapper { max_line_length: 80 };
    let error = match wrapper.process("x = 0123\n# note\n") {
        Err(e) => e,
        Ok(_) => panic!("expected a lexical error"),
    };
    assert_eq!(
        error.error,
        LexicalErrorType::OtherError("An integer can't have a leading 0".to_owned())
    );
}

#[test]
fn larger_offsets_never_give_earlier_indices() {
    let chars: Vec<char> = "a𐐀b𐐀d".chars().collect();
    let mut previous = 0;
    for offset in 0..14 {
        let index = to_char_index(&chars, TextSize::new(offset));
        assert!(previous <= index);
        previous = index;
    }
}

#[test]
fn unicode_white_space_is_trimmed() {
    assert_eq!(format_single_line_comments("#\u{3000}x y\u{a0}".to_owned(), 80), "x y");
}

#[test]
fn try_process_looks_for_an_error_within_a_budget() {
    let wrapper = CommentWrapper { max_line_length: 80 };
    match wrapper.try_process("x = 0123\n", 100) {
        Some(Err(e)) => assert_eq!(
            e.error,
            LexicalErrorType::OtherError("An integer can't have a leading 0".to_owned())
        ),
        _ => panic!("expected a lexical error"),
    }
    assert!(wrapper.try_process("x = 0123\n", 2).is_none());
    assert!(wrapper.try_process("x = 1\n", 100).is_none());
}

#[test]
fn white_space_is_what_the_standard_library_reports() {
    for v in 0..=0x10ffffu32 {
        if let Some(c) = char::from_u32(v) {
            assert_eq!(is_white_space(c), c.is_whitespace(), "{:?}", c);
        }
    }
}
