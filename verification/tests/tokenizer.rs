use netlist::chars::{skip_run, CharClass};
use netlist::error::{ErrorKind, Expected, ParseError};
use netlist::tokenizer::{
    close_curly_brace, close_paran, colon, comma, concat_char_remaining, equal, first_char_id,
    id_char, identifier, identifier_of, lower, lower_id, number, one_of, open_curly_brace,
    open_paran, symbol, text_of, upper, upper_id, ws, Token,
};

fn chars(text: &str) -> Vec<char> {
    text.chars().collect()
}

fn rest(input: &[char], from: usize) -> String {
    input[from..].iter().collect()
}

#[test]
fn identifier_t() {
    let input = chars("_12sA");
    let (next, item) = identifier(&input, 0).unwrap();
    assert_eq!(item, "_12sA".to_string(), "Remaining: {:?}", rest(&input, next));
    assert_eq!(next, 5);
}

#[test]
fn ws_t() {
    let input = chars(" \t\r\n|");
    let (next, item) = ws(&input, 0);
    assert_eq!(item, " \t\r\n", "Remaining: {:?}", rest(&input, next));
    assert_eq!(rest(&input, next), "|");
}

#[test]
fn comma_t() {
    let input = chars(",|");
    let (next, item) = comma(&input, 0).unwrap();
    assert_eq!(item, Token::Comma, "Remaining: {:?}", rest(&input, next));
    assert_eq!(rest(&input, next), "|");
}

#[test]
fn left_paren_t() {
    let input = chars("(|");
    let (next, item) = open_paran(&input, 0).unwrap();
    assert_eq!(item, Token::OpenParan, "Remaining: {:?}", rest(&input, next));
    assert_eq!(rest(&input, next), "|");
}

#[test]
fn right_paren_t() {
    let input = chars(")|");
    let (next, item) = close_paran(&input, 0).unwrap();
    assert_eq!(item, Token::CloseParan, "Remaining: {:?}", rest(&input, next));
    assert_eq!(rest(&input, next), "|");
}

#[test]
fn id_t() {
    let input = chars("Vsse23_sd3");
    let (next, item) = upper_id(&input, 0).unwrap();
    assert_eq!(
        item,
        Token::UpperIdentifier("Vsse23_sd3".to_string()),
        "Remaining: {:?}",
        rest(&input, next)
    );
    assert_eq!(next, 10);
}

#[test]
fn every_class_holds_its_characters_and_no_others() {
    let samples = chars("AZaz09_ \t\r\npnumkMG-[`{@/:é");
    for c in samples {
        assert_eq!(CharClass::Upper.contains(c), c.is_ascii_uppercase());
        assert_eq!(CharClass::Lower.contains(c), c.is_ascii_lowercase());
        assert_eq!(CharClass::Digit.contains(c), c.is_ascii_digit());
        assert_eq!(CharClass::LowerStart.contains(c), c.is_ascii_lowercase() || c == '_');
        assert_eq!(CharClass::IdStart.contains(c), c.is_ascii_alphabetic() || c == '_');
        assert_eq!(CharClass::IdChar.contains(c), c.is_ascii_alphanumeric() || c == '_');
        assert_eq!(CharClass::Space.contains(c), " \t\r\n".contains(c));
        assert_eq!(CharClass::Suffix.contains(c), "pnumkMG".contains(c));
    }
}

#[test]
fn skip_run_stops_at_the_first_character_outside_the_class() {
    let input = chars("123abc");
    assert_eq!(skip_run(&input, 0, CharClass::Digit), 3);
    assert_eq!(skip_run(&input, 3, CharClass::Digit), 3);
    assert_eq!(skip_run(&input, 3, CharClass::IdChar), 6);
    assert_eq!(skip_run(&input, 6, CharClass::IdChar), 6);
    assert_eq!(skip_run(&input, 9, CharClass::IdChar), 9);
}

#[test]
fn single_character_parsers_take_one_character_of_their_class() {
    let input = chars("Ab1_");
    assert_eq!(upper(&input, 0), Ok((1, 'A')));
    assert_eq!(lower(&input, 1), Ok((2, 'b')));
    assert_eq!(number(&input, 2), Ok((3, '1')));
    assert_eq!(id_char(&input, 3), Ok((4, '_')));
    assert_eq!(first_char_id(&input, 3), Ok((4, '_')));
    assert_eq!(one_of(&input, 1, CharClass::IdStart), Ok((2, 'b')));
}

#[test]
fn single_character_parsers_report_a_lex_error() {
    let input = chars("a1");
    let expected = ParseError {
        kind: ErrorKind::LexError { class: CharClass::Upper, found: Some('a') },
        offset: 0,
        fatal: false,
        context: vec![],
    };
    assert_eq!(upper(&input, 0), Err(expected));
    let at_end = ParseError {
        kind: ErrorKind::LexError { class: CharClass::Digit, found: None },
        offset: 2,
        fatal: false,
        context: vec![],
    };
    assert_eq!(number(&input, 2), Err(at_end));
    let first = ParseError {
        kind: ErrorKind::LexError { class: CharClass::IdStart, found: Some('1') },
        offset: 1,
        fatal: false,
        context: vec![],
    };
    assert_eq!(first_char_id(&input, 1), Err(first));
}

#[test]
fn punctuation_is_recognised() {
    let input = chars(",:=(){}");
    assert_eq!(comma(&input, 0), Ok((1, Token::Comma)));
    assert_eq!(colon(&input, 1), Ok((2, Token::Colon)));
    assert_eq!(equal(&input, 2), Ok((3, Token::Equal)));
    assert_eq!(open_paran(&input, 3), Ok((4, Token::OpenParan)));
    assert_eq!(close_paran(&input, 4), Ok((5, Token::CloseParan)));
    assert_eq!(open_curly_brace(&input, 5), Ok((6, Token::OpenCurlyBrace)));
    assert_eq!(close_curly_brace(&input, 6), Ok((7, Token::CloseCurlyBrace)));
    assert_eq!(symbol(&input, 0, ','), Ok((1, ())));
}

#[test]
fn missing_punctuation_is_a_recoverable_syntax_error() {
    let input = chars("a");
    let expected = ParseError {
        kind: ErrorKind::SyntaxError { expected: Expected::Char(','), found: Some('a') },
        offset: 0,
        fatal: false,
        context: vec![],
    };
    assert_eq!(comma(&input, 0), Err(expected));
    let at_end = ParseError {
        kind: ErrorKind::SyntaxError { expected: Expected::Char('}'), found: None },
        offset: 1,
        fatal: false,
        context: vec![],
    };
    assert_eq!(close_curly_brace(&input, 1), Err(at_end));
}

#[test]
fn identifier_stops_at_the_first_character_that_cannot_continue_it() {
    let input = chars("ab_9-x");
    assert_eq!(identifier(&input, 0), Ok((4, "ab_9".to_string())));
    let input = chars("x");
    assert_eq!(identifier(&input, 0), Ok((1, "x".to_string())));
}

#[test]
fn identifier_rejects_a_leading_digit() {
    let input = chars("1abc");
    let expected = ParseError {
        kind: ErrorKind::LexError { class: CharClass::IdStart, found: Some('1') },
        offset: 0,
        fatal: false,
        context: vec![],
    };
    assert_eq!(identifier(&input, 0), Err(expected));
}

#[test]
fn identifier_does_not_skip_white_space() {
    let input = chars(" a");
    assert!(identifier(&input, 0).is_err());
    assert_eq!(identifier(&input, 1), Ok((2, "a".to_string())));
}

#[test]
fn case_classes_are_enforced() {
    let input = chars("abc");
    assert!(upper_id(&input, 0).is_err());
    assert_eq!(lower_id(&input, 0), Ok((3, Token::LowerIdentifier("abc".to_string()))));
    let input = chars("Abc");
    assert!(lower_id(&input, 0).is_err());
    assert_eq!(upper_id(&input, 0), Ok((3, Token::UpperIdentifier("Abc".to_string()))));
    let input = chars("_x1");
    assert_eq!(lower_id(&input, 0), Ok((3, Token::LowerIdentifier("_x1".to_string()))));
    assert!(upper_id(&input, 0).is_err());
    assert_eq!(identifier_of(&input, 0, CharClass::IdStart), Ok((3, "_x1".to_string())));
}

#[test]
fn text_helpers_copy_the_characters() {
    let input = chars("hello world");
    assert_eq!(text_of(&input, 6, 11), "world");
    assert_eq!(text_of(&input, 3, 3), "");
    assert_eq!(concat_char_remaining('a', vec!['b', 'c']), "abc");
    assert_eq!(concat_char_remaining('a', vec![]), "a");
}

#[test]
fn token_text_is_the_identifier_and_empty_for_punctuation() {
    assert_eq!(Token::Identifier("ab".to_string()).text(), "ab");
    assert_eq!(Token::UpperIdentifier("Ab".to_string()).text(), "Ab");
    assert_eq!(Token::LowerIdentifier("ab".to_string()).text(), "ab");
    assert_eq!(Token::Comma.text(), "");
}

#[test]
fn white_space_past_the_end_is_empty() {
    let input = chars("ab ");
    assert_eq!(ws(&input, 2), (3, " ".to_string()));
    assert_eq!(ws(&input, 3), (3, String::new()));
    assert_eq!(ws(&input, 7), (7, String::new()));
    assert_eq!(ws(&input, 0), (0, String::new()));
}

#[test]
fn an_identifier_on_its_own_is_consumed_whole() {
    for text in ["a", "Z", "_", "_12sA", "snake_case_9", "CamelCase", "x1y2z3"] {
        let input = chars(text);
        assert_eq!(identifier(&input, 0), Ok((input.len(), text.to_string())));
    }
    for text in ["0", "9lives", "1_"] {
        let input = chars(text);
        assert!(identifier(&input, 0).is_err());
        assert!(upper_id(&input, 0).is_err());
        assert!(lower_id(&input, 0).is_err());
    }
}
