use code_analyser::declaration_finder::DeclarationFinder;
use code_analyser::scan_error::{Expected, Keyword, ScanError};
use code_analyser::text::{chars_of, same_text, string_of};
use code_analyser::token_filter::filter_tokens;
use code_analyser::tokenizer::{
    char_at, is_line_end_char, is_punctuator_char, read_exponent, read_line_end, read_quoted,
    read_run, tokenize, CharClass, Token,
};

fn finder(text: &str) -> DeclarationFinder {
    DeclarationFinder::new(filter_tokens(tokenize(text)))
}

#[test]
fn a_text_and_its_characters() {
    assert_eq!(chars_of(""), Vec::<char>::new());
    assert_eq!(chars_of("a\u{e9}\n"), vec!['a', '\u{e9}', '\n']);
    let chars = vec!['a', 'b', '\u{4e2d}', 'd'];
    assert_eq!(string_of(&chars, 0, 4), "ab\u{4e2d}d");
    assert_eq!(string_of(&chars, 1, 3), "b\u{4e2d}");
    assert_eq!(string_of(&chars, 2, 2), "");
}

#[test]
fn texts_are_the_same_when_their_characters_are() {
    assert!(same_text("", ""));
    assert!(same_text("abc", "abc"));
    assert!(same_text("\u{e9}", "\u{e9}"));
    assert!(!same_text("abc", "abd"));
    assert!(!same_text("abc", "ab"));
    assert!(!same_text("", "a"));
    assert!(!same_text("\u{e9}", "e"));
}

#[test]
fn characters_are_told_apart() {
    assert!(is_line_end_char('\n'));
    assert!(is_line_end_char('\r'));
    assert!(!is_line_end_char(' '));
    assert!(is_punctuator_char('#'));
    assert!(is_punctuator_char('|'));
    assert!(!is_punctuator_char('\\'));
    assert!(!is_punctuator_char('@'));
    assert!(!is_punctuator_char('"'));
    assert!(!is_punctuator_char('a'));
    let s = vec!['a', 'b'];
    assert!(char_at(&s, 1, 'b'));
    assert!(!char_at(&s, 1, 'a'));
    assert!(!char_at(&s, 2, 'b'));
}

#[test]
fn small_readers_measure_from_a_position() {
    let s: Vec<char> = "ab12 \n\r\n\n e-5 E+ e x\\\"y\" z".chars().collect();
    assert_eq!(read_run(&s, 0, CharClass::Word), 4);
    assert_eq!(read_run(&s, 0, CharClass::Digit), 0);
    assert_eq!(read_run(&s, 2, CharClass::Digit), 2);
    assert_eq!(read_run(&s, 4, CharClass::Blank), 1);
    assert_eq!(read_line_end(&s, 5), 2);
    assert_eq!(read_line_end(&s, 6), 2);
    assert_eq!(read_line_end(&s, 7), 1);
    assert_eq!(read_line_end(&s, 8), 1);
    assert_eq!(read_exponent(&s, 10), 3);
    assert_eq!(read_exponent(&s, 14), 2);
    assert_eq!(read_exponent(&s, 17), 1);
    assert_eq!(read_exponent(&s, 19), 0);
    assert_eq!(read_exponent(&s, s.len()), 0);
    assert_eq!(read_quoted(&s, 19, '"'), 5);
    assert_eq!(read_quoted(&s, 19, 'y'), 4);
    assert_eq!(read_quoted(&s, 24, '"'), 2);
    assert_eq!(read_quoted(&s, s.len(), '"'), 0);
}

#[test]
fn an_error_holds_the_token_where_it_arose() {
    let tokens = tokenize("a b");
    assert_eq!(
        ScanError::at(&tokens, 1, Expected::Identifier),
        ScanError {
            expected: Expected::Identifier,
            position: 1,
            found: Some(Token::WhiteSpace(" ".to_string()))
        }
    );
    assert_eq!(
        ScanError::at(&tokens, 3, Expected::ClassBody),
        ScanError {
            expected: Expected::ClassBody,
            position: 3,
            found: None
        }
    );
    let d = finder("a b");
    assert_eq!(
        d.fail(1, Expected::TopLevelItem),
        ScanError {
            expected: Expected::TopLevelItem,
            position: 1,
            found: Some(Token::Identifier("b".to_string()))
        }
    );
}

#[test]
fn the_finder_looks_at_any_position() {
    let d = finder("template < class struct typedef using __attribute__ ( ]");
    assert!(d.has_keyword_at(0, Keyword::Template));
    assert!(!d.has_keyword_at(1, Keyword::Template));
    assert!(d.has_keyword_at(2, Keyword::ClassOrStruct));
    assert!(d.has_keyword_at(3, Keyword::ClassOrStruct));
    assert!(d.has_keyword_at(4, Keyword::Typedef));
    assert!(d.has_keyword_at(5, Keyword::Using));
    assert!(d.has_keyword_at(6, Keyword::Attribute));
    assert!(!d.has_keyword_at(6, Keyword::Using));
    assert!(!d.has_keyword_at(9, Keyword::Using));
    assert!(d.has_operator_at(1, '<'));
    assert!(!d.has_operator_at(1, '>'));
    assert!(!d.has_operator_at(0, '<'));
    assert!(!d.has_operator_at(9, '<'));
    assert_eq!(d.opens(1, true), Some(('>', true)));
    assert_eq!(d.opens(1, false), None);
    assert_eq!(d.opens(7, true), Some((')', false)));
    assert_eq!(d.opens(7, false), Some((')', false)));
    assert_eq!(d.opens(8, true), None);
    assert_eq!(d.opens(0, true), None);
    assert_eq!(d.name_at(2), Some("class".to_string()));
    assert_eq!(d.name_at(1), Some("<".to_string()));
    let empty = DeclarationFinder::new(vec![Token::Identifier(String::new())]);
    assert_eq!(empty.name_at(0), None);
}

#[test]
fn brackets_and_curly_braces_open_spans_too() {
    let d = finder("{ [");
    assert_eq!(d.opens(0, false), Some(('}', false)));
    assert_eq!(d.opens(1, true), Some((']', false)));
}

#[test]
fn names_are_recorded_in_order() {
    let mut d = finder("x");
    d.record(None);
    assert!(d.declarations.is_empty());
    d.record(Some("a".to_string()));
    d.record(None);
    d.record(Some("b".to_string()));
    assert_eq!(d.declarations, vec!["a", "b"]);
    assert_eq!(d.pos, 0);
}

#[test]
fn a_class_head_ends_at_its_semicolon_or_behind_its_body() {
    let mut d = finder("struct X ; struct { int a ; } v ;");
    assert_eq!(d.read_class_head(), Ok(Some("X".to_string())));
    assert_eq!(d.pos, 2);
    assert!(d.declarations.is_empty());
    assert_eq!(d.finish_with_semicolon(0, Some("X".to_string())), Ok(()));
    assert_eq!(d.pos, 3);
    assert_eq!(d.declarations, vec!["X"]);
    assert_eq!(d.read_class_head(), Ok(None));
    assert_eq!(d.pos, 9);
    assert_eq!(
        d.finish_with_semicolon(3, None),
        Err(ScanError {
            expected: Expected::Operator(';'),
            position: 9,
            found: Some(Token::Identifier("v".to_string()))
        })
    );
    assert_eq!(d.pos, 3);
    assert_eq!(d.declarations, vec!["X"]);
}

#[test]
fn the_tail_of_a_class_head_is_skipped_token_by_token() {
    let mut d = finder("a ( b : c { d");
    d.skip_class_tail();
    assert_eq!(d.pos, 5);
    d.skip_class_tail();
    assert_eq!(d.pos, 5);
    let mut d = finder("a b");
    d.skip_class_tail();
    assert_eq!(d.pos, 2);
    d.skip_class_tail();
    assert_eq!(d.pos, 2);
}

#[test]
fn a_body_is_a_semicolon_or_a_block() {
    let mut d = finder("; { ( } ) } x");
    assert_eq!(d.skip_body(Expected::FunctionBody), Ok(()));
    assert_eq!(d.pos, 1);
    assert_eq!(d.skip_body(Expected::FunctionBody), Ok(()));
    assert_eq!(d.pos, 6);
    assert_eq!(
        d.skip_body(Expected::FunctionTail),
        Err(ScanError {
            expected: Expected::FunctionTail,
            position: 6,
            found: Some(Token::Identifier("x".to_string()))
        })
    );
    assert_eq!(d.pos, 6);
}

#[test]
fn angle_brackets_nest_only_where_asked() {
    let mut d = finder("< a < b > c > d");
    assert_eq!(d.skip_template_brackets(), Ok(()));
    assert_eq!(d.pos, 7);
    let mut d = finder("< a < b > c > d");
    assert_eq!(d.skip_pair('<', '>', false), Ok(()));
    assert_eq!(d.pos, 5);
    let mut d = finder("< a < b > c > d");
    assert_eq!(d.skip_bracket_pair('<', '>'), Ok(()));
    assert_eq!(d.pos, 5);
    let mut d = finder("< a ( > ) b > c");
    assert_eq!(d.skip_pair('<', '>', true), Ok(()));
    assert_eq!(d.pos, 7);
}

#[test]
fn a_declaration_is_a_head_and_what_ends_it() {
    let mut d = finder("int a ; int b = { 1 } ; int c ( ) { } int d ( ) x");
    assert_eq!(d.process_declaration(), Ok(()));
    assert_eq!(d.pos, 3);
    assert_eq!(d.process_declaration(), Ok(()));
    assert_eq!(d.pos, 10);
    assert_eq!(d.process_declaration(), Ok(()));
    assert_eq!(d.pos, 16);
    assert_eq!(d.declarations, vec!["a", "b", "c"]);
    assert_eq!(
        d.process_declaration(),
        Err(ScanError {
            expected: Expected::FunctionTail,
            position: 20,
            found: Some(Token::Identifier("x".to_string()))
        })
    );
    assert_eq!(d.pos, 16);
    assert_eq!(d.declarations, vec!["a", "b", "c"]);
}

#[test]
fn a_template_header_is_skipped_as_a_whole() {
    let mut d = finder("template < class T , int N = ( 1 < 2 ) > class X ;");
    assert_eq!(d.process_template(), Ok(()));
    assert_eq!(d.pos, 14);
    assert!(d.declarations.is_empty());
    assert_eq!(d.process_item(), Ok(()));
    assert_eq!(d.declarations, vec!["X"]);
    assert!(d.eof());
}

#[test]
fn using_and_typedef_record_one_name_each() {
    let mut d = finder("using A = B < C > ; typedef A D ; typedef struct E F ;");
    assert_eq!(d.process_using(), Ok(()));
    assert_eq!(d.pos, 8);
    assert_eq!(d.process_typedef(), Ok(()));
    assert_eq!(d.pos, 12);
    assert_eq!(d.process_typedef(), Ok(()));
    assert_eq!(d.pos, 16);
    assert_eq!(d.declarations, vec!["A", "D", "E"]);
    assert_eq!(d.process_item(), Ok(()));
    assert!(d.eof());
    assert_eq!(d.declarations, vec!["A", "D", "E"]);
}
