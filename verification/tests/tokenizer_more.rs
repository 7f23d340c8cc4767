use code_analyser::tokenizer::{
    next_token, read_char, read_multi_line_comment, read_number, read_single_line_comment,
    read_string, read_unsigned_int, read_whitespace, tokenize, CharClass, Token, TokenKind,
};

fn id(s: &str) -> Token {
    Token::Identifier(s.to_string())
}

fn op(s: &str) -> Token {
    Token::Operator(s.to_string())
}

fn ws(s: &str) -> Token {
    Token::WhiteSpace(s.to_string())
}

fn joined(tokens: &Vec<Token>) -> String {
    let mut s = String::new();
    for t in tokens {
        s.push_str(t.text());
    }
    s
}

#[test]
fn identifiers_are_maximal_runs() {
    assert_eq!(
        tokenize("int x1_y;"),
        vec![id("int"), ws(" "), id("x1_y"), op(";")]
    );
    assert_eq!(tokenize("_a9"), vec![id("_a9")]);
}

#[test]
fn a_digit_starts_a_number_not_an_identifier() {
    assert_eq!(
        tokenize("9lives"),
        vec![Token::Number("9".to_string()), id("lives")]
    );
    assert_eq!(
        tokenize("0x1F"),
        vec![Token::Number("0".to_string()), id("x1F")]
    );
}

#[test]
fn unrecognized_characters_become_tokens_of_their_own() {
    assert_eq!(
        tokenize("@$"),
        vec![
            Token::Unknown("@".to_string()),
            Token::Unknown("$".to_string())
        ]
    );
    assert_eq!(tokenize("\\"), vec![Token::Unknown("\\".to_string())]);
    assert_eq!(
        tokenize("a\u{e9}b"),
        vec![id("a"), Token::Unknown("\u{e9}".to_string()), id("b")]
    );
}

#[test]
fn every_punctuator_is_one_operator() {
    let all = "#!~%^&*()[]{}+-=/:;<>?,.|";
    let tokens = tokenize(all);
    assert_eq!(tokens.len(), 25);
    for (t, c) in tokens.iter().zip(all.chars()) {
        assert_eq!(*t, Token::Operator(c.to_string()));
        assert!(t.is_operator(c));
    }
}

#[test]
fn operators_of_two_characters_are_not_merged() {
    assert_eq!(tokenize(">>"), vec![op(">"), op(">")]);
    assert_eq!(tokenize("a+=b"), vec![id("a"), op("+"), op("="), id("b")]);
    assert_eq!(tokenize("=="), vec![op("="), op("=")]);
}

#[test]
fn line_endings_in_all_spellings() {
    assert_eq!(tokenize("\n"), vec![Token::NewLine("\n".to_string())]);
    assert_eq!(tokenize("\r"), vec![Token::NewLine("\r".to_string())]);
    assert_eq!(tokenize("\r\n"), vec![Token::NewLine("\r\n".to_string())]);
    assert_eq!(tokenize("\n\r"), vec![Token::NewLine("\n\r".to_string())]);
    assert_eq!(
        tokenize("\n\n"),
        vec![
            Token::NewLine("\n".to_string()),
            Token::NewLine("\n".to_string())
        ]
    );
    assert_eq!(
        tokenize("\r\n\n"),
        vec![
            Token::NewLine("\r\n".to_string()),
            Token::NewLine("\n".to_string())
        ]
    );
}

#[test]
fn line_continuations_in_all_spellings() {
    assert_eq!(
        tokenize("\\\n"),
        vec![Token::LineContinuation("\\\n".to_string())]
    );
    assert_eq!(
        tokenize("\\\r"),
        vec![Token::LineContinuation("\\\r".to_string())]
    );
    assert_eq!(
        tokenize("\\\r\n"),
        vec![Token::LineContinuation("\\\r\n".to_string())]
    );
    assert_eq!(
        tokenize("\\\n\r"),
        vec![Token::LineContinuation("\\\n\r".to_string())]
    );
    assert_eq!(
        tokenize("\\\n\n"),
        vec![
            Token::LineContinuation("\\\n".to_string()),
            Token::NewLine("\n".to_string())
        ]
    );
}

#[test]
fn a_continued_single_line_comment_goes_on() {
    assert_eq!(
        tokenize("// a\\\nb\nc"),
        vec![Token::Comment("// a\\\nb\n".to_string()), id("c")]
    );
}

#[test]
fn a_single_line_comment_takes_one_line_ending_character() {
    assert_eq!(
        tokenize("//x\r\ny"),
        vec![
            Token::Comment("//x\r".to_string()),
            Token::NewLine("\n".to_string()),
            id("y")
        ]
    );
    assert_eq!(tokenize("//"), vec![Token::Comment("//".to_string())]);
}

#[test]
fn a_multi_line_comment_ends_at_the_first_closer() {
    assert_eq!(
        tokenize("/* a */ b */"),
        vec![
            Token::Comment("/* a */".to_string()),
            ws(" "),
            id("b"),
            ws(" "),
            op("*"),
            op("/")
        ]
    );
    assert_eq!(
        tokenize("/* never closed"),
        vec![Token::Comment("/* never closed".to_string())]
    );
    assert_eq!(tokenize("/*/"), vec![Token::Comment("/*/".to_string())]);
}

#[test]
fn a_slash_alone_is_an_operator() {
    assert_eq!(tokenize("a/b"), vec![id("a"), op("/"), id("b")]);
}

#[test]
fn literals_that_never_close_run_to_the_end() {
    assert_eq!(
        tokenize("\"abc; // x"),
        vec![Token::String("\"abc; // x".to_string())]
    );
    assert_eq!(tokenize("'a"), vec![Token::Char("'a".to_string())]);
    assert_eq!(tokenize("\""), vec![Token::String("\"".to_string())]);
}

#[test]
fn only_a_backslash_before_the_quote_hides_it() {
    assert_eq!(
        tokenize("\"a\\nb\" c"),
        vec![Token::String("\"a\\nb\"".to_string()), ws(" "), id("c")]
    );
    assert_eq!(
        tokenize("'\"' \"'\""),
        vec![
            Token::Char("'\"'".to_string()),
            ws(" "),
            Token::String("\"'\"".to_string())
        ]
    );
}

#[test]
fn number_shapes() {
    assert_eq!(tokenize("."), vec![op(".")]);
    assert_eq!(tokenize(".x"), vec![op("."), id("x")]);
    assert_eq!(tokenize(".5"), vec![Token::Number(".5".to_string())]);
    assert_eq!(tokenize("1e"), vec![Token::Number("1e".to_string())]);
    assert_eq!(tokenize("1e+"), vec![Token::Number("1e+".to_string())]);
    assert_eq!(
        tokenize("1.2.3"),
        vec![
            Token::Number("1.2".to_string()),
            Token::Number(".3".to_string())
        ]
    );
    assert_eq!(
        tokenize("1e5e6"),
        vec![Token::Number("1e5".to_string()), id("e6")]
    );
    assert_eq!(
        tokenize("1+2"),
        vec![
            Token::Number("1".to_string()),
            op("+"),
            Token::Number("2".to_string())
        ]
    );
    assert_eq!(
        tokenize("1..2"),
        vec![
            Token::Number("1.".to_string()),
            Token::Number(".2".to_string())
        ]
    );
}

#[test]
fn joined_token_texts_are_the_input() {
    let inputs = [
        "",
        "int main() { return 0; }\n",
        "#include <a.h> // x\r\n\t'\\'' \"s\\\"t\" 1.5e-3 @ \u{4e2d}\u{6587} /* c */ \\\n",
        "\"open",
        "/* open",
        "a\\b",
    ];
    for input in inputs {
        let tokens = tokenize(input);
        assert_eq!(joined(&tokens), input);
        for t in &tokens {
            assert!(!t.text().is_empty());
        }
    }
}

#[test]
fn a_token_knows_its_kind_and_text() {
    let t = Token::new(TokenKind::Number, "12".to_string());
    assert_eq!(t, Token::Number("12".to_string()));
    assert_eq!(t.kind(), TokenKind::Number);
    assert_eq!(t.text(), "12");
    assert_eq!(t.clone(), t);
    let kinds = [
        TokenKind::Unknown,
        TokenKind::LineContinuation,
        TokenKind::NewLine,
        TokenKind::WhiteSpace,
        TokenKind::Comment,
        TokenKind::String,
        TokenKind::Char,
        TokenKind::Number,
        TokenKind::Operator,
        TokenKind::Identifier,
    ];
    for k in kinds {
        let t = Token::new(k, "x".to_string());
        assert_eq!(t.kind(), k);
        assert_eq!(t.text(), "x");
    }
}

#[test]
fn operator_and_identifier_tests_look_at_kind_and_text() {
    assert!(op(";").is_operator(';'));
    assert!(!op(";").is_operator(','));
    assert!(!op(";;").is_operator(';'));
    assert!(!op("").is_operator(';'));
    assert!(!id(";").is_operator(';'));
    assert!(id("class").is_identifier("class"));
    assert!(!id("class").is_identifier("clas"));
    assert!(!id("class").is_identifier("classy"));
    assert!(!op("class").is_identifier("class"));
}

#[test]
fn character_classes() {
    assert!(CharClass::Blank.contains(' '));
    assert!(CharClass::Blank.contains('\t'));
    assert!(!CharClass::Blank.contains('\n'));
    assert!(CharClass::Digit.contains('0'));
    assert!(CharClass::Digit.contains('9'));
    assert!(!CharClass::Digit.contains('a'));
    assert!(CharClass::Word.contains('_'));
    assert!(CharClass::Word.contains('z'));
    assert!(CharClass::Word.contains('A'));
    assert!(CharClass::Word.contains('5'));
    assert!(!CharClass::Word.contains('-'));
    assert!(!CharClass::Word.contains('\u{e9}'));
}

#[test]
fn readers_measure_from_a_position() {
    let s: Vec<char> = "ab  \t12.5e3 // c\nx /* d */ \"q\\\"r\" 'c' z".chars().collect();
    assert_eq!(read_whitespace(&s, 2), 3);
    assert_eq!(read_whitespace(&s, 0), 0);
    assert_eq!(read_unsigned_int(&s, 5), 2);
    assert_eq!(read_number(&s, 5), 6);
    assert_eq!(read_single_line_comment(&s, 12), 5);
    assert_eq!(read_multi_line_comment(&s, 19), 7);
    assert_eq!(read_string(&s, 27), 6);
    assert_eq!(read_char(&s, 34), 3);
    assert_eq!(next_token(&s, 0), (TokenKind::Identifier, 2));
    assert_eq!(next_token(&s, 2), (TokenKind::WhiteSpace, 3));
    assert_eq!(next_token(&s, 5), (TokenKind::Number, 6));
    assert_eq!(next_token(&s, 12), (TokenKind::Comment, 5));
    assert_eq!(next_token(&s, 19), (TokenKind::Comment, 7));
    assert_eq!(next_token(&s, 27), (TokenKind::String, 6));
    assert_eq!(next_token(&s, 34), (TokenKind::Char, 3));
    assert_eq!(read_whitespace(&s, s.len()), 0);
    assert_eq!(read_number(&s, s.len()), 0);
}
