use code_analyser::preprocessor::{
    collect_definitions, collect_includes, get_custom_includes, get_include_names, get_includes,
    get_preprocessor_definitions, get_standard_includes, header_name_of, inner_of,
    is_delimited_by, select_headers, DirectiveState,
};
use code_analyser::standard_headers::{
    base_name_of, contains_name, get_unused_headers, holds_identifier,
};
use code_analyser::token_filter::{filter_tokens, is_noise_token};
use code_analyser::tokenizer::{tokenize, Token};

fn id(s: &str) -> Token {
    Token::Identifier(s.to_string())
}

fn op(s: &str) -> Token {
    Token::Operator(s.to_string())
}

#[test]
fn the_filter_keeps_the_code_only() {
    assert_eq!(
        filter_tokens(tokenize("#define X \\\n 1\nint a; // c\n/* d */ b")),
        vec![id("int"), id("a"), op(";"), id("b")]
    );
    assert_eq!(filter_tokens(tokenize("")), vec![]);
    assert_eq!(filter_tokens(tokenize("# pragma once")), vec![]);
}

#[test]
fn the_filter_drops_line_continuations() {
    assert_eq!(
        filter_tokens(tokenize("int \\\n a;")),
        vec![id("int"), id("a"), op(";")]
    );
}

#[test]
fn the_filter_keeps_literals_keywords_and_unknown_characters() {
    assert_eq!(
        filter_tokens(tokenize("const int @ = 'c' + \"s\" + 1;")),
        vec![
            id("const"),
            id("int"),
            Token::Unknown("@".to_string()),
            op("="),
            Token::Char("'c'".to_string()),
            op("+"),
            Token::String("\"s\"".to_string()),
            op("+"),
            Token::Number("1".to_string()),
            op(";")
        ]
    );
    assert_eq!(
        filter_tokens(tokenize("class Y final {};")),
        vec![id("class"), id("Y"), id("final"), op("{"), op("}"), op(";")]
    );
}

#[test]
fn a_directive_ends_with_its_line() {
    assert_eq!(
        filter_tokens(tokenize("a # b c\nd")),
        vec![id("a"), id("d")]
    );
    assert_eq!(
        filter_tokens(tokenize("#if 1\r\nx\r\n#endif\r\ny")),
        vec![id("x"), id("y")]
    );
}

#[test]
fn noise_is_layout_and_commentary() {
    assert!(is_noise_token(&Token::WhiteSpace(" ".to_string())));
    assert!(is_noise_token(&Token::NewLine("\n".to_string())));
    assert!(is_noise_token(&Token::LineContinuation("\\\n".to_string())));
    assert!(is_noise_token(&Token::Comment("//".to_string())));
    assert!(!is_noise_token(&op("#")));
    assert!(!is_noise_token(&id("a")));
    assert!(!is_noise_token(&Token::Unknown("@".to_string())));
    assert!(!is_noise_token(&Token::String("\"\"".to_string())));
    assert!(!is_noise_token(&Token::Char("''".to_string())));
    assert!(!is_noise_token(&Token::Number("1".to_string())));
}

#[test]
fn definitions_are_read_in_order() {
    assert_eq!(
        get_preprocessor_definitions("#define A\n#define B A\nint C;\n#  define  D(x) x\n"),
        vec!["A", "B", "D"]
    );
    assert_eq!(
        get_preprocessor_definitions("#define A 1\n#define A 2\n"),
        vec!["A", "A"]
    );
    assert_eq!(get_preprocessor_definitions("#define A"), vec!["A"]);
    assert_eq!(
        get_preprocessor_definitions("x = 1; # define Y\n"),
        vec!["Y"]
    );
}

#[test]
fn other_directives_are_skipped_as_a_whole() {
    assert_eq!(
        get_preprocessor_definitions("#ifdef define\n#undef define X\n#pragma define Y\n"),
        Vec::<String>::new()
    );
    assert_eq!(
        get_preprocessor_definitions("#/**/define X\n"),
        Vec::<String>::new()
    );
    assert_eq!(
        get_preprocessor_definitions("#define 1 X\n"),
        vec!["X"]
    );
}

#[test]
fn a_definition_may_span_continued_lines() {
    assert_eq!(
        get_preprocessor_definitions("#define A(x) \\\n  #define B\n#define C\n"),
        vec!["A", "C"]
    );
}

#[test]
fn the_reader_of_definitions_steps_as_its_states_say() {
    let hash = op("#");
    let define = id("define");
    let other = id("ifdef");
    let blank = Token::WhiteSpace(" ".to_string());
    let line = Token::NewLine("\n".to_string());
    assert_eq!(
        DirectiveState::SeekHash.on_token(&hash),
        (DirectiveState::SeekWord, false)
    );
    assert_eq!(
        DirectiveState::SeekHash.on_token(&define),
        (DirectiveState::SeekHash, false)
    );
    assert_eq!(
        DirectiveState::SeekWord.on_token(&blank),
        (DirectiveState::SeekWord, false)
    );
    assert_eq!(
        DirectiveState::SeekWord.on_token(&define),
        (DirectiveState::SeekName, false)
    );
    assert_eq!(
        DirectiveState::SeekWord.on_token(&other),
        (DirectiveState::SeekNewline, false)
    );
    assert_eq!(
        DirectiveState::SeekWord.on_token(&hash),
        (DirectiveState::SeekNewline, false)
    );
    assert_eq!(
        DirectiveState::SeekName.on_token(&blank),
        (DirectiveState::SeekName, false)
    );
    assert_eq!(
        DirectiveState::SeekName.on_token(&define),
        (DirectiveState::SeekNewline, true)
    );
    assert_eq!(
        DirectiveState::SeekNewline.on_token(&other),
        (DirectiveState::SeekNewline, false)
    );
    assert_eq!(
        DirectiveState::SeekNewline.on_token(&line),
        (DirectiveState::SeekHash, false)
    );
}

#[test]
fn definitions_and_includes_of_given_tokens() {
    let tokens = tokenize("#include <a.h>\n#define X\n");
    assert_eq!(collect_definitions(&tokens), vec!["X"]);
    assert_eq!(collect_includes(&tokens), vec!["<a.h>"]);
    assert_eq!(collect_definitions(&Vec::new()), Vec::<String>::new());
    assert_eq!(collect_includes(&Vec::new()), Vec::<String>::new());
}

#[test]
fn include_targets_keep_their_delimiters() {
    assert_eq!(
        get_includes("#include <iostream>\n#include \"file.h\"\n"),
        vec!["<iostream>", "\"file.h\""]
    );
}

#[test]
fn whitespace_around_a_directive_does_not_matter() {
    let input = "  \t#  \t include \t  <vector>  \t \n#include\"a b.h\"\t\n";
    assert_eq!(get_includes(input), vec!["<vector>", "\"a b.h\""]);
    assert_eq!(get_include_names(input), vec!["vector", "a b.h"]);
    assert_eq!(get_standard_includes(input), vec!["vector"]);
    assert_eq!(get_custom_includes(input), vec!["a b.h"]);
}

#[test]
fn includes_are_told_apart_by_their_delimiters() {
    let input = "#include <a/b.h>\n#include \"c.h\"\n#include MACRO\n#include <d>\n#include <>\n";
    assert_eq!(
        get_includes(input),
        vec!["<a/b.h>", "\"c.h\"", "MACRO", "<d>", "<>"]
    );
    assert_eq!(
        get_include_names(input),
        vec!["a/b.h", "c.h", "MACRO", "d", ""]
    );
    assert_eq!(get_standard_includes(input), vec!["a/b.h", "d", ""]);
    assert_eq!(get_custom_includes(input), vec!["c.h"]);
}

#[test]
fn an_include_ends_with_its_line_or_with_the_input() {
    assert_eq!(get_includes("#include <a.h>"), vec!["<a.h>"]);
    assert_eq!(get_includes("#include <a.h>\n"), vec!["<a.h>"]);
    assert_eq!(get_includes("#include <a.h>\r\n"), vec!["<a.h>"]);
    assert_eq!(get_includes("#include <iostream>"), vec!["<iostream>"]);
    assert_eq!(get_includes("#include \"file.h\""), vec!["\"file.h\""]);
    assert_eq!(
        get_includes("#include <a.h>\n#include \"b.h\"  "),
        vec!["<a.h>", "\"b.h\""]
    );
    assert_eq!(get_includes("#include <a.h> // last"), vec!["<a.h>"]);
    assert_eq!(get_includes("#include\n"), vec![""]);
    assert_eq!(get_includes("#include"), vec![""]);
    assert_eq!(get_includes("#"), Vec::<String>::new());
    assert_eq!(get_includes("# inc"), Vec::<String>::new());
    assert_eq!(get_includes("#include <a.h>\nint x;"), vec!["<a.h>"]);
}

#[test]
fn the_variants_see_a_directive_that_ends_with_the_input() {
    assert_eq!(get_include_names("#include <iostream>"), vec!["iostream"]);
    assert_eq!(get_include_names("#include \"file.h\""), vec!["file.h"]);
    assert_eq!(get_standard_includes("#include <iostream>"), vec!["iostream"]);
    assert_eq!(get_custom_includes("#include \"file.h\""), vec!["file.h"]);
    assert_eq!(get_unused_headers("#include <iostream>"), vec!["iostream"]);
    assert_eq!(
        collect_includes(&tokenize("#include <a>")),
        vec!["<a>"]
    );
}

#[test]
fn only_include_directives_name_headers() {
    assert_eq!(
        get_includes("#define include <a.h>\n#pragma include <b.h>\ninclude <c.h>\n"),
        Vec::<String>::new()
    );
    assert_eq!(get_includes("#import <a.h>\n#include <b.h>\n"), vec!["<b.h>"]);
}

#[test]
fn delimiters_are_the_first_and_the_last_character() {
    assert!(is_delimited_by("<a>", '<', '>'));
    assert!(is_delimited_by("<>", '<', '>'));
    assert!(is_delimited_by("\"\"", '"', '"'));
    assert!(!is_delimited_by("<", '<', '>'));
    assert!(!is_delimited_by("\"", '"', '"'));
    assert!(!is_delimited_by("", '<', '>'));
    assert!(!is_delimited_by("<a\"", '<', '>'));
    assert!(!is_delimited_by("a>", '<', '>'));
    assert_eq!(inner_of("<abc>"), "abc");
    assert_eq!(inner_of("ab"), "");
    assert_eq!(header_name_of("<a.h>"), "a.h");
    assert_eq!(header_name_of("\"a.h\""), "a.h");
    assert_eq!(header_name_of("a.h"), "a.h");
    assert_eq!(header_name_of("<a.h\""), "<a.h\"");
    assert_eq!(header_name_of("\""), "\"");
    assert_eq!(header_name_of(""), "");
    assert_eq!(header_name_of("<\u{e9}>"), "\u{e9}");
    let targets = vec!["<a>".to_string(), "\"b\"".to_string(), "[c]".to_string()];
    assert_eq!(select_headers(&targets, '[', ']'), vec!["c"]);
    assert_eq!(select_headers(&targets, '<', '>'), vec!["a"]);
    assert_eq!(select_headers(&targets, '(', ')'), Vec::<String>::new());
}

#[test]
fn a_header_is_unused_when_its_base_name_is_no_identifier_of_the_file() {
    let input = "#include <vector>\n#include <string>\n#include <stdio.h>\n#include \"string\"\nstd::vector<int> v;\nint main() { printf(\"x\"); }\n";
    assert_eq!(get_unused_headers(input), vec!["string", "stdio.h"]);
}

#[test]
fn a_macro_of_the_file_uses_a_header() {
    assert_eq!(
        get_unused_headers("#include <assert.h>\n#define assert(x) x\n"),
        Vec::<String>::new()
    );
}

#[test]
fn words_in_directives_comments_and_literals_use_no_header() {
    let input = "#include <vector>\n#include <vector>\n// vector\nchar *s = \"vector\";\n#ifdef vector\n#endif\n";
    assert_eq!(get_unused_headers(input), vec!["vector", "vector"]);
    assert_eq!(get_unused_headers(""), Vec::<String>::new());
}

#[test]
fn the_base_name_ends_at_the_first_dot() {
    assert_eq!(base_name_of("stdio.h"), "stdio");
    assert_eq!(base_name_of("vector"), "vector");
    assert_eq!(base_name_of("a.b.c"), "a");
    assert_eq!(base_name_of(".h"), "");
    assert_eq!(base_name_of(""), "");
    assert_eq!(base_name_of("sys/types.h"), "sys/types");
}

#[test]
fn names_and_identifiers_are_looked_up_by_their_text() {
    let names = vec!["a".to_string(), "bc".to_string()];
    assert!(contains_name(&names, "a"));
    assert!(contains_name(&names, "bc"));
    assert!(!contains_name(&names, "b"));
    assert!(!contains_name(&Vec::new(), "a"));
    let tokens = vec![op("a"), id("bc"), Token::String("d".to_string())];
    assert!(holds_identifier(&tokens, "bc"));
    assert!(!holds_identifier(&tokens, "a"));
    assert!(!holds_identifier(&tokens, "d"));
    assert!(!holds_identifier(&Vec::new(), "a"));
}

#[test]
fn every_header_line_gives_one_delimited_target() {
    let input = "int a;\n#include <x.h>\n \t# \tinclude\t\"y z.h\" \n\nint b;\n#include<sys/w.h>\r\nint c;";
    let targets = get_includes(input);
    assert_eq!(targets, vec!["<x.h>", "\"y z.h\"", "<sys/w.h>"]);
    let names = get_include_names(input);
    assert_eq!(names.len(), targets.len());
    for (target, name) in targets.iter().zip(names.iter()) {
        assert!(target.len() >= 2);
        assert!(is_delimited_by(target, '<', '>') || is_delimited_by(target, '"', '"'));
        assert_eq!(*name, target[1..target.len() - 1]);
    }
}
