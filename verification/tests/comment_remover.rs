use code_analyser::comment_remover::remove_comments;


#[test]
fn test_no_comments() {
    let input = "int main() {}";
    assert_eq!(remove_comments(input), input);
}

#[test]
fn test_no_comments_multiline() {
    let input = "int main()\n{\n}\n";
    assert_eq!(remove_comments(input), input);
}

#[test]
fn test_no_comments_multiline_windows_newlines() {
    let input = "int main()\r\n{\r\n}\r\n";
    assert_eq!(remove_comments(input), input);
}

#[test]
fn test_no_comments_multiline_old_mac_newlines() {
    let input = "int main()\r{\r}\r";
    assert_eq!(remove_comments(input), input);
}

#[test]
fn comment_remover_test_single_line_comment() {
    let input = "\
// single-line comment
int main() {
}";
    let output = "\
int main() {
}";
    assert_eq!(remove_comments(input), output);
}

#[test]
fn comment_remover_test_multi_line_comment() {
    let input = "\
/* multi-line comment */
int main() {
}";
    let output = "\n\
int main() {
}";
    assert_eq!(remove_comments(input), output);
}

#[test]
fn test_multi_line_comment_with_asterisk() {
    let input = "\
/* multi-line * comment */
int main() {
}";
    let output = "\n\
int main() {
}";
    assert_eq!(remove_comments(input), output);
}

#[test]
fn comment_remover_test_simple_string() {
    let input = "\
int main() {
    printf(\"hello, world!\");
}";
    let output = "\
int main() {
    printf(\"hello, world!\");
}";
    assert_eq!(remove_comments(input), output);
}

#[test]
fn test_string_with_double_quotes() {
    let input = "\
int main() {
    printf(\"hello \\\" world!\");
}";
    let output = "\
int main() {
    printf(\"hello \\\" world!\");
}";
    assert_eq!(remove_comments(input), output);
}

#[test]
fn test_string_with_two_slashes() {
    let input = "\
int main() {
    printf(\"hello // world!\");
}";
    let output = "\
int main() {
    printf(\"hello // world!\");
}";
    assert_eq!(remove_comments(input), output);
}

#[test]
fn test_string_with_slashe_and_asterisk() {
    let input = "\
int main() {
    printf(\"hello /* world!\");
}";
    let output = "\
int main() {
    printf(\"hello /* world!\");
}";
    assert_eq!(remove_comments(input), output);
}

#[test]
fn test_normal_char() {
    let input = "int main() {char ch = '1';}";
    assert_eq!(remove_comments(input), input);
}

#[test]
fn test_char_with_backslash() {
    let input = "int main() {char ch = '\\n';}";
    assert_eq!(remove_comments(input), input);
}
