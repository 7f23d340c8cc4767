//! Splitting source text into tokens.
use vstd::prelude::*;

verus! {

/// What a token is.
#[derive(Clone, Copy, Debug, PartialEq, Eq, Structural)]
pub enum TokenKind {
    /// A character that starts no other token.
    Unknown,
    /// A backslash followed by a line ending.
    LineContinuation,
    /// A line ending.
    NewLine,
    /// A run of spaces and tabs.
    WhiteSpace,
    /// A single-line or multi-line comment.
    Comment,
    /// A string literal.
    String,
    /// A character literal.
    Char,
    /// A numeric literal.
    Number,
    /// A one-character operator or punctuator.
    Operator,
    /// An identifier or keyword.
    Identifier,
}

/// A token as a mathematical value: its kind and the characters it covers.
pub ghost struct Lexeme {
    /// What the token is.
    pub kind: TokenKind,
    /// The characters that the token covers.
    pub text: Seq<char>,
}

/// A token of C or C++ source text, with the exact text it was read from.
#[derive(Debug, PartialEq, Eq)]
pub enum Token {
    /// A character that starts no other token.
    Unknown(String),
    /// A backslash followed by a line ending.
    LineContinuation(String),
    /// A line ending: `\n`, `\r`, `\n\r` or `\r\n`.
    NewLine(String),
    /// A run of spaces and tabs.
    WhiteSpace(String),
    /// A single-line or multi-line comment, delimiters included.
    Comment(String),
    /// A string literal, quotes included.
    String(String),
    /// A character literal, quotes included.
    Char(String),
    /// An integer or floating literal without a leading sign.
    Number(String),
    /// A one-character operator or punctuator.
    Operator(String),
    /// A run of letters, digits and underscores that starts with no digit.
    Identifier(String),
}

impl View for Token {
    type V = Lexeme;

    open spec fn view(&self) -> Lexeme {
        match *self {
            Token::Unknown(s) => Lexeme { kind: TokenKind::Unknown, text: s@ },
            Token::LineContinuation(s) => Lexeme { kind: TokenKind::LineContinuation, text: s@ },
            Token::NewLine(s) => Lexeme { kind: TokenKind::NewLine, text: s@ },
            Token::WhiteSpace(s) => Lexeme { kind: TokenKind::WhiteSpace, text: s@ },
            Token::Comment(s) => Lexeme { kind: TokenKind::Comment, text: s@ },
            Token::String(s) => Lexeme { kind: TokenKind::String, text: s@ },
            Token::Char(s) => Lexeme { kind: TokenKind::Char, text: s@ },
            Token::Number(s) => Lexeme { kind: TokenKind::Number, text: s@ },
            Token::Operator(s) => Lexeme { kind: TokenKind::Operator, text: s@ },
            Token::Identifier(s) => Lexeme { kind: TokenKind::Identifier, text: s@ },
        }
    }
}

impl Clone for Token {
    fn clone(&self) -> (t: Token)
        ensures
            t@ == self@,
    {
        Token::new(self.kind(), self.text().clone())
    }
}

impl Lexeme {
    /// Whether this is the operator spelled with the one character `c`.
    pub open spec fn is_operator(self, c: char) -> bool {
        self.kind == TokenKind::Operator && self.text == seq![c]
    }

    /// Whether this is the identifier spelled `word`.
    pub open spec fn is_identifier(self, word: Seq<char>) -> bool {
        self.kind == TokenKind::Identifier && self.text == word
    }
}

impl DeepView for Token {
    type V = Lexeme;

    open spec fn deep_view(&self) -> Lexeme {
        self@
    }
}

impl Token {
    /// A token of the given kind that covers `text`.
    pub fn new(kind: TokenKind, text: String) -> (t: Token)
        ensures
            t@ == (Lexeme { kind, text: text@ }),
    {
        match kind {
            TokenKind::Unknown => Token::Unknown(text),
            TokenKind::LineContinuation => Token::LineContinuation(text),
            TokenKind::NewLine => Token::NewLine(text),
            TokenKind::WhiteSpace => Token::WhiteSpace(text),
            TokenKind::Comment => Token::Comment(text),
            TokenKind::String => Token::String(text),
            TokenKind::Char => Token::Char(text),
            TokenKind::Number => Token::Number(text),
            TokenKind::Operator => Token::Operator(text),
            TokenKind::Identifier => Token::Identifier(text),
        }
    }

    /// The kind of this token.
    pub fn kind(&self) -> (k: TokenKind)
        ensures
            k == self@.kind,
    {
        match self {
            Token::Unknown(_) => TokenKind::Unknown,
            Token::LineContinuation(_) => TokenKind::LineContinuation,
            Token::NewLine(_) => TokenKind::NewLine,
            Token::WhiteSpace(_) => TokenKind::WhiteSpace,
            Token::Comment(_) => TokenKind::Comment,
            Token::String(_) => TokenKind::String,
            Token::Char(_) => TokenKind::Char,
            Token::Number(_) => TokenKind::Number,
            Token::Operator(_) => TokenKind::Operator,
            Token::Identifier(_) => TokenKind::Identifier,
        }
    }

    /// Whether this is the operator spelled with the one character `c`.
    pub fn is_operator(&self, c: char) -> (b: bool)
        ensures
            b == self@.is_operator(c),
    {
        match self {
            Token::Operator(s) => {
                let t = s.as_str();
                let b = t.unicode_len() == 1 && t.get_char(0) == c;
                proof {
                    if b {
                        assert(s@ =~= seq![c]);
                    }
                }
                b
            },
            _ => false,
        }
    }

    /// Whether this is the identifier spelled `word`.
    pub fn is_identifier(&self, word: &str) -> (b: bool)
        ensures
            b == self@.is_identifier(word@),
    {
        match self {
            Token::Identifier(s) => crate::text::same_text(s.as_str(), word),
            _ => false,
        }
    }

    /// The text this token was read from.
    pub fn text(&self) -> (s: &String)
        ensures
            s@ == self@.text,
    {
        match self {
            Token::Unknown(s) => s,
            Token::LineContinuation(s) => s,
            Token::NewLine(s) => s,
            Token::WhiteSpace(s) => s,
            Token::Comment(s) => s,
            Token::String(s) => s,
            Token::Char(s) => s,
            Token::Number(s) => s,
            Token::Operator(s) => s,
            Token::Identifier(s) => s,
        }
    }
}


/// A class of characters that a token is a run of.
#[derive(Clone, Copy, Debug, PartialEq, Eq, Structural)]
pub enum CharClass {
    /// Space and tab.
    Blank,
    /// The decimal digits.
    Digit,
    /// Letters, digits and the underscore.
    Word,
}

/// Whether `c` is a space or a tab.
pub open spec fn is_blank(c: char) -> bool {
    c == ' ' || c == '\t'
}

/// Whether `c` is a line feed or a carriage return.
pub open spec fn is_line_end(c: char) -> bool {
    c == '\n' || c == '\r'
}

/// Whether `c` is a decimal digit.
pub open spec fn is_digit(c: char) -> bool {
    '0' <= c <= '9'
}

/// Whether `c` can start an identifier: a letter or the underscore.
pub open spec fn is_word_start(c: char) -> bool {
    ('a' <= c <= 'z') || ('A' <= c <= 'Z') || c == '_'
}

/// Whether `c` can stand in an identifier: a letter, a digit or the
/// underscore.
pub open spec fn is_word_char(c: char) -> bool {
    is_word_start(c) || is_digit(c)
}

/// The characters that are operators or punctuators on their own.
pub open spec fn is_punctuator(c: char) -> bool {
    c == '#' || c == '!' || c == '~' || c == '%' || c == '^' || c == '&' || c == '*' || c == '('
        || c == ')' || c == '[' || c == ']' || c == '{' || c == '}' || c == '+' || c == '-' || c
        == '=' || c == '/' || c == ':' || c == ';' || c == '<' || c == '>' || c == '?' || c == ','
        || c == '.' || c == '|'
}

impl CharClass {
    /// Whether `c` belongs to this class.
    pub open spec fn has(self, c: char) -> bool {
        match self {
            CharClass::Blank => is_blank(c),
            CharClass::Digit => is_digit(c),
            CharClass::Word => is_word_char(c),
        }
    }

    /// Whether `c` belongs to this class.
    pub fn contains(self, c: char) -> (b: bool)
        ensures
            b == self.has(c),
    {
        match self {
            CharClass::Blank => c == ' ' || c == '\t',
            CharClass::Digit => '0' <= c && c <= '9',
            CharClass::Word => {
                ('a' <= c && c <= 'z') || ('A' <= c && c <= 'Z') || c == '_'
                    || ('0' <= c && c <= '9')
            },
        }
    }
}

/// Whether `s` has the character `c` at index `i`.
pub open spec fn has_at(s: Seq<char>, i: int, c: char) -> bool {
    0 <= i < s.len() && s[i] == c
}

/// How many characters of `class` stand at the start of `s`.
pub open spec fn run_len(s: Seq<char>, class: CharClass) -> nat
    decreases s.len(),
{
    if s.len() > 0 && class.has(s[0]) {
        1 + run_len(s.skip(1), class)
    } else {
        0
    }
}

/// The length of the line ending at the start of `s`: two characters where a
/// carriage return and a line feed stand together, in either order.
pub open spec fn line_end_len(s: Seq<char>) -> nat {
    if s.len() >= 2 && is_line_end(s[1]) && s[1] != s[0] {
        2
    } else {
        1
    }
}

/// Whether `s` starts with a backslash and a line-ending character.
pub open spec fn starts_with_continuation(s: Seq<char>) -> bool {
    s.len() >= 2 && s[0] == '\\' && is_line_end(s[1])
}

/// How far a single-line comment runs: through the first line-ending character
/// that no backslash stands before, or to the end of the text.
pub open spec fn line_comment_len(s: Seq<char>) -> nat
    decreases s.len(),
{
    if s.len() == 0 {
        0
    } else if starts_with_continuation(s) {
        2 + line_comment_len(s.skip(2))
    } else if is_line_end(s[0]) {
        1
    } else {
        1 + line_comment_len(s.skip(1))
    }
}

/// How far a multi-line comment runs: through the first `*/`, or to the end of
/// the text.
pub open spec fn block_comment_len(s: Seq<char>) -> nat
    decreases s.len(),
{
    if s.len() == 0 {
        0
    } else if has_at(s, 0, '*') && has_at(s, 1, '/') {
        2
    } else {
        1 + block_comment_len(s.skip(1))
    }
}

/// How far the body of a literal runs after its opening `quote`: through the
/// first `quote` that is not part of a backslash-quote pair, or to the end of
/// the text.
pub open spec fn quoted_len(s: Seq<char>, quote: char) -> nat
    decreases s.len(),
{
    if s.len() == 0 {
        0
    } else if has_at(s, 0, '\\') && has_at(s, 1, quote) {
        2 + quoted_len(s.skip(2), quote)
    } else if s[0] == quote {
        1
    } else {
        1 + quoted_len(s.skip(1), quote)
    }
}

/// The length of the exponent at the start of `s`: `e` or `E`, an optional
/// sign, and digits; zero where `s` starts with neither letter.
pub open spec fn exponent_len(s: Seq<char>) -> nat {
    if has_at(s, 0, 'e') || has_at(s, 0, 'E') {
        let sign: nat = if has_at(s, 1, '-') || has_at(s, 1, '+') {
            1
        } else {
            0
        };
        1 + sign + run_len(s.skip((1 + sign) as int), CharClass::Digit)
    } else {
        0
    }
}

/// The length of the numeric literal at the start of `s`: digits, an optional
/// dot, digits, and an optional exponent.
pub open spec fn number_len(s: Seq<char>) -> nat {
    let whole = run_len(s, CharClass::Digit);
    let dot: nat = if has_at(s, whole as int, '.') {
        1
    } else {
        0
    };
    let fraction = run_len(s.skip((whole + dot) as int), CharClass::Digit);
    whole + dot + fraction + exponent_len(s.skip((whole + dot + fraction) as int))
}

/// Whether a numeric literal starts `s`: a digit, or a dot before a digit.
pub open spec fn starts_number(s: Seq<char>) -> bool {
    s.len() > 0 && (is_digit(s[0]) || (s[0] == '.' && s.len() >= 2 && is_digit(s[1])))
}

/// The kind of the token at the start of the non-empty text `s`. The
/// recognizers are tried in a fixed order and the first that matches wins.
pub open spec fn first_kind(s: Seq<char>) -> TokenKind {
    if is_blank(s[0]) {
        TokenKind::WhiteSpace
    } else if starts_with_continuation(s) {
        TokenKind::LineContinuation
    } else if is_line_end(s[0]) {
        TokenKind::NewLine
    } else if s[0] == '/' && (has_at(s, 1, '/') || has_at(s, 1, '*')) {
        TokenKind::Comment
    } else if s[0] == '"' {
        TokenKind::String
    } else if s[0] == '\'' {
        TokenKind::Char
    } else if starts_number(s) {
        TokenKind::Number
    } else if is_word_start(s[0]) {
        TokenKind::Identifier
    } else if is_punctuator(s[0]) {
        TokenKind::Operator
    } else {
        TokenKind::Unknown
    }
}

/// The length of the token at the start of the non-empty text `s`.
pub open spec fn first_len(s: Seq<char>) -> nat {
    match first_kind(s) {
        TokenKind::WhiteSpace => run_len(s, CharClass::Blank),
        TokenKind::LineContinuation => 1 + line_end_len(s.skip(1)),
        TokenKind::NewLine => line_end_len(s),
        TokenKind::Comment => if has_at(s, 1, '/') {
            line_comment_len(s)
        } else {
            block_comment_len(s)
        },
        TokenKind::String => 1 + quoted_len(s.skip(1), '"'),
        TokenKind::Char => 1 + quoted_len(s.skip(1), '\''),
        TokenKind::Number => number_len(s),
        TokenKind::Identifier => run_len(s, CharClass::Word),
        TokenKind::Operator => 1,
        TokenKind::Unknown => 1,
    }
}

/// The token at the start of the non-empty text `s`.
pub open spec fn first_lexeme(s: Seq<char>) -> Lexeme {
    Lexeme { kind: first_kind(s), text: s.take(first_len(s) as int) }
}

/// The tokens of `s`: the token at its start, then the tokens of what follows.
pub open spec fn lex(s: Seq<char>) -> Seq<Lexeme>
    decreases s.len(),
    via lex_decreases
{
    if s.len() == 0 {
        Seq::empty()
    } else {
        seq![first_lexeme(s)] + lex(s.skip(first_len(s) as int))
    }
}

#[via_fn]
proof fn lex_decreases(s: Seq<char>) {
    if s.len() > 0 {
        lemma_first_len_bounds(s);
    }
}

/// The text that a sequence of tokens covers: their texts, joined in order.
pub open spec fn joined_text(tokens: Seq<Lexeme>) -> Seq<char> {
    tokens.map_values(|t: Lexeme| t.text).flatten()
}

/// A run is no longer than the text.
pub proof fn lemma_run_len_bound(s: Seq<char>, class: CharClass)
    ensures
        run_len(s, class) <= s.len(),
    decreases s.len(),
{
    if s.len() > 0 && class.has(s[0]) {
        lemma_run_len_bound(s.skip(1), class);
    }
}

/// A single-line comment is no longer than the text, and not empty where
/// the text is not.
pub proof fn lemma_line_comment_len_bound(s: Seq<char>)
    ensures
        line_comment_len(s) <= s.len(),
        s.len() > 0 ==> line_comment_len(s) >= 1,
    decreases s.len(),
{
    if s.len() == 0 {
    } else if starts_with_continuation(s) {
        lemma_line_comment_len_bound(s.skip(2));
    } else if is_line_end(s[0]) {
    } else {
        lemma_line_comment_len_bound(s.skip(1));
    }
}

/// A multi-line comment is no longer than the text, and not empty where the
/// text is not.
pub proof fn lemma_block_comment_len_bound(s: Seq<char>)
    ensures
        block_comment_len(s) <= s.len(),
        s.len() > 0 ==> block_comment_len(s) >= 1,
    decreases s.len(),
{
    if s.len() == 0 {
    } else if has_at(s, 0, '*') && has_at(s, 1, '/') {
    } else {
        lemma_block_comment_len_bound(s.skip(1));
    }
}

/// The body of a literal is no longer than the text.
pub proof fn lemma_quoted_len_bound(s: Seq<char>, quote: char)
    ensures
        quoted_len(s, quote) <= s.len(),
    decreases s.len(),
{
    if s.len() == 0 {
    } else if has_at(s, 0, '\\') && has_at(s, 1, quote) {
        lemma_quoted_len_bound(s.skip(2), quote);
    } else if s[0] == quote {
    } else {
        lemma_quoted_len_bound(s.skip(1), quote);
    }
}

/// An exponent is no longer than the text.
pub proof fn lemma_exponent_len_bound(s: Seq<char>)
    ensures
        exponent_len(s) <= s.len(),
{
    if has_at(s, 0, 'e') || has_at(s, 0, 'E') {
        let sign: nat = if has_at(s, 1, '-') || has_at(s, 1, '+') {
            1
        } else {
            0
        };
        lemma_run_len_bound(s.skip((1 + sign) as int), CharClass::Digit);
    }
}

/// A numeric literal is not empty, and no longer than the text.
pub proof fn lemma_number_len_bounds(s: Seq<char>)
    requires
        starts_number(s),
    ensures
        1 <= number_len(s) <= s.len(),
{
    let whole = run_len(s, CharClass::Digit);
    lemma_run_len_bound(s, CharClass::Digit);
    let dot: nat = if has_at(s, whole as int, '.') {
        1
    } else {
        0
    };
    let fraction = run_len(s.skip((whole + dot) as int), CharClass::Digit);
    lemma_run_len_bound(s.skip((whole + dot) as int), CharClass::Digit);
    lemma_exponent_len_bound(s.skip((whole + dot + fraction) as int));
}

/// Every token covers at least one character and no more than there are.
pub proof fn lemma_first_len_bounds(s: Seq<char>)
    requires
        s.len() > 0,
    ensures
        1 <= first_len(s) <= s.len(),
{
    match first_kind(s) {
        TokenKind::WhiteSpace => {
            lemma_run_len_bound(s, CharClass::Blank);
        },
        TokenKind::LineContinuation => {},
        TokenKind::NewLine => {},
        TokenKind::Comment => {
            lemma_line_comment_len_bound(s);
            lemma_block_comment_len_bound(s);
        },
        TokenKind::String => {
            lemma_quoted_len_bound(s.skip(1), '"');
        },
        TokenKind::Char => {
            lemma_quoted_len_bound(s.skip(1), '\'');
        },
        TokenKind::Number => {
            lemma_number_len_bounds(s);
        },
        TokenKind::Identifier => {
            lemma_run_len_bound(s, CharClass::Word);
        },
        TokenKind::Operator => {},
        TokenKind::Unknown => {},
    }
}


/// Joining the tokens of a text gives the text back.
pub proof fn lemma_lex_covers(s: Seq<char>)
    ensures
        joined_text(lex(s)) == s,
    decreases s.len(),
{
    let texts = lex(s).map_values(|t: Lexeme| t.text);
    if s.len() == 0 {
        assert(texts =~= Seq::<Seq<char>>::empty());
        assert(joined_text(lex(s)) =~= s);
    } else {
        lemma_first_len_bounds(s);
        let n = first_len(s) as int;
        lemma_lex_covers(s.skip(n));
        assert(texts.first() == s.take(n));
        assert(texts.drop_first() =~= lex(s.skip(n)).map_values(|t: Lexeme| t.text));
        assert(s.take(n) + s.skip(n) =~= s);
    }
}

/// A run holds characters of its class only, and ends where the text ends or
/// a character of another class stands.
pub proof fn lemma_run_is_maximal(s: Seq<char>, class: CharClass)
    ensures
        forall|j: int| 0 <= j < run_len(s, class) ==> class.has(#[trigger] s[j]),
        run_len(s, class) == s.len() || !class.has(s[run_len(s, class) as int]),
    decreases s.len(),
{
    if s.len() > 0 && class.has(s[0]) {
        let rest = s.skip(1);
        lemma_run_is_maximal(rest, class);
        lemma_run_len_bound(rest, class);
        assert forall|j: int| 0 <= j < run_len(s, class) implies class.has(#[trigger] s[j]) by {
            if j > 0 {
                assert(s[j] == rest[j - 1]);
            }
        }
        if run_len(rest, class) < rest.len() {
            assert(s[run_len(s, class) as int] == rest[run_len(rest, class) as int]);
        }
    }
}

/// The body of a literal that ends before the text does ends with the quote.
pub proof fn lemma_quoted_is_closed(s: Seq<char>, quote: char)
    requires
        quoted_len(s, quote) < s.len(),
    ensures
        quoted_len(s, quote) >= 1,
        s[quoted_len(s, quote) - 1] == quote,
    decreases s.len(),
{
    if s.len() == 0 {
    } else if has_at(s, 0, '\\') && has_at(s, 1, quote) {
        lemma_quoted_is_closed(s.skip(2), quote);
    } else if s[0] == quote {
    } else {
        lemma_quoted_is_closed(s.skip(1), quote);
    }
}

/// A string literal that is not the last token is closed: it has at least
/// two characters, and the first and the last are the double quote.
pub proof fn lemma_string_is_closed(s: Seq<char>)
    requires
        s.len() > 0,
        first_kind(s) == TokenKind::String,
        first_len(s) < s.len(),
    ensures
        first_lexeme(s).text.len() >= 2,
        first_lexeme(s).text.first() == '"',
        first_lexeme(s).text.last() == '"',
{
    lemma_quoted_is_closed(s.skip(1), '"');
}

/// No token is empty.
pub proof fn lemma_lex_texts_not_empty(s: Seq<char>, i: int)
    requires
        0 <= i < lex(s).len(),
    ensures
        lex(s)[i].text.len() >= 1,
    decreases s.len(),
{
    lemma_first_len_bounds(s);
    if i > 0 {
        lemma_lex_texts_not_empty(s.skip(first_len(s) as int), i - 1);
    }
}

/// Whether `c` is a line-ending character.
pub fn is_line_end_char(c: char) -> (b: bool)
    ensures
        b == is_line_end(c),
{
    c == '\n' || c == '\r'
}

/// Whether `c` is an operator or punctuator on its own.
pub fn is_punctuator_char(c: char) -> (b: bool)
    ensures
        b == is_punctuator(c),
{
    c == '#' || c == '!' || c == '~' || c == '%' || c == '^' || c == '&' || c == '*' || c == '('
        || c == ')' || c == '[' || c == ']' || c == '{' || c == '}' || c == '+' || c == '-' || c
        == '=' || c == '/' || c == ':' || c == ';' || c == '<' || c == '>' || c == '?' || c == ','
        || c == '.' || c == '|'
}

/// Whether `s` holds the character `c` at index `i`.
pub fn char_at(s: &Vec<char>, i: usize, c: char) -> (b: bool)
    ensures
        b == has_at(s@, i as int, c),
{
    i < s.len() && s[i] == c
}

/// Counts the characters of `class` that stand in `s` from `start` on.
pub fn read_run(s: &Vec<char>, start: usize, class: CharClass) -> (n: usize)
    requires
        start <= s.len(),
    ensures
        n == run_len(s@.skip(start as int), class),
        start + n <= s.len(),
{
    let mut i: usize = start;
    while i < s.len() && class.contains(s[i])
        invariant
            start <= i <= s.len(),
            run_len(s@.skip(start as int), class) == (i - start) + run_len(
                s@.skip(i as int),
                class,
            ),
        decreases s.len() - i,
    {
        proof {
            assert(s@.skip(i as int).skip(1) =~= s@.skip(i + 1));
        }
        i += 1;
    }
    i - start
}

/// Measures the run of spaces and tabs that stands in `s` at `start`.
pub fn read_whitespace(s: &Vec<char>, start: usize) -> (n: usize)
    requires
        start <= s.len(),
    ensures
        n == run_len(s@.skip(start as int), CharClass::Blank),
        start + n <= s.len(),
{
    read_run(s, start, CharClass::Blank)
}

/// Measures the run of decimal digits that stands in `s` at `start`.
pub fn read_unsigned_int(s: &Vec<char>, start: usize) -> (n: usize)
    requires
        start <= s.len(),
    ensures
        n == run_len(s@.skip(start as int), CharClass::Digit),
        start + n <= s.len(),
{
    read_run(s, start, CharClass::Digit)
}

/// Measures the line ending that stands in `s` at `start`.
pub fn read_line_end(s: &Vec<char>, start: usize) -> (n: usize)
    requires
        start < s.len(),
        is_line_end(s[start as int]),
    ensures
        n == line_end_len(s@.skip(start as int)),
        start + n <= s.len(),
{
    if start + 1 < s.len() && is_line_end_char(s[start + 1]) && s[start + 1] != s[start] {
        2
    } else {
        1
    }
}

/// Measures the single-line comment that stands in `s` at `start`.
pub fn read_single_line_comment(s: &Vec<char>, start: usize) -> (n: usize)
    requires
        start <= s.len(),
    ensures
        n == line_comment_len(s@.skip(start as int)),
        start + n <= s.len(),
{
    let mut i: usize = start;
    let mut open = true;
    while open && i < s.len()
        invariant
            start <= i <= s.len(),
            line_comment_len(s@.skip(start as int)) == (i - start) + (if open {
                line_comment_len(s@.skip(i as int))
            } else {
                0
            }),
        decreases s.len() - i,
    {
        if s[i] == '\\' && i + 1 < s.len() && is_line_end_char(s[i + 1]) {
            proof {
                assert(s@.skip(i as int).skip(2) =~= s@.skip(i + 2));
            }
            i += 2;
        } else if is_line_end_char(s[i]) {
            i += 1;
            open = false;
        } else {
            proof {
                assert(s@.skip(i as int).skip(1) =~= s@.skip(i + 1));
            }
            i += 1;
        }
    }
    i - start
}

/// Measures the multi-line comment that stands in `s` at `start`.
pub fn read_multi_line_comment(s: &Vec<char>, start: usize) -> (n: usize)
    requires
        start <= s.len(),
    ensures
        n == block_comment_len(s@.skip(start as int)),
        start + n <= s.len(),
{
    let mut i: usize = start;
    let mut open = true;
    while open && i < s.len()
        invariant
            start <= i <= s.len(),
            block_comment_len(s@.skip(start as int)) == (i - start) + (if open {
                block_comment_len(s@.skip(i as int))
            } else {
                0
            }),
        decreases s.len() - i,
    {
        if s[i] == '*' && i + 1 < s.len() && s[i + 1] == '/' {
            i += 2;
            open = false;
        } else {
            proof {
                assert(s@.skip(i as int).skip(1) =~= s@.skip(i + 1));
            }
            i += 1;
        }
    }
    i - start
}

/// Measures the body of a literal that stands in `s` at `start`, after its
/// opening quote, closing quote included.
pub fn read_quoted(s: &Vec<char>, start: usize, quote: char) -> (n: usize)
    requires
        start <= s.len(),
    ensures
        n == quoted_len(s@.skip(start as int), quote),
        start + n <= s.len(),
{
    let mut i: usize = start;
    let mut open = true;
    while open && i < s.len()
        invariant
            start <= i <= s.len(),
            quoted_len(s@.skip(start as int), quote) == (i - start) + (if open {
                quoted_len(s@.skip(i as int), quote)
            } else {
                0
            }),
        decreases s.len() - i,
    {
        if s[i] == '\\' && i + 1 < s.len() && s[i + 1] == quote {
            proof {
                assert(s@.skip(i as int).skip(2) =~= s@.skip(i + 2));
            }
            i += 2;
        } else if s[i] == quote {
            i += 1;
            open = false;
        } else {
            proof {
                assert(s@.skip(i as int).skip(1) =~= s@.skip(i + 1));
            }
            i += 1;
        }
    }
    i - start
}

/// Measures the string literal that stands in `s` at `start`, quotes included.
pub fn read_string(s: &Vec<char>, start: usize) -> (n: usize)
    requires
        start < s.len(),
    ensures
        n == 1 + quoted_len(s@.skip(start as int).skip(1), '"'),
        start + n <= s.len(),
{
    proof {
        assert(s@.skip(start as int).skip(1) =~= s@.skip(start + 1));
    }
    1 + read_quoted(s, start + 1, '"')
}

/// Measures the character literal that stands in `s` at `start`, quotes
/// included.
pub fn read_char(s: &Vec<char>, start: usize) -> (n: usize)
    requires
        start < s.len(),
    ensures
        n == 1 + quoted_len(s@.skip(start as int).skip(1), '\''),
        start + n <= s.len(),
{
    proof {
        assert(s@.skip(start as int).skip(1) =~= s@.skip(start + 1));
    }
    1 + read_quoted(s, start + 1, '\'')
}

/// Measures the exponent that stands in `s` at `start`, if one does.
pub fn read_exponent(s: &Vec<char>, start: usize) -> (n: usize)
    requires
        start <= s.len(),
    ensures
        n == exponent_len(s@.skip(start as int)),
        start + n <= s.len(),
{
    if char_at(s, start, 'e') || char_at(s, start, 'E') {
        let sign: usize = if start + 1 < s.len() && (s[start + 1] == '-' || s[start + 1] == '+') {
            1
        } else {
            0
        };
        proof {
            assert(s@.skip(start as int).skip((1 + sign) as int) =~= s@.skip(start + 1 + sign));
        }
        1 + sign + read_unsigned_int(s, start + 1 + sign)
    } else {
        0
    }
}

/// Measures the numeric literal that stands in `s` at `start`.
pub fn read_number(s: &Vec<char>, start: usize) -> (n: usize)
    requires
        start <= s.len(),
    ensures
        n == number_len(s@.skip(start as int)),
        start + n <= s.len(),
{
    let whole = read_unsigned_int(s, start);
    let dot: usize = if char_at(s, start + whole, '.') {
        1
    } else {
        0
    };
    proof {
        assert(s@.skip(start as int).skip((whole + dot) as int) =~= s@.skip(start + whole + dot));
    }
    let fraction = read_unsigned_int(s, start + whole + dot);
    proof {
        assert(s@.skip(start as int).skip((whole + dot + fraction) as int) =~= s@.skip(
            start + whole + dot + fraction,
        ));
    }
    let exponent = read_exponent(s, start + whole + dot + fraction);
    whole + dot + fraction + exponent
}

/// Classifies and measures the token that stands in `s` at `start`.
pub fn next_token(s: &Vec<char>, start: usize) -> (r: (TokenKind, usize))
    requires
        start < s.len(),
    ensures
        r.0 == first_kind(s@.skip(start as int)),
        r.1 == first_len(s@.skip(start as int)),
        1 <= r.1,
        start + r.1 <= s.len(),
{
    let ghost rest = s@.skip(start as int);
    proof {
        lemma_first_len_bounds(rest);
    }
    let c = s[start];
    let digit = CharClass::Digit;
    if CharClass::Blank.contains(c) {
        (TokenKind::WhiteSpace, read_whitespace(s, start))
    } else if c == '\\' && start + 1 < s.len() && is_line_end_char(s[start + 1]) {
        proof {
            assert(rest.skip(1) =~= s@.skip(start + 1));
        }
        (TokenKind::LineContinuation, 1 + read_line_end(s, start + 1))
    } else if is_line_end_char(c) {
        (TokenKind::NewLine, read_line_end(s, start))
    } else if c == '/' && char_at(s, start + 1, '/') {
        (TokenKind::Comment, read_single_line_comment(s, start))
    } else if c == '/' && char_at(s, start + 1, '*') {
        (TokenKind::Comment, read_multi_line_comment(s, start))
    } else if c == '"' {
        (TokenKind::String, read_string(s, start))
    } else if c == '\'' {
        (TokenKind::Char, read_char(s, start))
    } else if digit.contains(c)
        || (c == '.' && start + 1 < s.len() && digit.contains(s[start + 1])) {
        (TokenKind::Number, read_number(s, start))
    } else if CharClass::Word.contains(c) {
        (TokenKind::Identifier, read_run(s, start, CharClass::Word))
    } else if is_punctuator_char(c) {
        (TokenKind::Operator, 1)
    } else {
        (TokenKind::Unknown, 1)
    }
}

/// Splits `file_content` into tokens. Every character belongs to exactly one
/// token, so the texts of the tokens, joined in order, are the input.
pub fn tokenize(file_content: &str) -> (tokens: Vec<Token>)
    ensures
        tokens.deep_view() == lex(file_content@),
        joined_text(tokens.deep_view()) == file_content@,
{
    let s = crate::text::chars_of(file_content);
    let mut tokens: Vec<Token> = Vec::new();
    let mut i: usize = 0;
    proof {
        assert(s@.skip(0) =~= s@);
        assert(tokens.deep_view() + lex(s@) =~= lex(s@));
    }
    while i < s.len()
        invariant
            i <= s.len(),
            s@ == file_content@,
            lex(s@) == tokens.deep_view() + lex(s@.skip(i as int)),
        decreases s.len() - i,
    {
        let (kind, n) = next_token(&s, i);
        let text = crate::text::string_of(&s, i, i + n);
        let ghost before = tokens.deep_view();
        tokens.push(Token::new(kind, text));
        proof {
            let rest = s@.skip(i as int);
            assert(rest.take(n as int) =~= s@.subrange(i as int, i + n));
            assert(rest.skip(n as int) =~= s@.skip(i + n));
            assert(tokens.deep_view() =~= before.push(first_lexeme(rest)));
            assert(before + (seq![first_lexeme(rest)] + lex(rest.skip(n as int)))
                =~= before.push(first_lexeme(rest)) + lex(rest.skip(n as int)));
        }
        i += n;
    }
    proof {
        assert(tokens.deep_view() + Seq::<Lexeme>::empty() =~= tokens.deep_view());
        lemma_lex_covers(file_content@);
    }
    tokens
}

} // verus!
