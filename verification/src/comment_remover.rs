//! Deleting the comments of a source text.
use crate::tokenizer::{
    exponent_len, first_kind, first_len, first_lexeme, has_at, is_digit, lemma_first_len_bounds,
    lemma_run_is_maximal, lemma_run_len_bound, lex, number_len, quoted_len, run_len, tokenize, CharClass, Lexeme,
    TokenKind,
};
use vstd::prelude::*;

verus! {

/// The texts of the tokens that are no comments, joined in order.
pub open spec fn uncommented(tokens: Seq<Lexeme>) -> Seq<char>
    decreases tokens.len(),
{
    if tokens.len() == 0 {
        Seq::empty()
    } else if tokens.first().kind == TokenKind::Comment {
        uncommented(tokens.drop_first())
    } else {
        tokens.first().text + uncommented(tokens.drop_first())
    }
}

/// `text` without its comments: what its other tokens cover, unchanged.
pub open spec fn comments_removed(text: Seq<char>) -> Seq<char> {
    uncommented(lex(text))
}

/// Removes the comments from `file_content` and leaves everything else as
/// it is. A single-line comment goes with the line ending that closes it.
pub fn remove_comments(file_content: &str) -> (result: String)
    ensures
        result@ == comments_removed(file_content@),
{
    let tokens = tokenize(file_content);
    let mut result = String::new();
    let ghost all = tokens.deep_view();
    proof {
        assert(all.skip(0) =~= all);
        assert(result@ + uncommented(all) =~= uncommented(all));
    }
    let mut i: usize = 0;
    while i < tokens.len()
        invariant
            i <= tokens.len(),
            all == tokens.deep_view(),
            uncommented(all) == result@ + uncommented(all.skip(i as int)),
        decreases tokens.len() - i,
    {
        let token = &tokens[i];
        let ghost before = result@;
        proof {
            assert(all.skip(i as int).first() == token@);
            assert(all.skip(i as int).drop_first() =~= all.skip(i + 1));
        }
        if token.kind() != TokenKind::Comment {
            result.append(token.text().as_str());
            proof {
                let rest = uncommented(all.skip(i + 1));
                assert(before + (token@.text + rest) =~= (before + token@.text) + rest);
            }
        }
        i += 1;
    }
    proof {
        assert(result@ + Seq::<char>::empty() =~= result@);
    }
    result
}


/// Whether a token of kind `kind` can neither be nor hide a comment.
spec fn is_plain(kind: TokenKind) -> bool {
    kind != TokenKind::Comment && kind != TokenKind::String && kind != TokenKind::Char
}

/// Whether `c` starts neither a comment nor a literal.
spec fn is_neutral(c: char) -> bool {
    c != '/' && c != '"' && c != '\''
}

/// `s` without its comments, read character by character: comments are
/// dropped, literals are kept whole, and every other character is kept.
spec fn stripped(s: Seq<char>) -> Seq<char>
    decreases s.len(),
    via stripped_decreases
{
    if s.len() == 0 {
        Seq::empty()
    } else if first_kind(s) == TokenKind::Comment {
        stripped(s.skip(first_len(s) as int))
    } else if !is_plain(first_kind(s)) {
        s.take(first_len(s) as int) + stripped(s.skip(first_len(s) as int))
    } else {
        seq![s[0]] + stripped(s.skip(1))
    }
}

#[via_fn]
proof fn stripped_decreases(s: Seq<char>) {
    if s.len() > 0 {
        lemma_first_len_bounds(s);
    }
}

/// The characters of a run belong to its class.
proof fn lemma_run_chars(s: Seq<char>, class: CharClass, j: int)
    requires
        0 <= j < run_len(s, class),
    ensures
        j < s.len(),
        class.has(s[j]),
{
    lemma_run_is_maximal(s, class);
    lemma_run_len_bound(s, class);
}

/// Whether `c` can stand in a numeric literal.
spec fn is_number_char(c: char) -> bool {
    is_digit(c) || c == '.' || c == 'e' || c == 'E' || c == '+' || c == '-'
}

/// An exponent holds characters of numbers only.
proof fn lemma_exponent_chars(s: Seq<char>, j: int)
    requires
        0 <= j < exponent_len(s),
    ensures
        j < s.len(),
        is_number_char(s[j]),
{
    let sign: nat = if has_at(s, 1, '-') || has_at(s, 1, '+') {
        1
    } else {
        0
    };
    if j >= 1 + sign {
        lemma_run_chars(s.skip((1 + sign) as int), CharClass::Digit, j - 1 - sign);
    }
}

/// A numeric literal holds characters of numbers only.
proof fn lemma_number_chars(s: Seq<char>, j: int)
    requires
        0 <= j < number_len(s),
    ensures
        j < s.len(),
        is_number_char(s[j]),
{
    let whole = run_len(s, CharClass::Digit);
    lemma_run_len_bound(s, CharClass::Digit);
    let dot: nat = if has_at(s, whole as int, '.') {
        1
    } else {
        0
    };
    let fraction = run_len(s.skip((whole + dot) as int), CharClass::Digit);
    lemma_run_len_bound(s.skip((whole + dot) as int), CharClass::Digit);
    if j < whole {
        lemma_run_chars(s, CharClass::Digit, j);
    } else if j < whole + dot {
    } else if j < whole + dot + fraction {
        lemma_run_chars(s.skip((whole + dot) as int), CharClass::Digit, j - whole - dot);
    } else {
        lemma_exponent_chars(s.skip((whole + dot + fraction) as int), j - whole - dot - fraction);
    }
}

/// Behind its first character, a token that is neither a comment nor a
/// literal holds no character that starts one.
proof fn lemma_plain_token_chars(s: Seq<char>, j: int)
    requires
        s.len() > 0,
        is_plain(first_kind(s)),
        1 <= j < first_len(s),
    ensures
        j < s.len(),
        is_neutral(s[j]),
{
    lemma_first_len_bounds(s);
    match first_kind(s) {
        TokenKind::WhiteSpace => {
            lemma_run_chars(s, CharClass::Blank, j);
        },
        TokenKind::Number => {
            lemma_number_chars(s, j);
        },
        TokenKind::Identifier => {
            lemma_run_chars(s, CharClass::Word, j);
        },
        _ => {},
    }
}

/// Where every character of the first `n` starts a token that is neither a
/// comment nor a literal, those characters are kept as they are.
proof fn lemma_stripped_plain_run(s: Seq<char>, n: int)
    requires
        0 <= n <= s.len(),
        forall|j: int| 0 <= j < n ==> is_plain(first_kind(#[trigger] s.skip(j))),
    ensures
        stripped(s) == s.take(n) + stripped(s.skip(n)),
    decreases n,
{
    if n == 0 {
        assert(s.skip(0) =~= s);
        assert(s.take(0) + stripped(s) =~= stripped(s));
    } else {
        assert(s.skip(0) =~= s);
        assert(is_plain(first_kind(s.skip(0))));
        let t = s.skip(1);
        assert forall|j: int| 0 <= j < n - 1 implies is_plain(first_kind(#[trigger] t.skip(j))) by {
            assert(t.skip(j) =~= s.skip(j + 1));
        }
        lemma_stripped_plain_run(t, n - 1);
        assert(t.skip(n - 1) =~= s.skip(n));
        assert(seq![s[0]] + (t.take(n - 1) + stripped(s.skip(n))) =~= s.take(n) + stripped(
            s.skip(n),
        ));
    }
}

/// Dropping the comment tokens and dropping the comments character by
/// character give the same text.
proof fn lemma_uncommented_is_stripped(s: Seq<char>)
    ensures
        uncommented(lex(s)) == stripped(s),
    decreases s.len(),
{
    if s.len() > 0 {
        lemma_first_len_bounds(s);
        let n = first_len(s) as int;
        lemma_uncommented_is_stripped(s.skip(n));
        assert(lex(s).first() == first_lexeme(s));
        assert(lex(s).drop_first() =~= lex(s.skip(n)));
        if is_plain(first_kind(s)) {
            assert forall|j: int| 0 <= j < n implies is_plain(first_kind(#[trigger] s.skip(j))) by {
                if j == 0 {
                    assert(s.skip(0) =~= s);
                } else {
                    lemma_plain_token_chars(s, j);
                    assert(s.skip(j)[0] == s[j]);
                }
            }
            lemma_stripped_plain_run(s, n);
        }
    }
}

/// Where a literal closes before the text ends, its length depends on
/// nothing behind its closing quote.
proof fn lemma_quoted_prefix(x: Seq<char>, y: Seq<char>, quote: char, m: int)
    requires
        quote != '\\',
        quoted_len(x, quote) == m,
        m < x.len(),
        m <= y.len(),
        y.take(m) == x.take(m),
    ensures
        quoted_len(y, quote) == m,
    decreases x.len(),
{
    if x.len() == 0 {
    } else {
        assert(m >= 1);
        assert(y.take(m)[0] == y[0] && x.take(m)[0] == x[0]);
        if has_at(x, 0, '\\') && has_at(x, 1, quote) {
            assert(y.take(m)[1] == y[1] && x.take(m)[1] == x[1]);
            assert(y.skip(2).take(m - 2) =~= y.take(m).skip(2));
            assert(x.skip(2).take(m - 2) =~= x.take(m).skip(2));
            lemma_quoted_prefix(x.skip(2), y.skip(2), quote, m - 2);
        } else if x[0] == quote {
        } else {
            assert(m >= 2) by {
                if x.skip(1).len() > 0 {
                    assert(quoted_len(x.skip(1), quote) >= 1);
                }
            }
            assert(y.take(m)[1] == y[1] && x.take(m)[1] == x[1]);
            assert(y.skip(1).take(m - 1) =~= y.take(m).skip(1));
            assert(x.skip(1).take(m - 1) =~= x.take(m).skip(1));
            lemma_quoted_prefix(x.skip(1), y.skip(1), quote, m - 1);
        }
    }
}

/// What is left of a text that starts with no comment starts with the same
/// character.
proof fn lemma_stripped_head(x: Seq<char>)
    requires
        x.len() > 0,
        first_kind(x) != TokenKind::Comment,
    ensures
        stripped(x).len() > 0,
        stripped(x)[0] == x[0],
{
    lemma_first_len_bounds(x);
}

/// A text without its comments holds no comment.
proof fn lemma_stripped_idempotent(s: Seq<char>)
    ensures
        stripped(stripped(s)) == stripped(s),
    decreases s.len(),
{
    if s.len() == 0 {
    } else {
        lemma_first_len_bounds(s);
        let n = first_len(s) as int;
        if first_kind(s) == TokenKind::Comment {
            lemma_stripped_idempotent(s.skip(n));
        } else if !is_plain(first_kind(s)) {
            let rest = stripped(s.skip(n));
            let text = s.take(n) + rest;
            let quote = s[0];
            lemma_stripped_idempotent(s.skip(n));
            assert(text[0] == s[0]);
            assert(first_kind(text) == first_kind(s));
            let x = s.skip(1);
            let y = text.skip(1);
            let m = n - 1;
            assert(quoted_len(x, quote) == m);
            if m < x.len() {
                assert(y.take(m) =~= x.take(m));
                lemma_quoted_prefix(x, y, quote, m);
            } else {
                assert(s.skip(n) =~= Seq::<char>::empty());
                assert(y =~= x);
            }
            assert(first_len(text) == n);
            assert(text.take(n) =~= s.take(n));
            assert(text.skip(n) =~= rest);
        } else {
            let rest = stripped(s.skip(1));
            let text = seq![s[0]] + rest;
            lemma_stripped_idempotent(s.skip(1));
            if s.len() >= 2 && first_kind(s.skip(1)) != TokenKind::Comment {
                lemma_stripped_head(s.skip(1));
                assert(text[1] == s[1]);
            }
            if s[0] == '/' {
                if s.len() >= 2 {
                    assert(s.skip(1)[0] == s[1]);
                    assert(first_kind(s.skip(1)) != TokenKind::Comment);
                } else {
                    assert(s.skip(1) =~= Seq::<char>::empty());
                    assert(rest.len() == 0);
                }
            }
            assert(text[0] == s[0]);
            assert(is_plain(first_kind(text)));
            assert(text.skip(1) =~= rest);
        }
    }
}

/// Removing comments twice is removing them once: the first pass leaves no
/// comment behind and creates none.
pub proof fn lemma_remove_comments_idempotent(text: Seq<char>)
    ensures
        comments_removed(comments_removed(text)) == comments_removed(text),
{
    lemma_uncommented_is_stripped(text);
    lemma_uncommented_is_stripped(stripped(text));
    lemma_stripped_idempotent(text);
}


/// Whether a comment stands among `tokens`.
pub open spec fn has_comment(tokens: Seq<Lexeme>) -> bool {
    exists|i: int| 0 <= i < tokens.len() && (#[trigger] tokens[i]).kind == TokenKind::Comment
}

/// Dropping comments makes a text no longer, and only a text without
/// comments keeps its length.
proof fn lemma_uncommented_len(s: Seq<char>)
    ensures
        uncommented(lex(s)).len() <= s.len(),
        uncommented(lex(s)).len() == s.len() ==> !has_comment(lex(s)),
    decreases s.len(),
{
    if s.len() > 0 {
        lemma_first_len_bounds(s);
        let n = first_len(s) as int;
        let rest = lex(s.skip(n));
        lemma_uncommented_len(s.skip(n));
        assert(lex(s).first() == first_lexeme(s));
        assert(lex(s).drop_first() =~= rest);
        if uncommented(lex(s)).len() == s.len() {
            assert forall|i: int| 0 <= i < lex(s).len() implies (#[trigger] lex(s)[i]).kind
                != TokenKind::Comment by {
                if i > 0 {
                    assert(lex(s)[i] == rest[i - 1]);
                }
            }
        }
    }
}

/// What is left when the comments are removed holds no comment.
pub proof fn lemma_no_comment_is_left(text: Seq<char>)
    ensures
        !has_comment(lex(comments_removed(text))),
{
    lemma_remove_comments_idempotent(text);
    lemma_uncommented_len(comments_removed(text));
}

} // verus!
