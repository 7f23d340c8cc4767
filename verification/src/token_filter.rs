//! Dropping the tokens that carry no structure.
use crate::tokenizer::{Lexeme, Token, TokenKind};
use vstd::prelude::*;

verus! {

/// Whether a token is layout or commentary: whitespace, a line ending, a line
/// continuation or a comment.
pub open spec fn is_noise(t: Lexeme) -> bool {
    t.kind == TokenKind::WhiteSpace || t.kind == TokenKind::NewLine || t.kind
        == TokenKind::LineContinuation || t.kind == TokenKind::Comment
}

/// What is left of `tokens` without noise and without preprocessor directives.
/// A directive runs from a `#` through the next line ending; `in_directive`
/// says whether `tokens` starts inside one.
pub open spec fn filtered_from(tokens: Seq<Lexeme>, in_directive: bool) -> Seq<Lexeme>
    decreases tokens.len(),
{
    if tokens.len() == 0 {
        Seq::empty()
    } else {
        let t = tokens.first();
        let rest = tokens.drop_first();
        if in_directive {
            filtered_from(rest, t.kind != TokenKind::NewLine)
        } else if is_noise(t) {
            filtered_from(rest, false)
        } else if t.is_operator('#') {
            filtered_from(rest, true)
        } else {
            seq![t] + filtered_from(rest, false)
        }
    }
}

/// What is left of `tokens` without noise and without preprocessor directives.
pub open spec fn filtered(tokens: Seq<Lexeme>) -> Seq<Lexeme> {
    filtered_from(tokens, false)
}

/// Whether `token` is layout or commentary.
pub fn is_noise_token(token: &Token) -> (b: bool)
    ensures
        b == is_noise(token@),
{
    match token {
        Token::WhiteSpace(_) => true,
        Token::NewLine(_) => true,
        Token::LineContinuation(_) => true,
        Token::Comment(_) => true,
        _ => false,
    }
}

/// Removes whitespace, line endings, line continuations, comments and whole
/// preprocessor directives, so that only the tokens of the code remain.
pub fn filter_tokens(input_tokens: Vec<Token>) -> (tokens: Vec<Token>)
    ensures
        tokens.deep_view() == filtered(input_tokens.deep_view()),
{
    let mut res: Vec<Token> = Vec::new();
    let mut is_in_preprocessor = false;
    let ghost all = input_tokens.deep_view();
    proof {
        assert(all.skip(0) =~= all);
        assert(res.deep_view() + filtered(all) =~= filtered(all));
    }
    for token in it: input_tokens
        invariant
            it.seq().len() == all.len(),
            forall|k: int| 0 <= k < all.len() ==> (#[trigger] it.seq()[k])@ == all[k],
            filtered(all) == res.deep_view() + filtered_from(
                all.skip(it.index() as int),
                is_in_preprocessor,
            ),
    {
        let ghost before = res.deep_view();
        let ghost i = it.index() as int;
        proof {
            assert(all.skip(i).first() == token@);
            assert(all.skip(i).drop_first() =~= all.skip(i + 1));
        }
        if is_in_preprocessor {
            is_in_preprocessor = token.kind() != TokenKind::NewLine;
        } else if is_noise_token(&token) {
        } else if token.is_operator('#') {
            is_in_preprocessor = true;
        } else {
            res.push(token);
            proof {
                assert(res.deep_view() =~= before.push(all[i]));
                assert(before + (seq![all[i]] + filtered_from(all.skip(i + 1), false))
                    =~= before.push(all[i]) + filtered_from(all.skip(i + 1), false));
            }
        }
    }
    proof {
        assert(res.deep_view() + Seq::<Lexeme>::empty() =~= res.deep_view());
    }
    res
}


/// Inside a directive or outside, what the filter leaves are tokens of the
/// input that are no noise and no `#`.
proof fn lemma_filtered_from_holds_code(tokens: Seq<Lexeme>, in_directive: bool, i: int)
    requires
        0 <= i < filtered_from(tokens, in_directive).len(),
    ensures
        !is_noise(filtered_from(tokens, in_directive)[i]),
        !filtered_from(tokens, in_directive)[i].is_operator('#'),
        tokens.contains(filtered_from(tokens, in_directive)[i]),
    decreases tokens.len(),
{
    let t = tokens.first();
    let rest = tokens.drop_first();
    assert forall|x: Lexeme| rest.contains(x) implies tokens.contains(x) by {
        let k = choose|k: int| 0 <= k < rest.len() && rest[k] == x;
        assert(tokens[k + 1] == x);
    }
    if in_directive {
        lemma_filtered_from_holds_code(rest, t.kind != TokenKind::NewLine, i);
    } else if is_noise(t) {
        lemma_filtered_from_holds_code(rest, false, i);
    } else if t.is_operator('#') {
        lemma_filtered_from_holds_code(rest, true, i);
    } else if i > 0 {
        lemma_filtered_from_holds_code(rest, false, i - 1);
    } else {
        assert(tokens[0] == t);
    }
}

/// What the filter leaves are tokens of the input that are no noise and no
/// `#`.
pub proof fn lemma_filtered_holds_code(tokens: Seq<Lexeme>, i: int)
    requires
        0 <= i < filtered(tokens).len(),
    ensures
        !is_noise(filtered(tokens)[i]),
        !filtered(tokens)[i].is_operator('#'),
        tokens.contains(filtered(tokens)[i]),
{
    lemma_filtered_from_holds_code(tokens, false, i);
}

} // verus!
