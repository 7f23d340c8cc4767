//! Finding the standard headers that a source includes and does not use.
use crate::preprocessor::{
    collect_definitions, collect_includes, definitions, headers_between, includes, select_headers,
};
use crate::text::{chars_of, same_text, string_of};
use crate::token_filter::{filter_tokens, filtered};
use crate::tokenizer::{lex, tokenize, Lexeme, Token};
use vstd::prelude::*;

verus! {

/// How many characters stand in `s` before its first dot.
pub open spec fn stem_len(s: Seq<char>) -> nat
    decreases s.len(),
{
    if s.len() == 0 || s[0] == '.' {
        0
    } else {
        1 + stem_len(s.skip(1))
    }
}

/// The name of `header` without its extension: what stands before the first
/// dot.
pub open spec fn base_name(header: Seq<char>) -> Seq<char> {
    header.take(stem_len(header) as int)
}

/// Whether `tokens` hold the identifier `name`.
pub open spec fn has_identifier(tokens: Seq<Lexeme>, name: Seq<char>) -> bool {
    exists|i: int| 0 <= i < tokens.len() && (#[trigger] tokens[i]).is_identifier(name)
}

/// Whether the source `text` declares or uses `name`: a `#define` directive
/// introduces it, or it is an identifier of the code outside directives.
pub open spec fn is_used(text: Seq<char>, name: Seq<char>) -> bool {
    definitions(lex(text)).contains(name) || has_identifier(filtered(lex(text)), name)
}

/// The headers that `text` includes in angle brackets and whose base name it
/// neither declares nor uses, in the order of the directives.
pub open spec fn unused_headers(text: Seq<char>) -> Seq<Seq<char>> {
    headers_between(includes(lex(text)), '<', '>').filter(
        |h: Seq<char>| !is_used(text, base_name(h)),
    )
}

/// The name of `header` without its extension.
pub fn base_name_of(header: &str) -> (name: String)
    ensures
        name@ == base_name(header@),
{
    let s = chars_of(header);
    let mut i: usize = 0;
    proof {
        assert(s@.skip(0) =~= s@);
    }
    while i < s.len() && s[i] != '.'
        invariant
            i <= s.len(),
            stem_len(s@) == i + stem_len(s@.skip(i as int)),
        decreases s.len() - i,
    {
        proof {
            assert(s@.skip(i as int).skip(1) =~= s@.skip(i + 1));
        }
        i += 1;
    }
    string_of(&s, 0, i)
}

/// Whether `names` holds `name`.
pub fn contains_name(names: &Vec<String>, name: &str) -> (b: bool)
    ensures
        b == names.deep_view().contains(name@),
{
    let mut i: usize = 0;
    while i < names.len()
        invariant
            i <= names.len(),
            forall|j: int| 0 <= j < i ==> names.deep_view()[j] != name@,
        decreases names.len() - i,
    {
        if same_text(names[i].as_str(), name) {
            assert(names.deep_view()[i as int] == name@);
            return true;
        }
        i += 1;
    }
    false
}

/// Whether `tokens` hold the identifier `name`.
pub fn holds_identifier(tokens: &Vec<Token>, name: &str) -> (b: bool)
    ensures
        b == has_identifier(tokens.deep_view(), name@),
{
    let mut i: usize = 0;
    while i < tokens.len()
        invariant
            i <= tokens.len(),
            forall|j: int| 0 <= j < i ==> !(#[trigger] tokens.deep_view()[j]).is_identifier(name@),
        decreases tokens.len() - i,
    {
        if tokens[i].is_identifier(name) {
            assert(tokens.deep_view()[i as int].is_identifier(name@));
            return true;
        }
        i += 1;
    }
    false
}

/// The standard headers that `file_content` includes without need: those
/// written in angle brackets whose base name is neither a macro of the file
/// nor an identifier of its code.
pub fn get_unused_headers(file_content: &str) -> (headers: Vec<String>)
    ensures
        headers.deep_view() == unused_headers(file_content@),
{
    let tokens = tokenize(file_content);
    let targets = collect_includes(&tokens);
    let standard = select_headers(&targets, '<', '>');
    let macros = collect_definitions(&tokens);
    let code = filter_tokens(tokens);
    let mut res: Vec<String> = Vec::new();
    let ghost all = standard.deep_view();
    let ghost unused = |h: Seq<char>| !is_used(file_content@, base_name(h));
    proof {
        reveal(Seq::filter);
        assert(all.take(0).filter(unused) =~= res.deep_view());
    }
    let mut i: usize = 0;
    while i < standard.len()
        invariant
            i <= standard.len(),
            all == standard.deep_view(),
            all == headers_between(includes(lex(file_content@)), '<', '>'),
            macros.deep_view() == definitions(lex(file_content@)),
            code.deep_view() == filtered(lex(file_content@)),
            unused == |h: Seq<char>| !is_used(file_content@, base_name(h)),
            res.deep_view() == all.take(i as int).filter(unused),
        decreases standard.len() - i,
    {
        let header = &standard[i];
        let base = base_name_of(header.as_str());
        let ghost before = res.deep_view();
        proof {
            reveal(Seq::filter);
            assert(all.take(i + 1).drop_last() =~= all.take(i as int));
            assert(all.take(i + 1).last() == header@);
        }
        if !contains_name(&macros, base.as_str()) && !holds_identifier(&code, base.as_str()) {
            res.push(header.clone());
            proof {
                assert(res.deep_view() =~= before.push(header@));
            }
        }
        i += 1;
    }
    proof {
        assert(all.take(standard.len() as int) =~= all);
    }
    res
}

} // verus!
