//! Reading `#define` and `#include` directives off the token stream.
use crate::tokenizer::{lex, tokenize, Lexeme, Token, TokenKind};
use vstd::prelude::*;

verus! {

/// Where the reader of definitions stands.
#[derive(Clone, Copy, Debug, PartialEq, Eq, Structural)]
pub enum DirectiveState {
    /// Outside a directive, waiting for `#`.
    SeekHash,
    /// After `#`, waiting for the directive's word.
    SeekWord,
    /// After `#define`, waiting for the name.
    SeekName,
    /// Inside a directive, waiting for the end of the line.
    SeekNewline,
}

/// Where the reader of include directives stands.
#[derive(Clone, Copy, Debug, PartialEq, Eq, Structural)]
pub enum IncludeState {
    /// Outside a directive, waiting for `#`.
    SeekHash,
    /// After `#`, waiting for the word `include`.
    SeekWord,
    /// After `#include`, gathering the target up to the end of the line or
    /// of the input.
    Gather,
}

/// The state in which the reader of definitions is after `t`.
pub open spec fn define_step(state: DirectiveState, t: Lexeme) -> DirectiveState {
    match state {
        DirectiveState::SeekHash => if t.is_operator('#') {
            DirectiveState::SeekWord
        } else {
            DirectiveState::SeekHash
        },
        DirectiveState::SeekWord => if t.is_identifier("define"@) {
            DirectiveState::SeekName
        } else if t.kind == TokenKind::WhiteSpace {
            DirectiveState::SeekWord
        } else {
            DirectiveState::SeekNewline
        },
        DirectiveState::SeekName => if t.kind == TokenKind::Identifier {
            DirectiveState::SeekNewline
        } else {
            DirectiveState::SeekName
        },
        DirectiveState::SeekNewline => if t.kind == TokenKind::NewLine {
            DirectiveState::SeekHash
        } else {
            DirectiveState::SeekNewline
        },
    }
}

/// Whether the reader of definitions, in `state`, takes `t` as a macro's name.
pub open spec fn names_macro(state: DirectiveState, t: Lexeme) -> bool {
    state == DirectiveState::SeekName && t.kind == TokenKind::Identifier
}

/// The macro names that `tokens` define, for a reader that starts in `state`.
pub open spec fn definitions_from(tokens: Seq<Lexeme>, state: DirectiveState) -> Seq<Seq<char>>
    decreases tokens.len(),
{
    if tokens.len() == 0 {
        Seq::empty()
    } else {
        let t = tokens.first();
        let rest = definitions_from(tokens.drop_first(), define_step(state, t));
        if names_macro(state, t) {
            seq![t.text] + rest
        } else {
            rest
        }
    }
}

/// The names that `#define` directives among the unfiltered `tokens`
/// introduce, in the order of the directives.
pub open spec fn definitions(tokens: Seq<Lexeme>) -> Seq<Seq<char>> {
    definitions_from(tokens, DirectiveState::SeekHash)
}

/// Whether the text of `t` is part of an include target.
pub open spec fn in_target(t: Lexeme) -> bool {
    t.kind == TokenKind::String || t.kind == TokenKind::Operator || t.kind
        == TokenKind::Identifier || t.kind == TokenKind::Number
}

/// The include targets that `tokens` name, for a reader that starts in `state`
/// with `pending` gathered of the current target. A directive ends with its
/// line, or with the input where no line ending follows it.
pub open spec fn includes_from(
    tokens: Seq<Lexeme>,
    state: IncludeState,
    pending: Seq<char>,
) -> Seq<Seq<char>>
    decreases tokens.len(),
{
    if tokens.len() == 0 {
        if state == IncludeState::Gather {
            seq![pending]
        } else {
            Seq::empty()
        }
    } else {
        let t = tokens.first();
        let rest = tokens.drop_first();
        match state {
            IncludeState::SeekHash => includes_from(
                rest,
                if t.is_operator('#') {
                    IncludeState::SeekWord
                } else {
                    IncludeState::SeekHash
                },
                pending,
            ),
            IncludeState::SeekWord => includes_from(
                rest,
                if t.is_identifier("include"@) {
                    IncludeState::Gather
                } else if t.kind == TokenKind::WhiteSpace {
                    IncludeState::SeekWord
                } else {
                    IncludeState::SeekHash
                },
                pending,
            ),
            IncludeState::Gather => if t.kind == TokenKind::NewLine {
                seq![pending] + includes_from(rest, IncludeState::SeekHash, Seq::empty())
            } else if in_target(t) {
                includes_from(rest, IncludeState::Gather, pending + t.text)
            } else {
                includes_from(rest, IncludeState::Gather, pending)
            },
        }
    }
}

/// The targets of the `#include` directives among the unfiltered `tokens`,
/// delimiters included, in the order of the directives. The target of a
/// directive is what stands between the word `include` and the end of the
/// line, or the end of the input.
pub open spec fn includes(tokens: Seq<Lexeme>) -> Seq<Seq<char>> {
    includes_from(tokens, IncludeState::SeekHash, Seq::empty())
}

/// Whether `target` stands between `open` and `close`.
pub open spec fn is_delimited(target: Seq<char>, open: char, close: char) -> bool {
    target.len() >= 2 && target.first() == open && target.last() == close
}

/// Whether `target` is written `<...>`.
pub open spec fn is_standard(target: Seq<char>) -> bool {
    is_delimited(target, '<', '>')
}

/// Whether `target` is written `"..."`.
pub open spec fn is_custom(target: Seq<char>) -> bool {
    is_delimited(target, '"', '"')
}

/// `target` without its first and last character.
pub open spec fn inner(target: Seq<char>) -> Seq<char> {
    target.subrange(1, target.len() - 1)
}

/// The header that `target` names: what stands inside the angle brackets or
/// quotes, or all of `target` where it has neither.
pub open spec fn header_name(target: Seq<char>) -> Seq<char> {
    if is_standard(target) || is_custom(target) {
        inner(target)
    } else {
        target
    }
}

impl DirectiveState {
    /// Reads one token of a text in which definitions are sought. Returns the
    /// next state and whether the token is the name of a macro.
    pub fn on_token(self, token: &Token) -> (r: (DirectiveState, bool))
        ensures
            r.0 == define_step(self, token@),
            r.1 == names_macro(self, token@),
    {
        match self {
            DirectiveState::SeekHash => if token.is_operator('#') {
                (DirectiveState::SeekWord, false)
            } else {
                (DirectiveState::SeekHash, false)
            },
            DirectiveState::SeekWord => if token.is_identifier("define") {
                (DirectiveState::SeekName, false)
            } else if token.kind() == TokenKind::WhiteSpace {
                (DirectiveState::SeekWord, false)
            } else {
                (DirectiveState::SeekNewline, false)
            },
            DirectiveState::SeekName => if token.kind() == TokenKind::Identifier {
                (DirectiveState::SeekNewline, true)
            } else {
                (DirectiveState::SeekName, false)
            },
            DirectiveState::SeekNewline => if token.kind() == TokenKind::NewLine {
                (DirectiveState::SeekHash, false)
            } else {
                (DirectiveState::SeekNewline, false)
            },
        }
    }
}

/// Collects the names that the `#define` directives among `tokens` introduce.
pub fn collect_definitions(tokens: &Vec<Token>) -> (names: Vec<String>)
    ensures
        names.deep_view() == definitions(tokens.deep_view()),
{
    let mut res: Vec<String> = Vec::new();
    let mut state = DirectiveState::SeekHash;
    let ghost all = tokens.deep_view();
    proof {
        assert(all.skip(0) =~= all);
        assert(res.deep_view() + definitions(all) =~= definitions(all));
    }
    let mut i: usize = 0;
    while i < tokens.len()
        invariant
            i <= tokens.len(),
            all == tokens.deep_view(),
            definitions(all) == res.deep_view() + definitions_from(all.skip(i as int), state),
        decreases tokens.len() - i,
    {
        let token = &tokens[i];
        let ghost before = res.deep_view();
        let ghost rest = definitions_from(all.skip(i + 1), define_step(state, all[i as int]));
        proof {
            assert(all.skip(i as int).first() == token@);
            assert(all.skip(i as int).drop_first() =~= all.skip(i + 1));
        }
        let (next, named) = state.on_token(token);
        if named {
            res.push(token.text().clone());
            proof {
                assert(res.deep_view() =~= before.push(token@.text));
                assert(before + (seq![token@.text] + rest) =~= before.push(token@.text) + rest);
            }
        }
        state = next;
        i += 1;
    }
    proof {
        assert(res.deep_view() + Seq::<Seq<char>>::empty() =~= res.deep_view());
    }
    res
}

/// The names that the `#define` directives of `file_content` introduce, in
/// the order of the directives.
pub fn get_preprocessor_definitions(file_content: &str) -> (names: Vec<String>)
    ensures
        names.deep_view() == definitions(lex(file_content@)),
{
    let tokens = tokenize(file_content);
    collect_definitions(&tokens)
}

/// Collects the targets of the `#include` directives among `tokens`.
pub fn collect_includes(tokens: &Vec<Token>) -> (targets: Vec<String>)
    ensures
        targets.deep_view() == includes(tokens.deep_view()),
{
    let mut res: Vec<String> = Vec::new();
    let mut state = IncludeState::SeekHash;
    let mut new_include = String::new();
    let ghost all = tokens.deep_view();
    proof {
        assert(all.skip(0) =~= all);
        assert(res.deep_view() + includes(all) =~= includes(all));
    }
    let mut i: usize = 0;
    while i < tokens.len()
        invariant
            i <= tokens.len(),
            all == tokens.deep_view(),
            includes(all) == res.deep_view() + includes_from(
                all.skip(i as int),
                state,
                new_include@,
            ),
        decreases tokens.len() - i,
    {
        let token = &tokens[i];
        let ghost before = res.deep_view();
        let ghost pending = new_include@;
        proof {
            assert(all.skip(i as int).first() == token@);
            assert(all.skip(i as int).drop_first() =~= all.skip(i + 1));
        }
        match state {
            IncludeState::SeekHash => {
                if token.is_operator('#') {
                    state = IncludeState::SeekWord;
                }
            },
            IncludeState::SeekWord => {
                if token.is_identifier("include") {
                    state = IncludeState::Gather;
                } else if token.kind() != TokenKind::WhiteSpace {
                    state = IncludeState::SeekHash;
                }
            },
            IncludeState::Gather => {
                let kind = token.kind();
                if kind == TokenKind::NewLine {
                    res.push(new_include);
                    new_include = String::new();
                    state = IncludeState::SeekHash;
                    proof {
                        let rest = includes_from(
                            all.skip(i + 1),
                            IncludeState::SeekHash,
                            Seq::empty(),
                        );
                        assert(res.deep_view() =~= before.push(pending));
                        assert(before + (seq![pending] + rest) =~= before.push(pending) + rest);
                    }
                } else if kind == TokenKind::String || kind == TokenKind::Operator || kind
                    == TokenKind::Identifier || kind == TokenKind::Number {
                    new_include.append(token.text().as_str());
                }
            },
        }
        i += 1;
    }
    let ghost before = res.deep_view();
    proof {
        assert(all.skip(tokens.len() as int) =~= Seq::<Lexeme>::empty());
    }
    match state {
        IncludeState::Gather => {
            res.push(new_include);
            proof {
                assert(res.deep_view() =~= before + seq![new_include@]);
            }
        },
        _ => {
            proof {
                assert(before + Seq::<Seq<char>>::empty() =~= before);
            }
        },
    }
    res
}

/// The targets of the `#include` directives of `file_content`, with their
/// angle brackets or quotes, in the order of the directives. A directive may
/// end with its line or with the input.
pub fn get_includes(file_content: &str) -> (targets: Vec<String>)
    ensures
        targets.deep_view() == includes(lex(file_content@)),
{
    let tokens = tokenize(file_content);
    collect_includes(&tokens)
}


/// The headers that the targets written between `open` and `close` name, in
/// order.
pub open spec fn headers_between(targets: Seq<Seq<char>>, open: char, close: char) -> Seq<
    Seq<char>,
> {
    targets.filter(|t: Seq<char>| is_delimited(t, open, close)).map_values(
        |t: Seq<char>| inner(t),
    )
}

/// Whether `target` stands between `open` and `close`.
pub fn is_delimited_by(target: &str, open: char, close: char) -> (b: bool)
    ensures
        b == is_delimited(target@, open, close),
{
    let n = target.unicode_len();
    n >= 2 && target.get_char(0) == open && target.get_char(n - 1) == close
}

/// `target` without its first and last character.
pub fn inner_of(target: &str) -> (s: String)
    requires
        target@.len() >= 2,
    ensures
        s@ == inner(target@),
{
    let n = target.unicode_len();
    String::from_str(target.substring_char(1, n - 1))
}

/// The header that `target` names: what stands inside the angle brackets or
/// quotes, or all of `target` where it has neither.
pub fn header_name_of(target: &str) -> (s: String)
    ensures
        s@ == header_name(target@),
{
    if is_delimited_by(target, '<', '>') || is_delimited_by(target, '"', '"') {
        inner_of(target)
    } else {
        String::from_str(target)
    }
}

/// Picks the targets written between `open` and `close`, and strips those
/// two characters from each.
pub fn select_headers(targets: &Vec<String>, open: char, close: char) -> (names: Vec<String>)
    ensures
        names.deep_view() == headers_between(targets.deep_view(), open, close),
{
    let mut res: Vec<String> = Vec::new();
    let ghost all = targets.deep_view();
    let ghost pick = |t: Seq<char>| is_delimited(t, open, close);
    let ghost strip = |t: Seq<char>| inner(t);
    proof {
        reveal(Seq::filter);
        assert(all.take(0).filter(pick).map_values(strip) =~= res.deep_view());
    }
    let mut i: usize = 0;
    while i < targets.len()
        invariant
            i <= targets.len(),
            all == targets.deep_view(),
            pick == |t: Seq<char>| is_delimited(t, open, close),
            strip == |t: Seq<char>| inner(t),
            res.deep_view() == all.take(i as int).filter(pick).map_values(strip),
        decreases targets.len() - i,
    {
        let target = targets[i].as_str();
        let ghost before = res.deep_view();
        proof {
            reveal(Seq::filter);
            assert(all.take(i + 1).drop_last() =~= all.take(i as int));
            assert(all.take(i + 1).last() == target@);
        }
        if is_delimited_by(target, open, close) {
            res.push(inner_of(target));
            proof {
                assert(res.deep_view() =~= before.push(inner(target@)));
                assert(all.take(i as int).filter(pick).push(target@).map_values(strip)
                    =~= before.push(inner(target@)));
            }
        }
        i += 1;
    }
    proof {
        assert(all.take(targets.len() as int) =~= all);
    }
    res
}

/// The headers that `file_content` includes in angle brackets, without the
/// brackets, in the order of the directives.
pub fn get_standard_includes(file_content: &str) -> (names: Vec<String>)
    ensures
        names.deep_view() == headers_between(includes(lex(file_content@)), '<', '>'),
{
    let targets = get_includes(file_content);
    select_headers(&targets, '<', '>')
}

/// The headers that `file_content` includes in quotes, without the quotes,
/// in the order of the directives.
pub fn get_custom_includes(file_content: &str) -> (names: Vec<String>)
    ensures
        names.deep_view() == headers_between(includes(lex(file_content@)), '"', '"'),
{
    let targets = get_includes(file_content);
    select_headers(&targets, '"', '"')
}

/// The headers that `file_content` includes, each without its angle brackets
/// or quotes, in the order of the directives.
pub fn get_include_names(file_content: &str) -> (names: Vec<String>)
    ensures
        names.deep_view() == includes(lex(file_content@)).map_values(
            |t: Seq<char>| header_name(t),
        ),
{
    let targets = get_includes(file_content);
    let mut res: Vec<String> = Vec::new();
    let ghost all = targets.deep_view();
    let mut i: usize = 0;
    while i < targets.len()
        invariant
            i <= targets.len(),
            all == targets.deep_view(),
            res.deep_view() == all.take(i as int).map_values(|t: Seq<char>| header_name(t)),
        decreases targets.len() - i,
    {
        let ghost before = res.deep_view();
        res.push(header_name_of(targets[i].as_str()));
        proof {
            assert(res.deep_view() =~= before.push(header_name(all[i as int])));
            assert(all.take(i + 1).map_values(|t: Seq<char>| header_name(t)) =~= before.push(
                header_name(all[i as int]),
            ));
        }
        i += 1;
    }
    proof {
        assert(all.take(targets.len() as int) =~= all);
    }
    res
}


/// `tokens` without the runs of spaces and tabs among them.
pub open spec fn without_blanks(tokens: Seq<Lexeme>) -> Seq<Lexeme>
    decreases tokens.len(),
{
    if tokens.len() == 0 {
        Seq::empty()
    } else if tokens.first().kind == TokenKind::WhiteSpace {
        without_blanks(tokens.drop_first())
    } else {
        seq![tokens.first()] + without_blanks(tokens.drop_first())
    }
}

/// In every state of the reader of includes, whitespace changes nothing.
proof fn lemma_includes_from_ignore_blanks(
    tokens: Seq<Lexeme>,
    state: IncludeState,
    pending: Seq<char>,
)
    ensures
        includes_from(without_blanks(tokens), state, pending) == includes_from(
            tokens,
            state,
            pending,
        ),
    decreases tokens.len(),
{
    if tokens.len() > 0 {
        let t = tokens.first();
        let rest = tokens.drop_first();
        if t.kind == TokenKind::WhiteSpace {
            lemma_includes_from_ignore_blanks(rest, state, pending);
        } else {
            let kept = without_blanks(tokens);
            assert(kept.first() == t);
            assert(kept.drop_first() =~= without_blanks(rest));
            lemma_includes_from_ignore_blanks(rest, IncludeState::SeekHash, pending);
            lemma_includes_from_ignore_blanks(rest, IncludeState::SeekWord, pending);
            lemma_includes_from_ignore_blanks(rest, IncludeState::Gather, pending);
            lemma_includes_from_ignore_blanks(rest, IncludeState::SeekHash, Seq::empty());
            lemma_includes_from_ignore_blanks(rest, IncludeState::Gather, pending + t.text);
        }
    }
}

/// Spaces and tabs around and inside an `#include` directive do not matter:
/// the targets are those of the same tokens without the whitespace.
pub proof fn lemma_includes_ignore_blanks(tokens: Seq<Lexeme>)
    ensures
        includes(without_blanks(tokens)) == includes(tokens),
{
    lemma_includes_from_ignore_blanks(tokens, IncludeState::SeekHash, Seq::empty());
}

/// In every state of the reader of definitions, whitespace changes nothing.
proof fn lemma_definitions_from_ignore_blanks(tokens: Seq<Lexeme>, state: DirectiveState)
    ensures
        definitions_from(without_blanks(tokens), state) == definitions_from(tokens, state),
    decreases tokens.len(),
{
    if tokens.len() > 0 {
        let t = tokens.first();
        let rest = tokens.drop_first();
        if t.kind == TokenKind::WhiteSpace {
            lemma_definitions_from_ignore_blanks(rest, state);
        } else {
            let kept = without_blanks(tokens);
            assert(kept.first() == t);
            assert(kept.drop_first() =~= without_blanks(rest));
            lemma_definitions_from_ignore_blanks(rest, define_step(state, t));
        }
    }
}

/// Spaces and tabs around and inside a `#define` directive do not matter: the
/// names are those of the same tokens without the whitespace.
pub proof fn lemma_definitions_ignore_blanks(tokens: Seq<Lexeme>)
    ensures
        definitions(without_blanks(tokens)) == definitions(tokens),
{
    lemma_definitions_from_ignore_blanks(tokens, DirectiveState::SeekHash);
}


/// The token `#`.
pub open spec fn hash_token() -> Lexeme {
    Lexeme { kind: TokenKind::Operator, text: seq!['#'] }
}

/// The token `include`.
pub open spec fn include_token() -> Lexeme {
    Lexeme { kind: TokenKind::Identifier, text: "include"@ }
}

/// The operator spelled with the one character `c`.
pub open spec fn operator_token(c: char) -> Lexeme {
    Lexeme { kind: TokenKind::Operator, text: seq![c] }
}

/// Whether `tokens` hold no `#`.
pub open spec fn has_no_hash(tokens: Seq<Lexeme>) -> bool {
    forall|i: int| 0 <= i < tokens.len() ==> !(#[trigger] tokens[i]).is_operator('#')
}

/// Whether `tokens` are runs of spaces and tabs only.
pub open spec fn is_blank_run(tokens: Seq<Lexeme>) -> bool {
    forall|i: int| 0 <= i < tokens.len() ==> (#[trigger] tokens[i]).kind == TokenKind::WhiteSpace
}

/// Whether `tokens` hold no line ending.
pub open spec fn is_one_line(tokens: Seq<Lexeme>) -> bool {
    forall|i: int| 0 <= i < tokens.len() ==> (#[trigger] tokens[i]).kind != TokenKind::NewLine
}

/// The text that the reader of includes gathers from `tokens`: the texts of
/// the literals, operators, identifiers and numbers among them, joined in
/// order.
pub open spec fn gathered(tokens: Seq<Lexeme>) -> Seq<char>
    decreases tokens.len(),
{
    if tokens.len() == 0 {
        Seq::empty()
    } else if in_target(tokens.first()) {
        tokens.first().text + gathered(tokens.drop_first())
    } else {
        gathered(tokens.drop_first())
    }
}

/// An `#include` line with what stands before it: code without `#`, then `#`,
/// whitespace, the word `include`, the tokens of the target, and the line
/// ending.
pub ghost struct IncludeLine {
    /// What stands before the `#`.
    pub lead: Seq<Lexeme>,
    /// What stands between `#` and `include`.
    pub gap: Seq<Lexeme>,
    /// What stands between `include` and the end of the line.
    pub target: Seq<Lexeme>,
    /// The line ending.
    pub end: Lexeme,
}

impl IncludeLine {
    /// The parts are what their names say.
    pub open spec fn wf(self) -> bool {
        &&& has_no_hash(self.lead)
        &&& is_blank_run(self.gap)
        &&& is_one_line(self.target)
        &&& self.end.kind == TokenKind::NewLine
    }

    /// The tokens of the line, with what stands before it.
    pub open spec fn tokens(self) -> Seq<Lexeme> {
        self.lead + seq![hash_token()] + self.gap + seq![include_token()] + self.target
            + seq![self.end]
    }
}

/// The tokens of `lines`, one line after the other.
pub open spec fn lines_tokens(lines: Seq<IncludeLine>) -> Seq<Lexeme>
    decreases lines.len(),
{
    if lines.len() == 0 {
        Seq::empty()
    } else {
        lines.first().tokens() + lines_tokens(lines.drop_first())
    }
}

/// Outside a directive, tokens without `#` change nothing.
proof fn lemma_lead_is_skipped(lead: Seq<Lexeme>, rest: Seq<Lexeme>, pending: Seq<char>)
    requires
        has_no_hash(lead),
    ensures
        includes_from(lead + rest, IncludeState::SeekHash, pending) == includes_from(
            rest,
            IncludeState::SeekHash,
            pending,
        ),
    decreases lead.len(),
{
    if lead.len() == 0 {
        assert(lead + rest =~= rest);
    } else {
        assert((lead + rest).first() == lead[0]);
        assert((lead + rest).drop_first() =~= lead.drop_first() + rest);
        assert forall|i: int| 0 <= i < lead.drop_first().len() implies !(
        #[trigger] lead.drop_first()[i]).is_operator('#') by {
            assert(lead.drop_first()[i] == lead[i + 1]);
        }
        lemma_lead_is_skipped(lead.drop_first(), rest, pending);
    }
}

/// Behind `#`, whitespace changes nothing.
proof fn lemma_gap_is_skipped(gap: Seq<Lexeme>, rest: Seq<Lexeme>, pending: Seq<char>)
    requires
        is_blank_run(gap),
    ensures
        includes_from(gap + rest, IncludeState::SeekWord, pending) == includes_from(
            rest,
            IncludeState::SeekWord,
            pending,
        ),
    decreases gap.len(),
{
    if gap.len() == 0 {
        assert(gap + rest =~= rest);
    } else {
        assert((gap + rest).first() == gap[0]);
        assert((gap + rest).drop_first() =~= gap.drop_first() + rest);
        assert forall|i: int| 0 <= i < gap.drop_first().len() implies (
        #[trigger] gap.drop_first()[i]).kind == TokenKind::WhiteSpace by {
            assert(gap.drop_first()[i] == gap[i + 1]);
        }
        lemma_gap_is_skipped(gap.drop_first(), rest, pending);
    }
}

/// Behind `#include`, the tokens of one line are gathered.
proof fn lemma_target_is_gathered(target: Seq<Lexeme>, rest: Seq<Lexeme>, pending: Seq<char>)
    requires
        is_one_line(target),
    ensures
        includes_from(target + rest, IncludeState::Gather, pending) == includes_from(
            rest,
            IncludeState::Gather,
            pending + gathered(target),
        ),
    decreases target.len(),
{
    if target.len() == 0 {
        assert(target + rest =~= rest);
        assert(pending + gathered(target) =~= pending);
    } else {
        let t = target[0];
        let more = target.drop_first();
        assert((target + rest).first() == t);
        assert((target + rest).drop_first() =~= more + rest);
        assert forall|i: int| 0 <= i < more.len() implies (#[trigger] more[i]).kind
            != TokenKind::NewLine by {
            assert(more[i] == target[i + 1]);
        }
        if in_target(t) {
            lemma_target_is_gathered(more, rest, pending + t.text);
            assert((pending + t.text) + gathered(more) =~= pending + gathered(target));
        } else {
            lemma_target_is_gathered(more, rest, pending);
        }
    }
}

/// From `#` on, a directive gathers its target.
proof fn lemma_directive_is_read(gap: Seq<Lexeme>, target: Seq<Lexeme>, rest: Seq<Lexeme>)
    requires
        is_blank_run(gap),
        is_one_line(target),
    ensures
        includes_from(
            seq![hash_token()] + (gap + (seq![include_token()] + (target + rest))),
            IncludeState::SeekHash,
            Seq::empty(),
        ) == includes_from(rest, IncludeState::Gather, gathered(target)),
{
    let from_word = seq![include_token()] + (target + rest);
    let from_gap = gap + from_word;
    let from_hash = seq![hash_token()] + from_gap;
    assert(from_hash.first() == hash_token());
    assert(from_hash.drop_first() =~= from_gap);
    assert(hash_token().is_operator('#'));
    lemma_gap_is_skipped(gap, from_word, Seq::empty());
    assert(from_word.first() == include_token());
    assert(from_word.drop_first() =~= target + rest);
    assert(include_token().is_identifier("include"@));
    lemma_target_is_gathered(target, rest, Seq::empty());
    assert(Seq::<char>::empty() + gathered(target) =~= gathered(target));
}

/// One `#include` line gives its target, and the reader goes on behind it
/// as from the start.
proof fn lemma_include_line(line: IncludeLine, rest: Seq<Lexeme>)
    requires
        line.wf(),
    ensures
        includes(line.tokens() + rest) == seq![gathered(line.target)] + includes(rest),
{
    let from_end = seq![line.end] + rest;
    let from_hash = seq![hash_token()] + (line.gap + (seq![include_token()] + (line.target
        + from_end)));
    assert(line.tokens() + rest =~= line.lead + from_hash);
    lemma_lead_is_skipped(line.lead, from_hash, Seq::empty());
    lemma_directive_is_read(line.gap, line.target, from_end);
    assert(from_end.first() == line.end);
    assert(from_end.drop_first() =~= rest);
}

/// Every `#include` line gives one target, in the order of the lines: where
/// the tokens start with such lines, the targets are what each line holds
/// between `include` and its line ending, followed by the targets of what
/// stands behind the lines.
pub proof fn lemma_include_lines(lines: Seq<IncludeLine>, rest: Seq<Lexeme>)
    requires
        forall|i: int| 0 <= i < lines.len() ==> (#[trigger] lines[i]).wf(),
    ensures
        includes(lines_tokens(lines) + rest) == lines.map_values(
            |line: IncludeLine| gathered(line.target),
        ) + includes(rest),
    decreases lines.len(),
{
    let targets = lines.map_values(|line: IncludeLine| gathered(line.target));
    if lines.len() == 0 {
        assert(lines_tokens(lines) + rest =~= rest);
        assert(targets + includes(rest) =~= includes(rest));
    } else {
        let more = lines.drop_first();
        assert forall|i: int| 0 <= i < more.len() implies (#[trigger] more[i]).wf() by {
            assert(more[i] == lines[i + 1]);
        }
        lemma_include_lines(more, rest);
        lemma_include_line(lines.first(), lines_tokens(more) + rest);
        assert(lines_tokens(lines) + rest =~= lines.first().tokens() + (lines_tokens(more)
            + rest));
        assert(targets =~= seq![gathered(lines.first().target)] + more.map_values(
            |line: IncludeLine| gathered(line.target),
        ));
        assert(seq![gathered(lines.first().target)] + (more.map_values(
            |line: IncludeLine| gathered(line.target),
        ) + includes(rest)) =~= targets + includes(rest));
    }
}

/// Tokens without `#` include nothing.
pub proof fn lemma_no_hash_no_includes(tokens: Seq<Lexeme>)
    requires
        has_no_hash(tokens),
    ensures
        includes(tokens) == Seq::<Seq<char>>::empty(),
{
    lemma_lead_is_skipped(tokens, Seq::empty(), Seq::empty());
    assert(tokens + Seq::<Lexeme>::empty() =~= tokens);
}

/// A directive that ends with the input gives its target as one that ends
/// with a line does.
pub proof fn lemma_include_at_the_end(lead: Seq<Lexeme>, gap: Seq<Lexeme>, target: Seq<Lexeme>)
    requires
        has_no_hash(lead),
        is_blank_run(gap),
        is_one_line(target),
    ensures
        includes(lead + seq![hash_token()] + gap + seq![include_token()] + target) == seq![
            gathered(target),
        ],
{
    let none = Seq::<Lexeme>::empty();
    let from_hash = seq![hash_token()] + (gap + (seq![include_token()] + (target + none)));
    assert(lead + seq![hash_token()] + gap + seq![include_token()] + target =~= lead
        + from_hash);
    lemma_lead_is_skipped(lead, from_hash, Seq::empty());
    lemma_directive_is_read(gap, target, none);
}

/// What is gathered from two runs of tokens is what is gathered from each.
pub proof fn lemma_gathered_concat(a: Seq<Lexeme>, b: Seq<Lexeme>)
    ensures
        gathered(a + b) == gathered(a) + gathered(b),
    decreases a.len(),
{
    if a.len() == 0 {
        assert(a + b =~= b);
        assert(gathered(a) + gathered(b) =~= gathered(b));
    } else {
        assert((a + b).first() == a[0]);
        assert((a + b).drop_first() =~= a.drop_first() + b);
        lemma_gathered_concat(a.drop_first(), b);
        if in_target(a[0]) {
            assert(a[0].text + (gathered(a.drop_first()) + gathered(b)) =~= gathered(a)
                + gathered(b));
        }
    }
}

/// Nothing is gathered from whitespace.
pub proof fn lemma_gathered_blank_run(blanks: Seq<Lexeme>)
    requires
        is_blank_run(blanks),
    ensures
        gathered(blanks) == Seq::<char>::empty(),
    decreases blanks.len(),
{
    if blanks.len() > 0 {
        assert(blanks[0].kind == TokenKind::WhiteSpace);
        assert forall|i: int| 0 <= i < blanks.drop_first().len() implies (
        #[trigger] blanks.drop_first()[i]).kind == TokenKind::WhiteSpace by {
            assert(blanks.drop_first()[i] == blanks[i + 1]);
        }
        lemma_gathered_blank_run(blanks.drop_first());
    }
}

/// A target written as `open`, a name and `close`, with whitespace around
/// it, is gathered with its delimiters first and last, and the name is what
/// stands between them.
pub proof fn lemma_bracketed_target(
    before: Seq<Lexeme>,
    name: Seq<Lexeme>,
    after: Seq<Lexeme>,
    open: char,
    close: char,
)
    requires
        is_blank_run(before),
        is_blank_run(after),
    ensures
        is_delimited(
            gathered(
                before + seq![operator_token(open)] + name + seq![operator_token(close)] + after,
            ),
            open,
            close,
        ),
        inner(
            gathered(
                before + seq![operator_token(open)] + name + seq![operator_token(close)] + after,
            ),
        ) == gathered(name),
{
    let opener = seq![operator_token(open)];
    let closer = seq![operator_token(close)];
    let target = before + opener + name + closer + after;
    lemma_gathered_concat(before + opener + name + closer, after);
    lemma_gathered_concat(before + opener + name, closer);
    lemma_gathered_concat(before + opener, name);
    lemma_gathered_concat(before, opener);
    lemma_gathered_blank_run(before);
    lemma_gathered_blank_run(after);
    assert(gathered(Seq::<Lexeme>::empty()) =~= Seq::<char>::empty());
    assert(opener.drop_first() =~= Seq::<Lexeme>::empty());
    assert(closer.drop_first() =~= Seq::<Lexeme>::empty());
    assert(opener.first() == operator_token(open) && closer.first() == operator_token(close));
    assert(gathered(opener) =~= seq![open]);
    assert(gathered(closer) =~= seq![close]);
    assert(gathered(target) =~= seq![open] + gathered(name) + seq![close]);
    assert(inner(gathered(target)) =~= gathered(name));
}

/// A target written as one literal, with whitespace around it, is gathered
/// as the text of the literal.
pub proof fn lemma_quoted_target(before: Seq<Lexeme>, literal: Lexeme, after: Seq<Lexeme>)
    requires
        is_blank_run(before),
        is_blank_run(after),
        literal.kind == TokenKind::String,
    ensures
        gathered(before + seq![literal] + after) == literal.text,
{
    let word = seq![literal];
    lemma_gathered_concat(before + word, after);
    lemma_gathered_concat(before, word);
    lemma_gathered_blank_run(before);
    lemma_gathered_blank_run(after);
    assert(gathered(Seq::<Lexeme>::empty()) =~= Seq::<char>::empty());
    assert(word.drop_first() =~= Seq::<Lexeme>::empty());
    assert(word.first() == literal);
    assert(gathered(word) =~= literal.text);
    assert(Seq::<char>::empty() + literal.text + Seq::<char>::empty() =~= literal.text);
}


/// Whether `target` is `before`, a header in angle brackets or in quotes, and
/// `after`, where `before` and `after` are whitespace: the header is `<`,
/// the tokens `name` and `>`, or `name` is one string literal with both its
/// quotes.
pub open spec fn is_header_between(
    target: Seq<Lexeme>,
    before: Seq<Lexeme>,
    name: Seq<Lexeme>,
    after: Seq<Lexeme>,
) -> bool {
    &&& is_blank_run(before)
    &&& is_blank_run(after)
    &&& {
        ||| target == before + seq![operator_token('<')] + name + seq![operator_token('>')]
            + after
        ||| (name.len() == 1 && name[0].kind == TokenKind::String && is_custom(name[0].text)
            && target == before + name + after)
    }
}

/// Whether `target` names a header as `<name>` or `"name"`, with whitespace
/// allowed around it.
pub open spec fn is_header_target(target: Seq<Lexeme>) -> bool {
    exists|before: Seq<Lexeme>, name: Seq<Lexeme>, after: Seq<Lexeme>| #[trigger]
        is_header_between(target, before, name, after)
}

/// A target that names a header as `<name>` or `"name"` is gathered with its
/// own delimiters first and last.
pub proof fn lemma_header_target_is_delimited(target: Seq<Lexeme>)
    requires
        is_header_target(target),
    ensures
        is_standard(gathered(target)) || is_custom(gathered(target)),
        header_name(gathered(target)) == inner(gathered(target)),
{
    let (before, name, after) = choose|
        before: Seq<Lexeme>,
        name: Seq<Lexeme>,
        after: Seq<Lexeme>,
    | #[trigger] is_header_between(target, before, name, after);
    if target == before + seq![operator_token('<')] + name + seq![operator_token('>')] + after {
        lemma_bracketed_target(before, name, after, '<', '>');
    } else {
        assert(name =~= seq![name[0]]);
        lemma_quoted_target(before, name[0], after);
    }
}

/// Where every `#` starts a line `#include <name>` or `#include "name"`,
/// with whitespace allowed around the parts, each such line gives one target,
/// in the order of the lines, and each target has its own delimiters first
/// and last, so that the header's name is what stands between them.
pub proof fn lemma_header_lines(lines: Seq<IncludeLine>, rest: Seq<Lexeme>)
    requires
        forall|i: int| 0 <= i < lines.len() ==> (#[trigger] lines[i]).wf() && is_header_target(
            lines[i].target,
        ),
        has_no_hash(rest),
    ensures
        includes(lines_tokens(lines) + rest).len() == lines.len(),
        forall|i: int|
            0 <= i < lines.len() ==> {
                let target = #[trigger] includes(lines_tokens(lines) + rest)[i];
                &&& target == gathered(lines[i].target)
                &&& is_standard(target) || is_custom(target)
                &&& header_name(target) == inner(target)
            },
{
    lemma_include_lines(lines, rest);
    lemma_no_hash_no_includes(rest);
    let targets = lines.map_values(|line: IncludeLine| gathered(line.target));
    assert(targets + Seq::<Seq<char>>::empty() =~= targets);
    assert forall|i: int| 0 <= i < lines.len() implies {
        let target = #[trigger] includes(lines_tokens(lines) + rest)[i];
        &&& target == gathered(lines[i].target)
        &&& is_standard(target) || is_custom(target)
        &&& header_name(target) == inner(target)
    } by {
        lemma_header_target_is_delimited(lines[i].target);
    }
}

} // verus!
