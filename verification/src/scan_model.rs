//! The scan for declarations as mathematics: what each step of the scanner
//! makes of a sequence of filtered tokens and a position in it.
use crate::scan_error::{failure_at, Expected, Keyword, ScanFailure};
use crate::tokenizer::{Lexeme, TokenKind};
use vstd::prelude::*;

verus! {

/// A span that is open while tokens are skipped: the operator that closes it,
/// and whether `<` opens a span inside it.
pub type Frame = (char, bool);

/// The span that `t` opens, if it opens one: a round, curly or square
/// bracket always does, `<` only where `angle` holds. Brackets hide angle
/// brackets, so that a comparison inside them is no template argument list.
pub open spec fn opened_by(t: Lexeme, angle: bool) -> Option<Frame> {
    if t.is_operator('(') {
        Some((')', false))
    } else if t.is_operator('{') {
        Some(('}', false))
    } else if t.is_operator('[') {
        Some((']', false))
    } else if angle && t.is_operator('<') {
        Some(('>', true))
    } else {
        None
    }
}

/// The position behind the first `closer` at or after `pos` that stands in no
/// nested span; `None` where the input ends before it.
pub open spec fn span_end(tokens: Seq<Lexeme>, pos: int, closer: char, angle: bool) -> Option<int>
    decreases tokens.len() - pos,
{
    if pos < 0 || pos >= tokens.len() {
        None
    } else if tokens[pos].is_operator(closer) {
        Some(pos + 1)
    } else {
        match opened_by(tokens[pos], angle) {
            Some(inner) => match span_end(tokens, pos + 1, inner.0, inner.1) {
                Some(p) => if pos < p <= tokens.len() {
                    span_end(tokens, p, closer, angle)
                } else {
                    None
                },
                None => None,
            },
            None => span_end(tokens, pos + 1, closer, angle),
        }
    }
}

/// The position behind the spans of `stack`, closed one after the other from
/// the last to the first, starting at `pos`.
pub open spec fn spans_end(tokens: Seq<Lexeme>, pos: int, stack: Seq<Frame>) -> Option<int>
    decreases stack.len(),
{
    if stack.len() == 0 {
        Some(pos)
    } else {
        match span_end(tokens, pos, stack.last().0, stack.last().1) {
            Some(p) => spans_end(tokens, p, stack.drop_last()),
            None => None,
        }
    }
}

/// Whether `t` is the word `class` or the word `struct`.
pub open spec fn is_class_word(t: Lexeme) -> bool {
    t.is_identifier("class"@) || t.is_identifier("struct"@)
}

/// Whether `t` is an identifier that spells `keyword`.
pub open spec fn is_keyword(t: Lexeme, keyword: Keyword) -> bool {
    match keyword {
        Keyword::Attribute => t.is_identifier("__attribute__"@),
        Keyword::Template => t.is_identifier("template"@),
        Keyword::Using => t.is_identifier("using"@),
        Keyword::Typedef => t.is_identifier("typedef"@),
        Keyword::ClassOrStruct => is_class_word(t),
    }
}

/// Whether `keyword` stands at `pos`.
pub open spec fn keyword_at(tokens: Seq<Lexeme>, pos: int, keyword: Keyword) -> bool {
    0 <= pos < tokens.len() && is_keyword(tokens[pos], keyword)
}

/// Whether the operator spelled `c` stands at `pos`.
pub open spec fn operator_at(tokens: Seq<Lexeme>, pos: int, c: char) -> bool {
    0 <= pos < tokens.len() && tokens[pos].is_operator(c)
}

/// Skipping `keyword`, which must stand at `pos`.
pub open spec fn behind_keyword(tokens: Seq<Lexeme>, pos: int, keyword: Keyword) -> Result<
    int,
    ScanFailure,
> {
    if keyword_at(tokens, pos, keyword) {
        Ok(pos + 1)
    } else {
        Err(failure_at(tokens, pos, Expected::Keyword(keyword)))
    }
}

/// Skipping the operator spelled `c`, which must stand at `pos`.
pub open spec fn behind_operator(tokens: Seq<Lexeme>, pos: int, c: char) -> Result<
    int,
    ScanFailure,
> {
    if operator_at(tokens, pos, c) {
        Ok(pos + 1)
    } else {
        Err(failure_at(tokens, pos, Expected::Operator(c)))
    }
}

/// Skipping a balanced pair: `open` must stand at `pos`, and the result is the
/// position behind the `close` that matches it.
pub open spec fn balanced(
    tokens: Seq<Lexeme>,
    pos: int,
    open: char,
    close: char,
    angle: bool,
) -> Result<int, ScanFailure> {
    if !operator_at(tokens, pos, open) {
        Err(failure_at(tokens, pos, Expected::Operator(open)))
    } else {
        match span_end(tokens, pos + 1, close, angle) {
            Some(p) => Ok(p),
            None => Err(failure_at(tokens, tokens.len() as int, Expected::Operator(close))),
        }
    }
}

/// Skipping to `target`: the position behind the first `target` at or after
/// `pos` outside nested brackets, or the end of the input where there is none.
pub open spec fn skipped_to(tokens: Seq<Lexeme>, pos: int, target: char) -> int {
    match span_end(tokens, pos, target, false) {
        Some(p) => p,
        None => tokens.len() as int,
    }
}

/// Skipping `__attribute__` and the bracket pair behind it.
pub open spec fn attribute_end(tokens: Seq<Lexeme>, pos: int) -> Result<int, ScanFailure> {
    if !keyword_at(tokens, pos, Keyword::Attribute) {
        Err(failure_at(tokens, pos, Expected::Keyword(Keyword::Attribute)))
    } else {
        balanced(tokens, pos + 1, '(', ')', false)
    }
}

/// Skipping `template` and the parameter list behind it.
pub open spec fn template_end(tokens: Seq<Lexeme>, pos: int) -> Result<int, ScanFailure> {
    if !keyword_at(tokens, pos, Keyword::Template) {
        Err(failure_at(tokens, pos, Expected::Keyword(Keyword::Template)))
    } else {
        balanced(tokens, pos + 1, '<', '>', true)
    }
}

/// Skipping what ends a function: `;`, or a body in curly brackets. Where
/// neither stands at `pos`, `otherwise` is reported.
pub open spec fn body_end(tokens: Seq<Lexeme>, pos: int, otherwise: Expected) -> Result<
    int,
    ScanFailure,
> {
    if !(0 <= pos < tokens.len()) {
        Err(failure_at(tokens, pos, otherwise))
    } else if tokens[pos].is_operator(';') {
        Ok(pos + 1)
    } else if tokens[pos].is_operator('{') {
        balanced(tokens, pos, '{', '}', false)
    } else {
        Err(failure_at(tokens, pos, otherwise))
    }
}

/// Skipping a function from its parameter list on: the list, one attribute
/// if there is one, and then `;` or the body.
pub open spec fn function_end(tokens: Seq<Lexeme>, pos: int) -> Result<int, ScanFailure> {
    match balanced(tokens, pos, '(', ')', false) {
        Err(e) => Err(e),
        Ok(p) => if keyword_at(tokens, p, Keyword::Attribute) {
            match attribute_end(tokens, p) {
                Err(e) => Err(e),
                Ok(q) => body_end(tokens, q, Expected::FunctionBody),
            }
        } else {
            body_end(tokens, p, Expected::FunctionTail)
        },
    }
}

/// Whether `t` decorates a declarator without naming anything.
pub open spec fn is_decoration(t: Lexeme) -> bool {
    t.is_operator('*') || t.is_operator(':') || t.is_operator('&')
}

/// Whether `t` ends the head of a declaration.
pub open spec fn is_terminal(t: Lexeme) -> bool {
    t.is_operator(';') || t.is_operator('(') || t.is_operator('=')
}

/// The candidate name after the identifier `operator` at `pos`, which is not
/// the last token: the word itself where `;`, `(` or a single `=` follows, so
/// that it names a variable or a function; nothing where anything else
/// follows, so that it marks an overloaded operator.
pub open spec fn name_at_operator(tokens: Seq<Lexeme>, pos: int) -> Seq<char> {
    let next = tokens[pos + 1];
    if next.is_operator(';') || next.is_operator('(') {
        tokens[pos].text
    } else if next.is_operator('=') {
        if pos + 2 < tokens.len() && tokens[pos + 2].is_operator('=') {
            Seq::empty()
        } else {
            tokens[pos].text
        }
    } else {
        Seq::empty()
    }
}

/// Reading the head of a declaration from `pos` with `candidate` as the last
/// name seen: the last name before the terminal operator, and the position of
/// that operator.
pub open spec fn head_end(tokens: Seq<Lexeme>, pos: int, candidate: Seq<char>) -> Result<
    (Seq<char>, int),
    ScanFailure,
>
    decreases tokens.len() - pos,
{
    if pos < 0 || pos >= tokens.len() {
        Err(failure_at(tokens, pos, Expected::DeclarationHead))
    } else {
        let t = tokens[pos];
        if is_keyword(t, Keyword::Attribute) {
            match attribute_end(tokens, pos) {
                Err(e) => Err(e),
                Ok(p) => if pos < p <= tokens.len() {
                    head_end(tokens, p, candidate)
                } else {
                    Err(failure_at(tokens, pos, Expected::DeclarationHead))
                },
            }
        } else if t.is_identifier("operator"@) {
            if pos + 1 >= tokens.len() {
                Err(failure_at(tokens, pos + 1, Expected::DeclarationHead))
            } else {
                head_end(tokens, pos + 1, name_at_operator(tokens, pos))
            }
        } else if t.kind == TokenKind::Identifier {
            head_end(tokens, pos + 1, t.text)
        } else if is_decoration(t) {
            head_end(tokens, pos + 1, candidate)
        } else if t.is_operator('<') {
            match balanced(tokens, pos, '<', '>', true) {
                Err(e) => Err(e),
                Ok(p) => if pos < p <= tokens.len() {
                    head_end(tokens, p, candidate)
                } else {
                    Err(failure_at(tokens, pos, Expected::DeclarationHead))
                },
            }
        } else if is_terminal(t) {
            Ok((candidate, pos))
        } else {
            Err(failure_at(tokens, pos, Expected::DeclarationHead))
        }
    }
}

/// The name that a candidate stands for: none where it is empty.
pub open spec fn named(candidate: Seq<char>) -> Option<Seq<char>> {
    if candidate.len() == 0 {
        None
    } else {
        Some(candidate)
    }
}

/// What one step of the scan yields: the name it declares, if any, and the
/// position behind it.
pub type Step = Result<(Option<Seq<char>>, int), ScanFailure>;

/// Reading the head of a declaration at `pos`: the declared name, if there
/// is one, and the position of the terminal operator.
pub open spec fn declaration_at(tokens: Seq<Lexeme>, pos: int) -> Step {
    match head_end(tokens, pos, Seq::empty()) {
        Err(e) => Err(e),
        Ok((candidate, p)) => Ok((named(candidate), p)),
    }
}

/// Reading `using`: the identifier behind it is the declared alias, unless it
/// is `namespace`; the rest is skipped to `;`.
pub open spec fn using_at(tokens: Seq<Lexeme>, pos: int) -> Step {
    if !keyword_at(tokens, pos, Keyword::Using) {
        Err(failure_at(tokens, pos, Expected::Keyword(Keyword::Using)))
    } else if !(pos + 1 < tokens.len() && tokens[pos + 1].kind == TokenKind::Identifier) {
        Err(failure_at(tokens, pos + 1, Expected::Identifier))
    } else {
        Ok(
            (
                if tokens[pos + 1].is_identifier("namespace"@) {
                    None
                } else {
                    Some(tokens[pos + 1].text)
                },
                skipped_to(tokens, pos + 1, ';'),
            ),
        )
    }
}

/// The first position at or after `pos` where `;` or `{` stands, or the end of
/// the input.
pub open spec fn class_tail_end(tokens: Seq<Lexeme>, pos: int) -> int
    decreases tokens.len() - pos,
{
    if pos < 0 || pos >= tokens.len() {
        pos
    } else if tokens[pos].is_operator(';') || tokens[pos].is_operator('{') {
        pos
    } else {
        class_tail_end(tokens, pos + 1)
    }
}

/// Reading a class or struct up to, and without, the `;` that ends it: the
/// name behind the keyword, if an identifier stands there, and the position
/// of the `;` of a forward declaration or behind the body of a definition.
pub open spec fn class_head_at(tokens: Seq<Lexeme>, pos: int) -> Step {
    if !keyword_at(tokens, pos, Keyword::ClassOrStruct) {
        Err(failure_at(tokens, pos, Expected::Keyword(Keyword::ClassOrStruct)))
    } else if pos + 1 >= tokens.len() {
        Err(failure_at(tokens, pos + 1, Expected::ClassName))
    } else {
        let name = if tokens[pos + 1].kind == TokenKind::Identifier {
            Some(tokens[pos + 1].text)
        } else {
            None
        };
        let tail = class_tail_end(tokens, if name is Some { pos + 2 } else { pos + 1 });
        if tail >= tokens.len() {
            Err(failure_at(tokens, tail, Expected::ClassBody))
        } else if tokens[tail].is_operator(';') {
            Ok((name, tail))
        } else {
            match balanced(tokens, tail, '{', '}', false) {
                Err(e) => Err(e),
                Ok(p) => Ok((name, p)),
            }
        }
    }
}

/// What `step` yields once the `;` behind it is skipped too.
pub open spec fn then_semicolon(tokens: Seq<Lexeme>, step: Step) -> Step {
    match step {
        Err(e) => Err(e),
        Ok((name, p)) => if operator_at(tokens, p, ';') {
            Ok((name, p + 1))
        } else {
            Err(failure_at(tokens, p, Expected::Operator(';')))
        },
    }
}

/// Reading a class or struct with the `;` that ends it.
pub open spec fn class_at(tokens: Seq<Lexeme>, pos: int) -> Step {
    then_semicolon(tokens, class_head_at(tokens, pos))
}

/// Reading `typedef`: before `struct` or `class` the tag of that type, read
/// without the `;`; else the name that the head of the declaration gives,
/// and the `;` behind it.
pub open spec fn typedef_at(tokens: Seq<Lexeme>, pos: int) -> Step {
    if !keyword_at(tokens, pos, Keyword::Typedef) {
        Err(failure_at(tokens, pos, Expected::Keyword(Keyword::Typedef)))
    } else if !(pos + 1 < tokens.len() && tokens[pos + 1].kind == TokenKind::Identifier) {
        Err(failure_at(tokens, pos + 1, Expected::Identifier))
    } else if is_class_word(tokens[pos + 1]) {
        class_head_at(tokens, pos + 1)
    } else {
        then_semicolon(tokens, declaration_at(tokens, pos + 1))
    }
}

/// Reading a variable or a function: the name that the head gives, and then
/// `;`, an initializer up to `;`, or the rest of a function.
pub open spec fn plain_item_at(tokens: Seq<Lexeme>, pos: int) -> Step {
    match declaration_at(tokens, pos) {
        Err(e) => Err(e),
        Ok((name, p)) => if !(0 <= p < tokens.len()) {
            Err(failure_at(tokens, p, Expected::DeclarationHead))
        } else if tokens[p].is_operator(';') {
            Ok((name, p + 1))
        } else if tokens[p].is_operator('=') {
            Ok((name, skipped_to(tokens, p, ';')))
        } else {
            match function_end(tokens, p) {
                Err(e) => Err(e),
                Ok(q) => Ok((name, q)),
            }
        },
    }
}

/// Reading the top-level item at `pos`, by the token that stands there.
pub open spec fn item_at(tokens: Seq<Lexeme>, pos: int) -> Step {
    if !(0 <= pos < tokens.len()) {
        Err(failure_at(tokens, pos, Expected::TopLevelItem))
    } else {
        let t = tokens[pos];
        if is_keyword(t, Keyword::Template) {
            match template_end(tokens, pos) {
                Err(e) => Err(e),
                Ok(p) => Ok((None, p)),
            }
        } else if is_keyword(t, Keyword::Using) {
            using_at(tokens, pos)
        } else if is_keyword(t, Keyword::ClassOrStruct) {
            class_at(tokens, pos)
        } else if is_keyword(t, Keyword::Typedef) {
            typedef_at(tokens, pos)
        } else if t.kind == TokenKind::Identifier {
            plain_item_at(tokens, pos)
        } else if t.is_operator('{') {
            match balanced(tokens, pos, '{', '}', false) {
                Err(e) => Err(e),
                Ok(p) => Ok((None, p)),
            }
        } else if t.is_operator(';') {
            Ok((None, pos + 1))
        } else {
            Err(failure_at(tokens, pos, Expected::TopLevelItem))
        }
    }
}

/// The names that an optional name stands for.
pub open spec fn names_of(name: Option<Seq<char>>) -> Seq<Seq<char>> {
    match name {
        Some(n) => seq![n],
        None => Seq::empty(),
    }
}

/// The names that the top-level items from `pos` on declare, in order, or the
/// failure of the first item that cannot be read.
pub open spec fn items_from(tokens: Seq<Lexeme>, pos: int) -> Result<Seq<Seq<char>>, ScanFailure>
    decreases tokens.len() - pos,
{
    if pos < 0 || pos >= tokens.len() {
        Ok(Seq::empty())
    } else {
        match item_at(tokens, pos) {
            Err(e) => Err(e),
            Ok((name, p)) => if pos < p <= tokens.len() {
                match items_from(tokens, p) {
                    Err(e) => Err(e),
                    Ok(rest) => Ok(names_of(name) + rest),
                }
            } else {
                Ok(names_of(name))
            },
        }
    }
}

/// The names that the filtered `tokens` declare, or why the scan fails.
pub open spec fn declared_in(tokens: Seq<Lexeme>) -> Result<Seq<Seq<char>>, ScanFailure> {
    items_from(tokens, 0)
}


/// A span ends behind where it starts, and within the input.
pub proof fn lemma_span_end_bounds(tokens: Seq<Lexeme>, pos: int, closer: char, angle: bool)
    ensures
        span_end(tokens, pos, closer, angle) matches Some(p) ==> pos < p <= tokens.len(),
    decreases tokens.len() - pos,
{
    if pos < 0 || pos >= tokens.len() {
    } else if tokens[pos].is_operator(closer) {
    } else {
        match opened_by(tokens[pos], angle) {
            Some(inner) => {
                lemma_span_end_bounds(tokens, pos + 1, inner.0, inner.1);
                match span_end(tokens, pos + 1, inner.0, inner.1) {
                    Some(p) => {
                        lemma_span_end_bounds(tokens, p, closer, angle);
                    },
                    None => {},
                }
            },
            None => {
                lemma_span_end_bounds(tokens, pos + 1, closer, angle);
            },
        }
    }
}

/// A balanced pair ends behind its opening bracket, and within the input.
pub proof fn lemma_balanced_bounds(
    tokens: Seq<Lexeme>,
    pos: int,
    open: char,
    close: char,
    angle: bool,
)
    ensures
        balanced(tokens, pos, open, close, angle) matches Ok(p) ==> pos + 1 < p <= tokens.len(),
{
    lemma_span_end_bounds(tokens, pos + 1, close, angle);
}

/// Skipping to an operator never moves back, nor past the end.
pub proof fn lemma_skipped_to_bounds(tokens: Seq<Lexeme>, pos: int, target: char)
    requires
        0 <= pos <= tokens.len(),
    ensures
        pos <= skipped_to(tokens, pos, target) <= tokens.len(),
{
    lemma_span_end_bounds(tokens, pos, target, false);
}

/// An attribute ends behind its keyword, and within the input.
pub proof fn lemma_attribute_end_bounds(tokens: Seq<Lexeme>, pos: int)
    ensures
        attribute_end(tokens, pos) matches Ok(p) ==> pos + 2 < p <= tokens.len(),
{
    lemma_balanced_bounds(tokens, pos + 1, '(', ')', false);
}

/// What ends a function ends behind where it starts, and within the input.
pub proof fn lemma_body_end_bounds(tokens: Seq<Lexeme>, pos: int, otherwise: Expected)
    ensures
        body_end(tokens, pos, otherwise) matches Ok(p) ==> pos < p <= tokens.len(),
{
    lemma_balanced_bounds(tokens, pos, '{', '}', false);
}

/// A function ends behind its parameter list, and within the input.
pub proof fn lemma_function_end_bounds(tokens: Seq<Lexeme>, pos: int)
    ensures
        function_end(tokens, pos) matches Ok(p) ==> pos + 2 < p <= tokens.len(),
{
    lemma_balanced_bounds(tokens, pos, '(', ')', false);
    match balanced(tokens, pos, '(', ')', false) {
        Err(_) => {},
        Ok(p) => {
            lemma_attribute_end_bounds(tokens, p);
            lemma_body_end_bounds(tokens, p, Expected::FunctionTail);
            match attribute_end(tokens, p) {
                Err(_) => {},
                Ok(q) => {
                    lemma_body_end_bounds(tokens, q, Expected::FunctionBody);
                },
            }
        },
    }
}

/// The head of a declaration ends at a terminal operator, at or behind where
/// it starts.
pub proof fn lemma_head_end_bounds(tokens: Seq<Lexeme>, pos: int, candidate: Seq<char>)
    ensures
        head_end(tokens, pos, candidate) matches Ok(r) ==> 0 <= pos <= r.1 < tokens.len()
            && is_terminal(tokens[r.1]),
    decreases tokens.len() - pos,
{
    if pos < 0 || pos >= tokens.len() {
    } else {
        let t = tokens[pos];
        if is_keyword(t, Keyword::Attribute) {
            match attribute_end(tokens, pos) {
                Err(_) => {},
                Ok(p) => {
                    if pos < p <= tokens.len() {
                        lemma_head_end_bounds(tokens, p, candidate);
                    }
                },
            }
        } else if t.is_identifier("operator"@) {
            if pos + 1 < tokens.len() {
                lemma_head_end_bounds(tokens, pos + 1, name_at_operator(tokens, pos));
            }
        } else if t.kind == TokenKind::Identifier {
            lemma_head_end_bounds(tokens, pos + 1, t.text);
        } else if is_decoration(t) {
            lemma_head_end_bounds(tokens, pos + 1, candidate);
        } else if t.is_operator('<') {
            match balanced(tokens, pos, '<', '>', true) {
                Err(_) => {},
                Ok(p) => {
                    if pos < p <= tokens.len() {
                        lemma_head_end_bounds(tokens, p, candidate);
                    }
                },
            }
        }
    }
}

/// The tail of a class head ends at or behind where it starts, and within
/// the input; where it ends before the end, `;` or `{` stands there.
pub proof fn lemma_class_tail_end_bounds(tokens: Seq<Lexeme>, pos: int)
    requires
        0 <= pos <= tokens.len(),
    ensures
        pos <= class_tail_end(tokens, pos) <= tokens.len(),
        class_tail_end(tokens, pos) == tokens.len() || operator_at(
            tokens,
            class_tail_end(tokens, pos),
            ';',
        ) || operator_at(tokens, class_tail_end(tokens, pos), '{'),
    decreases tokens.len() - pos,
{
    if pos >= tokens.len() {
    } else if tokens[pos].is_operator(';') || tokens[pos].is_operator('{') {
    } else {
        lemma_class_tail_end_bounds(tokens, pos + 1);
    }
}

/// A class head ends behind its keyword, and within the input.
pub proof fn lemma_class_head_bounds(tokens: Seq<Lexeme>, pos: int)
    ensures
        class_head_at(tokens, pos) matches Ok(r) ==> pos < r.1 <= tokens.len(),
{
    if keyword_at(tokens, pos, Keyword::ClassOrStruct) && pos + 1 < tokens.len() {
        let from = if tokens[pos + 1].kind == TokenKind::Identifier {
            pos + 2
        } else {
            pos + 1
        };
        lemma_class_tail_end_bounds(tokens, from);
        lemma_balanced_bounds(tokens, class_tail_end(tokens, from), '{', '}', false);
    }
}

/// Every top-level item ends behind where it starts, and within the input.
pub proof fn lemma_item_bounds(tokens: Seq<Lexeme>, pos: int)
    ensures
        item_at(tokens, pos) matches Ok(r) ==> 0 <= pos < r.1 <= tokens.len(),
{
    if 0 <= pos < tokens.len() {
        lemma_balanced_bounds(tokens, pos + 1, '<', '>', true);
        lemma_skipped_to_bounds(tokens, pos + 1, ';');
        lemma_class_head_bounds(tokens, pos);
        lemma_class_head_bounds(tokens, pos + 1);
        lemma_head_end_bounds(tokens, pos, Seq::empty());
        lemma_head_end_bounds(tokens, pos + 1, Seq::empty());
        lemma_balanced_bounds(tokens, pos, '{', '}', false);
        match head_end(tokens, pos, Seq::empty()) {
            Err(_) => {},
            Ok(r) => {
                lemma_skipped_to_bounds(tokens, r.1, ';');
                lemma_function_end_bounds(tokens, r.1);
            },
        }
    }
}


/// Whether the scan that starts at `from` reads an item that starts at
/// `pos`.
pub open spec fn reads_item_at(tokens: Seq<Lexeme>, from: int, pos: int) -> bool
    decreases tokens.len() - from,
{
    if from < 0 || from >= tokens.len() || pos < from {
        false
    } else if from == pos {
        true
    } else {
        match item_at(tokens, from) {
            Ok(step) => from < step.1 <= tokens.len() && reads_item_at(tokens, step.1, pos),
            Err(_) => false,
        }
    }
}

/// Where an item cannot be read, the whole scan fails as that item does: a
/// failure is never turned into a shorter list of names.
pub proof fn lemma_failure_is_final(tokens: Seq<Lexeme>, from: int, pos: int)
    requires
        reads_item_at(tokens, from, pos),
        item_at(tokens, pos) is Err,
    ensures
        items_from(tokens, from) == Err::<Seq<Seq<char>>, ScanFailure>(
            item_at(tokens, pos)->Err_0,
        ),
    decreases tokens.len() - from,
{
    if from != pos {
        match item_at(tokens, from) {
            Ok(step) => {
                lemma_failure_is_final(tokens, step.1, pos);
            },
            Err(_) => {},
        }
    }
}

/// Whether the token at `pos` starts a variable or a function: an identifier
/// that is none of the words that introduce other items.
pub open spec fn starts_declaration(tokens: Seq<Lexeme>, pos: int) -> bool {
    &&& 0 <= pos < tokens.len()
    &&& tokens[pos].kind == TokenKind::Identifier
    &&& !is_keyword(tokens[pos], Keyword::Template)
    &&& !is_keyword(tokens[pos], Keyword::Using)
    &&& !is_keyword(tokens[pos], Keyword::ClassOrStruct)
    &&& !is_keyword(tokens[pos], Keyword::Typedef)
}

/// A function whose parameter list is never closed has the whole scan fail
/// at the end of the input, where the `)` is missing: no names are given,
/// neither its own nor those declared before it.
pub proof fn lemma_unclosed_parameter_list_fails(tokens: Seq<Lexeme>, pos: int, open: int)
    requires
        reads_item_at(tokens, 0, pos),
        starts_declaration(tokens, pos),
        head_end(tokens, pos, Seq::empty()) matches Ok(head) && head.1 == open,
        tokens[open].is_operator('('),
        span_end(tokens, open + 1, ')', false) is None,
    ensures
        declared_in(tokens) == Err::<Seq<Seq<char>>, ScanFailure>(
            failure_at(tokens, tokens.len() as int, Expected::Operator(')')),
        ),
{
    lemma_head_end_bounds(tokens, pos, Seq::empty());
    assert(tokens[open].text[0] == '(');
    assert(seq![';'][0] == ';' && seq!['='][0] == '=');
    lemma_failure_is_final(tokens, 0, pos);
}

} // verus!
