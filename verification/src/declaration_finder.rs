//! Finding the names that a C or C++ source declares at its top level.
use crate::preprocessor::{collect_definitions, definitions};
use crate::scan_error::{failure_at, Expected, Keyword, ScanError, ScanFailure};
use crate::scan_model::{
    attribute_end, balanced, behind_keyword, behind_operator, body_end, class_at, class_head_at,
    class_tail_end, declaration_at, declared_in, function_end, head_end, item_at, items_from,
    keyword_at, lemma_attribute_end_bounds, lemma_balanced_bounds, lemma_class_head_bounds,
    lemma_class_tail_end_bounds, lemma_head_end_bounds, lemma_item_bounds,
    lemma_skipped_to_bounds, lemma_span_end_bounds, named, names_of, opened_by, operator_at,
    plain_item_at, skipped_to, span_end, spans_end, template_end, typedef_at, using_at, Frame,
    Step,
};
use crate::token_filter::{filter_tokens, filtered};
use crate::tokenizer::{lex, tokenize, Lexeme, Token, TokenKind};
use vstd::prelude::*;

verus! {

/// A cursor over filtered tokens, and the names found so far.
pub struct DeclarationFinder {
    /// The tokens that are scanned.
    pub tokens: Vec<Token>,
    /// The index of the current token.
    pub pos: usize,
    /// The declared names, in the order in which they were found.
    pub declarations: Vec<String>,
}

/// The name that an optional string stands for.
pub open spec fn name_view(name: Option<String>) -> Option<Seq<char>> {
    match name {
        Some(s) => Some(s@),
        None => None,
    }
}

/// The names that the source text `text` declares: the macros that its
/// `#define` directives introduce, then the names that its top-level items
/// declare; or the failure of the scan of those items.
pub open spec fn declarations_of(text: Seq<char>) -> Result<Seq<Seq<char>>, ScanFailure> {
    match declared_in(filtered(lex(text))) {
        Err(e) => Err(e),
        Ok(names) => Ok(definitions(lex(text)) + names),
    }
}

impl DeclarationFinder {
    /// The cursor stands at a token or at the end of the input.
    pub open spec fn wf(self) -> bool {
        self.pos <= self.tokens.len()
    }

    /// The tokens as mathematical values.
    pub open spec fn lexemes(self) -> Seq<Lexeme> {
        self.tokens.deep_view()
    }

    /// The names found so far as mathematical values.
    pub open spec fn names(self) -> Seq<Seq<char>> {
        self.declarations.deep_view()
    }

    /// `self` is `before` with the cursor moved as `outcome` says, and `r`
    /// reports that outcome. A failure moves nothing.
    pub open spec fn moved(
        self,
        before: Self,
        outcome: Result<int, ScanFailure>,
        r: Result<(), ScanError>,
    ) -> bool {
        &&& self.wf()
        &&& self.tokens == before.tokens
        &&& self.declarations == before.declarations
        &&& match outcome {
            Ok(p) => r is Ok && self.pos == p,
            Err(e) => self.pos == before.pos && (r matches Err(x) && x@ == e),
        }
    }

    /// `self` is `before` with the cursor moved and the name added as
    /// `outcome` says, and `r` reports that outcome. A failure changes nothing.
    pub open spec fn recorded(self, before: Self, outcome: Step, r: Result<(), ScanError>) -> bool {
        &&& self.wf()
        &&& self.tokens == before.tokens
        &&& match outcome {
            Ok(step) => {
                &&& r is Ok
                &&& self.pos == step.1
                &&& self.names() == before.names() + names_of(step.0)
            },
            Err(e) => {
                &&& self.pos == before.pos
                &&& self.declarations == before.declarations
                &&& r matches Err(x) && x@ == e
            },
        }
    }

    /// `self` is `before` with the cursor moved as `outcome` says, and `r`
    /// reports that outcome with the name it gives. A failure moves nothing.
    pub open spec fn read(
        self,
        before: Self,
        outcome: Step,
        r: Result<Option<String>, ScanError>,
    ) -> bool {
        &&& self.wf()
        &&& self.tokens == before.tokens
        &&& self.declarations == before.declarations
        &&& match outcome {
            Ok(step) => self.pos == step.1 && (r matches Ok(name) && name_view(name) == step.0),
            Err(e) => self.pos == before.pos && (r matches Err(x) && x@ == e),
        }
    }

    /// A finder at the start of `tokens`, with no name found.
    pub fn new(tokens: Vec<Token>) -> (finder: DeclarationFinder)
        ensures
            finder.tokens == tokens,
            finder.pos == 0,
            finder.declarations@.len() == 0,
            finder.wf(),
    {
        DeclarationFinder { tokens, pos: 0, declarations: Vec::new() }
    }

    /// Whether the cursor is at the end of the input.
    pub fn eof(&self) -> (b: bool)
        ensures
            b == (self.pos >= self.tokens.len()),
    {
        self.pos >= self.tokens.len()
    }

    /// The current token.
    pub fn token(&self) -> (t: &Token)
        requires
            self.pos < self.tokens.len(),
        ensures
            t@ == self.lexemes()[self.pos as int],
    {
        &self.tokens[self.pos]
    }

    /// Moves the cursor to the next token.
    pub fn skip_token(&mut self)
        requires
            old(self).pos < old(self).tokens.len(),
        ensures
            final(self).pos == old(self).pos + 1,
            final(self).tokens == old(self).tokens,
            final(self).declarations == old(self).declarations,
    {
        self.pos += 1;
    }

    /// Whether the operator spelled `c` stands at `pos`.
    pub fn has_operator_at(&self, pos: usize, c: char) -> (b: bool)
        ensures
            b == operator_at(self.lexemes(), pos as int, c),
    {
        pos < self.tokens.len() && self.tokens[pos].is_operator(c)
    }

    /// Whether `keyword` stands at `pos`.
    pub fn has_keyword_at(&self, pos: usize, keyword: Keyword) -> (b: bool)
        ensures
            b == keyword_at(self.lexemes(), pos as int, keyword),
    {
        if pos >= self.tokens.len() {
            return false;
        }
        let t = &self.tokens[pos];
        match keyword {
            Keyword::Attribute => t.is_identifier("__attribute__"),
            Keyword::Template => t.is_identifier("template"),
            Keyword::Using => t.is_identifier("using"),
            Keyword::Typedef => t.is_identifier("typedef"),
            Keyword::ClassOrStruct => t.is_identifier("class") || t.is_identifier("struct"),
        }
    }

    /// The error for not finding `expected` at `position`.
    pub fn fail(&self, position: usize, expected: Expected) -> (e: ScanError)
        ensures
            e@ == failure_at(self.lexemes(), position as int, expected),
    {
        ScanError::at(&self.tokens, position, expected)
    }

    /// Skips the operator spelled `operator`, which must be the current token.
    pub fn skip_operator(&mut self, operator: char) -> (r: Result<(), ScanError>)
        requires
            old(self).wf(),
        ensures
            final(self).moved(
                *old(self),
                behind_operator(old(self).lexemes(), old(self).pos as int, operator),
                r,
            ),
    {
        if self.has_operator_at(self.pos, operator) {
            self.pos += 1;
            Ok(())
        } else {
            Err(self.fail(self.pos, Expected::Operator(operator)))
        }
    }

    /// Skips `identifier`, which must be the current token.
    pub fn skip_identifier(&mut self, identifier: Keyword) -> (r: Result<(), ScanError>)
        requires
            old(self).wf(),
        ensures
            final(self).moved(
                *old(self),
                behind_keyword(old(self).lexemes(), old(self).pos as int, identifier),
                r,
            ),
    {
        if self.has_keyword_at(self.pos, identifier) {
            self.pos += 1;
            Ok(())
        } else {
            Err(self.fail(self.pos, Expected::Keyword(identifier)))
        }
    }

    /// The span that the token at `pos` opens, if it opens one.
    pub fn opens(&self, pos: usize, angle: bool) -> (r: Option<(char, bool)>)
        requires
            pos < self.tokens.len(),
        ensures
            r == opened_by(self.lexemes()[pos as int], angle),
    {
        let t = &self.tokens[pos];
        if t.is_operator('(') {
            Some((')', false))
        } else if t.is_operator('{') {
            Some(('}', false))
        } else if t.is_operator('[') {
            Some((']', false))
        } else if angle && t.is_operator('<') {
            Some(('>', true))
        } else {
            None
        }
    }

    /// Finds the position behind the first `closer` at or after `start` that
    /// stands in no nested span. The spans that are open are kept on a stack,
    /// so that deep nesting costs memory and no call depth.
    pub fn find_span_end(&self, start: usize, closer: char, angle: bool) -> (r: Option<usize>)
        ensures
            match span_end(self.lexemes(), start as int, closer, angle) {
                Some(p) => r == Some(p as usize) && start < p <= self.tokens.len(),
                None => r is None,
            },
    {
        let ghost tokens = self.lexemes();
        let mut stack: Vec<(char, bool)> = Vec::new();
        stack.push((closer, angle));
        let mut pos: usize = start;
        proof {
            assert(stack@.drop_last() =~= Seq::<Frame>::empty());
            lemma_span_end_bounds(tokens, start as int, closer, angle);
            match span_end(tokens, start as int, closer, angle) {
                Some(p) => {
                    assert(spans_end(tokens, p, stack@.drop_last()) == Some(p));
                },
                None => {},
            }
        }
        while pos < self.tokens.len()
            invariant
                tokens == self.lexemes(),
                start <= pos,
                stack@.len() >= 1,
                spans_end(tokens, pos as int, stack@) == span_end(
                    tokens,
                    start as int,
                    closer,
                    angle,
                ),
                span_end(tokens, start as int, closer, angle) matches Some(p) ==> start < p
                    <= tokens.len(),
            decreases self.tokens.len() - pos,
        {
            let top = stack[stack.len() - 1];
            let ghost before = stack@;
            let ghost here = pos as int;
            proof {
                assert(spans_end(tokens, here, before) == match span_end(
                    tokens,
                    here,
                    top.0,
                    top.1,
                ) {
                    Some(p) => spans_end(tokens, p, before.drop_last()),
                    None => None,
                });
            }
            if self.tokens[pos].is_operator(top.0) {
                stack.pop();
                pos += 1;
                proof {
                    assert(stack@ =~= before.drop_last());
                }
                if stack.len() == 0 {
                    return Some(pos);
                }
            } else {
                match self.opens(pos, top.1) {
                    Some(inner) => {
                        stack.push(inner);
                        proof {
                            assert(stack@.drop_last() =~= before);
                            assert(stack@.last() == inner);
                            lemma_span_end_bounds(tokens, here + 1, inner.0, inner.1);
                            assert(spans_end(tokens, here + 1, stack@) == match span_end(
                                tokens,
                                here + 1,
                                inner.0,
                                inner.1,
                            ) {
                                Some(p) => spans_end(tokens, p, before),
                                None => None,
                            });
                            match span_end(tokens, here + 1, inner.0, inner.1) {
                                Some(p) => {
                                    assert(spans_end(tokens, p, before) == match span_end(
                                        tokens,
                                        p,
                                        top.0,
                                        top.1,
                                    ) {
                                        Some(q) => spans_end(tokens, q, before.drop_last()),
                                        None => None,
                                    });
                                },
                                None => {},
                            }
                        }
                        pos += 1;
                    },
                    None => {
                        proof {
                            assert(spans_end(tokens, here + 1, before) == match span_end(
                                tokens,
                                here + 1,
                                top.0,
                                top.1,
                            ) {
                                Some(p) => spans_end(tokens, p, before.drop_last()),
                                None => None,
                            });
                        }
                        pos += 1;
                    },
                }
            }
        }
        proof {
            assert(spans_end(tokens, pos as int, stack@) is None);
        }
        None
    }

    /// Skips a balanced pair of brackets. The cursor must be at the opening
    /// bracket; it ends behind the closing bracket that matches it, whatever
    /// brackets are nested in between.
    pub fn skip_bracket_pair(&mut self, opening_bracket: char, closing_bracket: char) -> (r: Result<
        (),
        ScanError,
    >)
        requires
            old(self).wf(),
        ensures
            final(self).moved(
                *old(self),
                balanced(
                    old(self).lexemes(),
                    old(self).pos as int,
                    opening_bracket,
                    closing_bracket,
                    false,
                ),
                r,
            ),
    {
        self.skip_pair(opening_bracket, closing_bracket, false)
    }

    /// Skips a balanced pair, inside which `<` opens a nested span where
    /// `angle` holds.
    pub fn skip_pair(&mut self, open: char, close: char, angle: bool) -> (r: Result<
        (),
        ScanError,
    >)
        requires
            old(self).wf(),
        ensures
            final(self).moved(
                *old(self),
                balanced(old(self).lexemes(), old(self).pos as int, open, close, angle),
                r,
            ),
    {
        if !self.has_operator_at(self.pos, open) {
            return Err(self.fail(self.pos, Expected::Operator(open)));
        }
        match self.find_span_end(self.pos + 1, close, angle) {
            Some(p) => {
                self.pos = p;
                Ok(())
            },
            None => Err(self.fail(self.tokens.len(), Expected::Operator(close))),
        }
    }

    /// Skips what stands between `<` and the `>` that matches it, both
    /// included. The cursor must be at the `<`.
    pub fn skip_template_brackets(&mut self) -> (r: Result<(), ScanError>)
        requires
            old(self).wf(),
        ensures
            final(self).moved(
                *old(self),
                balanced(old(self).lexemes(), old(self).pos as int, '<', '>', true),
                r,
            ),
    {
        self.skip_pair('<', '>', true)
    }

    /// Skips to behind the next `operator` outside nested brackets, or to the
    /// end of the input where there is none.
    pub fn skip_to_operator(&mut self, operator: char)
        requires
            old(self).wf(),
        ensures
            final(self).wf(),
            final(self).tokens == old(self).tokens,
            final(self).declarations == old(self).declarations,
            final(self).pos == skipped_to(old(self).lexemes(), old(self).pos as int, operator),
            old(self).pos <= final(self).pos,
    {
        proof {
            lemma_skipped_to_bounds(self.lexemes(), self.pos as int, operator);
        }
        match self.find_span_end(self.pos, operator, false) {
            Some(p) => {
                self.pos = p;
            },
            None => {
                self.pos = self.tokens.len();
            },
        }
    }

    /// Skips `__attribute__` and the bracket pair behind it.
    pub fn skip_attribute(&mut self) -> (r: Result<(), ScanError>)
        requires
            old(self).wf(),
        ensures
            final(self).moved(
                *old(self),
                attribute_end(old(self).lexemes(), old(self).pos as int),
                r,
            ),
    {
        let start = self.pos;
        match self.skip_identifier(Keyword::Attribute) {
            Err(e) => Err(e),
            Ok(()) => match self.skip_bracket_pair('(', ')') {
                Err(e) => {
                    self.pos = start;
                    Err(e)
                },
                Ok(()) => Ok(()),
            },
        }
    }

    /// Skips `;` or a body in curly brackets; reports `otherwise` where
    /// neither stands at the cursor.
    pub fn skip_body(&mut self, otherwise: Expected) -> (r: Result<(), ScanError>)
        requires
            old(self).wf(),
        ensures
            final(self).moved(
                *old(self),
                body_end(old(self).lexemes(), old(self).pos as int, otherwise),
                r,
            ),
    {
        if self.has_operator_at(self.pos, ';') {
            self.pos += 1;
            Ok(())
        } else if self.has_operator_at(self.pos, '{') {
            self.skip_bracket_pair('{', '}')
        } else {
            Err(self.fail(self.pos, otherwise))
        }
    }

    /// Skips a function from its parameter list on: the list, one attribute
    /// if there is one, and then `;` or the body. The cursor must be at `(`.
    pub fn skip_function(&mut self) -> (r: Result<(), ScanError>)
        requires
            old(self).wf(),
        ensures
            final(self).moved(
                *old(self),
                function_end(old(self).lexemes(), old(self).pos as int),
                r,
            ),
    {
        let start = self.pos;
        match self.skip_bracket_pair('(', ')') {
            Err(e) => {
                return Err(e);
            },
            Ok(()) => {},
        }
        let tail = if self.has_keyword_at(self.pos, Keyword::Attribute) {
            match self.skip_attribute() {
                Err(e) => {
                    self.pos = start;
                    return Err(e);
                },
                Ok(()) => {},
            }
            self.skip_body(Expected::FunctionBody)
        } else {
            self.skip_body(Expected::FunctionTail)
        };
        match tail {
            Err(e) => {
                self.pos = start;
                Err(e)
            },
            Ok(()) => Ok(()),
        }
    }

    /// The text of the token at `index`, or nothing where it is empty.
    pub fn name_at(&self, index: usize) -> (name: Option<String>)
        requires
            index < self.tokens.len(),
        ensures
            name_view(name) == named(self.lexemes()[index as int].text),
    {
        let text = self.tokens[index].text();
        if text.as_str().is_empty() {
            None
        } else {
            Some(text.clone())
        }
    }

    /// Reads the head of a declaration: returns the last identifier before
    /// the `;`, `(` or `=` that ends the head, and leaves the cursor at that
    /// operator. Attributes, template arguments and the decorations `*`, `&`
    /// and `:` are passed over; the word `operator` is a name only before
    /// `;`, `(` or a single `=`.
    pub fn get_declaration(&mut self) -> (r: Result<Option<String>, ScanError>)
        requires
            old(self).wf(),
        ensures
            final(self).read(
                *old(self),
                declaration_at(old(self).lexemes(), old(self).pos as int),
                r,
            ),
    {
        let start = self.pos;
        let ghost tokens = self.lexemes();
        let mut last: Option<usize> = None;
        loop
            invariant
                self.wf(),
                self.tokens == old(self).tokens,
                self.declarations == old(self).declarations,
                tokens == self.lexemes(),
                start == old(self).pos,
                start <= self.pos,
                last matches Some(i) ==> i < self.tokens.len(),
                head_end(tokens, start as int, Seq::empty()) == head_end(
                    tokens,
                    self.pos as int,
                    match last {
                        Some(i) => tokens[i as int].text,
                        None => Seq::empty(),
                    },
                ),
            decreases self.tokens.len() - self.pos,
        {
            if self.eof() {
                let e = self.fail(self.pos, Expected::DeclarationHead);
                self.pos = start;
                return Err(e);
            }
            let here = self.pos;
            if self.has_keyword_at(here, Keyword::Attribute) {
                proof {
                    lemma_attribute_end_bounds(tokens, here as int);
                }
                match self.skip_attribute() {
                    Err(e) => {
                        self.pos = start;
                        return Err(e);
                    },
                    Ok(()) => {},
                }
            } else if self.tokens[here].is_identifier("operator") {
                if here + 1 >= self.tokens.len() {
                    let e = self.fail(here + 1, Expected::DeclarationHead);
                    self.pos = start;
                    return Err(e);
                }
                let next = &self.tokens[here + 1];
                let is_name = if next.is_operator(';') || next.is_operator('(') {
                    true
                } else if next.is_operator('=') {
                    !self.has_operator_at(here + 2, '=')
                } else {
                    false
                };
                last = if is_name {
                    Some(here)
                } else {
                    None
                };
                self.pos += 1;
            } else if self.tokens[here].kind() == TokenKind::Identifier {
                last = Some(here);
                self.pos += 1;
            } else if self.has_operator_at(here, '*') || self.has_operator_at(here, ':')
                || self.has_operator_at(here, '&') {
                self.pos += 1;
            } else if self.has_operator_at(here, '<') {
                proof {
                    lemma_balanced_bounds(tokens, here as int, '<', '>', true);
                }
                match self.skip_template_brackets() {
                    Err(e) => {
                        self.pos = start;
                        return Err(e);
                    },
                    Ok(()) => {},
                }
            } else if self.has_operator_at(here, ';') || self.has_operator_at(here, '(')
                || self.has_operator_at(here, '=') {
                let name = match last {
                    Some(i) => self.name_at(i),
                    None => None,
                };
                return Ok(name);
            } else {
                let e = self.fail(here, Expected::DeclarationHead);
                self.pos = start;
                return Err(e);
            }
        }
    }

    /// Adds `name`, where there is one, to the names found.
    pub fn record(&mut self, name: Option<String>)
        ensures
            final(self).tokens == old(self).tokens,
            final(self).pos == old(self).pos,
            final(self).names() == old(self).names() + names_of(name_view(name)),
    {
        let ghost before = self.names();
        match name {
            Some(s) => {
                self.declarations.push(s);
                proof {
                    assert(self.names() =~= before + seq![s@]);
                }
            },
            None => {
                proof {
                    assert(self.names() =~= before + Seq::<Seq<char>>::empty());
                }
            },
        }
    }

    /// Reads `using`: the identifier behind it is recorded as the declared
    /// alias, unless it is `namespace`; the rest is skipped to `;`.
    pub fn process_using(&mut self) -> (r: Result<(), ScanError>)
        requires
            old(self).wf(),
        ensures
            final(self).recorded(
                *old(self),
                using_at(old(self).lexemes(), old(self).pos as int),
                r,
            ),
    {
        match self.skip_identifier(Keyword::Using) {
            Err(e) => {
                return Err(e);
            },
            Ok(()) => {},
        }
        if self.eof() || self.token().kind() != TokenKind::Identifier {
            let e = self.fail(self.pos, Expected::Identifier);
            self.pos = self.pos - 1;
            return Err(e);
        }
        let name = if self.token().is_identifier("namespace") {
            None
        } else {
            Some(self.token().text().clone())
        };
        self.skip_to_operator(';');
        self.record(name);
        Ok(())
    }

    /// Moves the cursor to the next `;` or `{`, or to the end of the input.
    pub fn skip_class_tail(&mut self)
        requires
            old(self).wf(),
        ensures
            final(self).wf(),
            final(self).tokens == old(self).tokens,
            final(self).declarations == old(self).declarations,
            final(self).pos == class_tail_end(old(self).lexemes(), old(self).pos as int),
    {
        let ghost tokens = self.lexemes();
        let ghost start = self.pos as int;
        while self.pos < self.tokens.len() && !self.has_operator_at(self.pos, ';')
            && !self.has_operator_at(self.pos, '{')
            invariant
                self.wf(),
                self.tokens == old(self).tokens,
                self.declarations == old(self).declarations,
                tokens == self.lexemes(),
                class_tail_end(tokens, start) == class_tail_end(tokens, self.pos as int),
            decreases self.tokens.len() - self.pos,
        {
            self.pos += 1;
        }
    }

    /// Reads a class or struct up to, and without, the `;` that ends it, and
    /// returns the identifier behind the keyword, where one stands there. A
    /// forward declaration leaves the cursor at its `;`, a definition behind
    /// its body.
    pub fn read_class_head(&mut self) -> (r: Result<Option<String>, ScanError>)
        requires
            old(self).wf(),
        ensures
            final(self).read(
                *old(self),
                class_head_at(old(self).lexemes(), old(self).pos as int),
                r,
            ),
    {
        let start = self.pos;
        match self.skip_identifier(Keyword::ClassOrStruct) {
            Err(e) => {
                return Err(e);
            },
            Ok(()) => {},
        }
        if self.eof() {
            let e = self.fail(self.pos, Expected::ClassName);
            self.pos = start;
            return Err(e);
        }
        let name = if self.token().kind() == TokenKind::Identifier {
            let s = self.token().text().clone();
            self.pos += 1;
            Some(s)
        } else {
            None
        };
        self.skip_class_tail();
        if self.eof() {
            let e = self.fail(self.pos, Expected::ClassBody);
            self.pos = start;
            return Err(e);
        }
        proof {
            lemma_class_tail_end_bounds(
                self.lexemes(),
                if name is Some {
                    start + 2
                } else {
                    start + 1
                },
            );
        }
        if !self.has_operator_at(self.pos, ';') {
            match self.skip_bracket_pair('{', '}') {
                Err(e) => {
                    self.pos = start;
                    return Err(e);
                },
                Ok(()) => {},
            }
        }
        Ok(name)
    }

    /// Reads a class or struct up to, and without, the `;` that ends it, and
    /// records its name.
    pub fn process_class_or_struct_without_semicolon(&mut self) -> (r: Result<(), ScanError>)
        requires
            old(self).wf(),
        ensures
            final(self).recorded(
                *old(self),
                class_head_at(old(self).lexemes(), old(self).pos as int),
                r,
            ),
    {
        match self.read_class_head() {
            Err(e) => Err(e),
            Ok(name) => {
                self.record(name);
                Ok(())
            },
        }
    }

    /// Skips the `;` that must stand behind what was read, and records
    /// `name`. Where no `;` stands there, the cursor goes back to `start`.
    pub fn finish_with_semicolon(&mut self, start: usize, name: Option<String>) -> (r: Result<
        (),
        ScanError,
    >)
        requires
            old(self).wf(),
            start <= old(self).pos,
        ensures
            final(self).wf(),
            final(self).tokens == old(self).tokens,
            match behind_operator(old(self).lexemes(), old(self).pos as int, ';') {
                Ok(p) => {
                    &&& r is Ok
                    &&& final(self).pos == p
                    &&& final(self).names() == old(self).names() + names_of(name_view(name))
                },
                Err(e) => {
                    &&& final(self).pos == start
                    &&& final(self).declarations == old(self).declarations
                    &&& r matches Err(x) && x@ == e
                },
            },
    {
        match self.skip_operator(';') {
            Err(e) => {
                self.pos = start;
                Err(e)
            },
            Ok(()) => {
                self.record(name);
                Ok(())
            },
        }
    }

    /// Reads a class or struct with the `;` that ends it, and records its
    /// name.
    pub fn process_class_or_struct(&mut self) -> (r: Result<(), ScanError>)
        requires
            old(self).wf(),
        ensures
            final(self).recorded(
                *old(self),
                class_at(old(self).lexemes(), old(self).pos as int),
                r,
            ),
    {
        let start = self.pos;
        proof {
            lemma_class_head_bounds(self.lexemes(), start as int);
        }
        match self.read_class_head() {
            Err(e) => Err(e),
            Ok(name) => self.finish_with_semicolon(start, name),
        }
    }

    /// Reads `typedef`: before `struct` or `class` the tag of that type is
    /// recorded and no `;` is asked for; else the name that the head of the
    /// declaration gives is recorded, and `;` must follow.
    pub fn process_typedef(&mut self) -> (r: Result<(), ScanError>)
        requires
            old(self).wf(),
        ensures
            final(self).recorded(
                *old(self),
                typedef_at(old(self).lexemes(), old(self).pos as int),
                r,
            ),
    {
        let start = self.pos;
        match self.skip_identifier(Keyword::Typedef) {
            Err(e) => {
                return Err(e);
            },
            Ok(()) => {},
        }
        if self.eof() || self.token().kind() != TokenKind::Identifier {
            let e = self.fail(self.pos, Expected::Identifier);
            self.pos = start;
            return Err(e);
        }
        if self.has_keyword_at(self.pos, Keyword::ClassOrStruct) {
            match self.read_class_head() {
                Err(e) => {
                    self.pos = start;
                    Err(e)
                },
                Ok(name) => {
                    self.record(name);
                    Ok(())
                },
            }
        } else {
            proof {
                lemma_head_end_bounds(self.lexemes(), start + 1, Seq::empty());
            }
            match self.get_declaration() {
                Err(e) => {
                    self.pos = start;
                    Err(e)
                },
                Ok(name) => self.finish_with_semicolon(start, name),
            }
        }
    }

    /// Reads `template` and the parameter list behind it.
    pub fn process_template(&mut self) -> (r: Result<(), ScanError>)
        requires
            old(self).wf(),
        ensures
            final(self).moved(
                *old(self),
                template_end(old(self).lexemes(), old(self).pos as int),
                r,
            ),
    {
        let start = self.pos;
        match self.skip_identifier(Keyword::Template) {
            Err(e) => Err(e),
            Ok(()) => match self.skip_template_brackets() {
                Err(e) => {
                    self.pos = start;
                    Err(e)
                },
                Ok(()) => Ok(()),
            },
        }
    }

    /// Reads a variable or a function: records the name that the head of the
    /// declaration gives, and skips `;`, an initializer up to `;`, or the
    /// rest of a function.
    pub fn process_declaration(&mut self) -> (r: Result<(), ScanError>)
        requires
            old(self).wf(),
        ensures
            final(self).recorded(
                *old(self),
                plain_item_at(old(self).lexemes(), old(self).pos as int),
                r,
            ),
    {
        let start = self.pos;
        proof {
            lemma_head_end_bounds(self.lexemes(), start as int, Seq::empty());
        }
        let name = match self.get_declaration() {
            Err(e) => {
                return Err(e);
            },
            Ok(name) => name,
        };
        if self.has_operator_at(self.pos, ';') {
            self.pos += 1;
        } else if self.has_operator_at(self.pos, '=') {
            self.skip_to_operator(';');
        } else {
            match self.skip_function() {
                Err(e) => {
                    self.pos = start;
                    return Err(e);
                },
                Ok(()) => {},
            }
        }
        self.record(name);
        Ok(())
    }

    /// Reads one top-level item, by the token at the cursor: a template
    /// header, `using`, a class or struct, `typedef`, a declaration, a bare
    /// block or an empty statement.
    pub fn process_item(&mut self) -> (r: Result<(), ScanError>)
        requires
            old(self).wf(),
        ensures
            final(self).recorded(
                *old(self),
                item_at(old(self).lexemes(), old(self).pos as int),
                r,
            ),
    {
        let ghost before = self.names();
        proof {
            assert(before + names_of(None) =~= before);
        }
        if self.eof() {
            return Err(self.fail(self.pos, Expected::TopLevelItem));
        }
        let here = self.pos;
        if self.has_keyword_at(here, Keyword::Template) {
            self.process_template()
        } else if self.has_keyword_at(here, Keyword::Using) {
            self.process_using()
        } else if self.has_keyword_at(here, Keyword::ClassOrStruct) {
            self.process_class_or_struct()
        } else if self.has_keyword_at(here, Keyword::Typedef) {
            self.process_typedef()
        } else if self.token().kind() == TokenKind::Identifier {
            self.process_declaration()
        } else if self.has_operator_at(here, '{') {
            self.skip_bracket_pair('{', '}')
        } else if self.has_operator_at(here, ';') {
            self.pos += 1;
            Ok(())
        } else {
            Err(self.fail(here, Expected::TopLevelItem))
        }
    }

    /// Reads top-level items until the input ends, and records the names
    /// they declare. A failure leaves the finder as it was.
    pub fn scan(&mut self) -> (r: Result<(), ScanError>)
        requires
            old(self).wf(),
        ensures
            final(self).wf(),
            final(self).tokens == old(self).tokens,
            match items_from(old(self).lexemes(), old(self).pos as int) {
                Ok(names) => {
                    &&& r is Ok
                    &&& final(self).pos == final(self).tokens.len()
                    &&& final(self).names() == old(self).names() + names
                },
                Err(e) => {
                    &&& final(self).pos == old(self).pos
                    &&& final(self).names() == old(self).names()
                    &&& r matches Err(x) && x@ == e
                },
            },
    {
        let start = self.pos;
        let count = self.declarations.len();
        let ghost tokens = self.lexemes();
        let ghost before = self.names();
        proof {
            assert(before + Seq::<Seq<char>>::empty() =~= before);
        }
        while !self.eof()
            invariant
                self.wf(),
                self.tokens == old(self).tokens,
                tokens == self.lexemes(),
                before == old(self).names(),
                start == old(self).pos,
                start <= self.pos,
                count == before.len(),
                self.names().len() >= count,
                self.names().subrange(0, count as int) == before,
                match items_from(tokens, start as int) {
                    Ok(names) => (items_from(tokens, self.pos as int) matches Ok(rest)
                        && self.names() + rest == before + names),
                    Err(e) => items_from(tokens, self.pos as int) == Err::<
                        Seq<Seq<char>>,
                        ScanFailure,
                    >(e),
                },
            decreases self.tokens.len() - self.pos,
        {
            let ghost found = self.names();
            proof {
                lemma_item_bounds(tokens, self.pos as int);
            }
            match self.process_item() {
                Err(e) => {
                    self.pos = start;
                    self.declarations.truncate(count);
                    proof {
                        assert(self.names() =~= before);
                    }
                    return Err(e);
                },
                Ok(()) => {
                    proof {
                        let step = item_at(tokens, self.pos as int);
                        assert(self.names().subrange(0, count as int) =~= before);
                    }
                },
            }
        }
        proof {
            assert(self.names() + Seq::<Seq<char>>::empty() =~= self.names());
        }
        Ok(())
    }

    /// Scans `file_content` from its start: the names of its macros come
    /// first, then the names that its top-level items declare. After a
    /// failure the finder holds the filtered tokens and no name.
    pub fn find_declarations(&mut self, file_content: &str) -> (r: Result<(), ScanError>)
        ensures
            final(self).wf(),
            final(self).lexemes() == filtered(lex(file_content@)),
            match declarations_of(file_content@) {
                Ok(names) => {
                    &&& r is Ok
                    &&& final(self).pos == final(self).tokens.len()
                    &&& final(self).names() == names
                },
                Err(e) => {
                    &&& final(self).pos == 0
                    &&& final(self).declarations@.len() == 0
                    &&& r matches Err(x) && x@ == e
                },
            },
    {
        let tokens = tokenize(file_content);
        self.declarations = collect_definitions(&tokens);
        self.tokens = filter_tokens(tokens);
        self.pos = 0;
        match self.scan() {
            Err(e) => {
                self.declarations = Vec::new();
                Err(e)
            },
            Ok(()) => Ok(()),
        }
    }
}

/// The names that `file_content` declares, in the order in which they are
/// found: the macros of its `#define` directives first, then the names of its
/// top-level items. A source that the scan cannot read gives the error and no
/// names.
pub fn try_find_declarations(file_content: &str) -> (r: Result<Vec<String>, ScanError>)
    ensures
        match declarations_of(file_content@) {
            Ok(names) => r matches Ok(found) && found.deep_view() == names,
            Err(e) => r matches Err(x) && x@ == e,
        },
{
    let mut d = DeclarationFinder::new(Vec::new());
    match d.find_declarations(file_content) {
        Err(e) => Err(e),
        Ok(()) => Ok(d.declarations),
    }
}

/// The names that `file_content` declares, for a source that the scan can
/// read.
pub fn find_declarations(file_content: &str) -> (names: Vec<String>)
    requires
        declarations_of(file_content@) is Ok,
    ensures
        Ok::<Seq<Seq<char>>, ScanFailure>(names.deep_view()) == declarations_of(file_content@),
{
    match try_find_declarations(file_content) {
        Ok(names) => names,
        Err(_) => vstd::pervasive::unreached(),
    }
}


/// The names of the macros come first among the declarations of a source, in
/// the order of their directives; the names found in the code follow.
pub proof fn lemma_macros_come_first(text: Seq<char>)
    ensures
        declarations_of(text) matches Ok(names) ==> definitions(lex(text)).is_prefix_of(names),
{
    match declared_in(filtered(lex(text))) {
        Ok(found) => {
            let macros = definitions(lex(text));
            assert((macros + found).subrange(0, macros.len() as int) =~= macros);
        },
        Err(_) => {},
    }
}

} // verus!
