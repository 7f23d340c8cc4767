//! Emptying the string and character literals of a source text.
use vstd::prelude::*;

verus! {

/// Where the reader of literals stands.
#[derive(Clone, Copy, Debug, PartialEq, Eq, Structural)]
pub enum LiteralState {
    /// Outside any literal.
    Code,
    /// Inside a literal that this quote closes.
    Literal(char),
    /// Behind a backslash inside a literal that this quote closes.
    Escape(char),
}

/// Whether `c` opens a literal.
pub open spec fn is_quote(c: char) -> bool {
    c == '"' || c == '\''
}

/// The state in which the reader is after `c`.
pub open spec fn literal_step(state: LiteralState, c: char) -> LiteralState {
    match state {
        LiteralState::Code => if is_quote(c) {
            LiteralState::Literal(c)
        } else {
            LiteralState::Code
        },
        LiteralState::Literal(q) => if c == q {
            LiteralState::Code
        } else if c == '\\' {
            LiteralState::Escape(q)
        } else {
            LiteralState::Literal(q)
        },
        LiteralState::Escape(q) => LiteralState::Literal(q),
    }
}

/// Whether the reader, in `state`, keeps `c`: everything outside literals,
/// and the quote that closes one.
pub open spec fn is_kept(state: LiteralState, c: char) -> bool {
    match state {
        LiteralState::Code => true,
        LiteralState::Literal(q) => c == q,
        LiteralState::Escape(_) => false,
    }
}

/// What is left of `s` without the bodies of its literals, for a reader that
/// starts in `state`.
pub open spec fn strings_removed_from(s: Seq<char>, state: LiteralState) -> Seq<char>
    decreases s.len(),
{
    if s.len() == 0 {
        Seq::empty()
    } else {
        let rest = strings_removed_from(s.skip(1), literal_step(state, s[0]));
        if is_kept(state, s[0]) {
            seq![s[0]] + rest
        } else {
            rest
        }
    }
}

/// `text` with every string literal cut down to `""` and every character
/// literal to `''`. A backslash inside a literal hides the character behind
/// it. The text should hold no comments.
pub open spec fn strings_removed(text: Seq<char>) -> Seq<char> {
    strings_removed_from(text, LiteralState::Code)
}

impl LiteralState {
    /// Reads one character. Returns the next state and whether the character
    /// is kept.
    pub fn on_char(self, c: char) -> (r: (LiteralState, bool))
        ensures
            r.0 == literal_step(self, c),
            r.1 == is_kept(self, c),
    {
        match self {
            LiteralState::Code => if c == '"' || c == '\'' {
                (LiteralState::Literal(c), true)
            } else {
                (LiteralState::Code, true)
            },
            LiteralState::Literal(q) => if c == q {
                (LiteralState::Code, true)
            } else if c == '\\' {
                (LiteralState::Escape(q), false)
            } else {
                (LiteralState::Literal(q), false)
            },
            LiteralState::Escape(q) => (LiteralState::Literal(q), false),
        }
    }
}

/// Replaces the content of string and character literals by nothing, so
/// that `"abc"` becomes `""` and `'a'` becomes `''`. The text should hold no
/// comments.
pub fn remove_strings(file_content: &str) -> (result: String)
    ensures
        result@ == strings_removed(file_content@),
{
    let s = crate::text::chars_of(file_content);
    let mut result = String::new();
    let mut state = LiteralState::Code;
    proof {
        assert(s@.skip(0) =~= s@);
        assert(result@ + strings_removed(s@) =~= strings_removed(s@));
    }
    let mut i: usize = 0;
    while i < s.len()
        invariant
            i <= s.len(),
            s@ == file_content@,
            strings_removed(s@) == result@ + strings_removed_from(s@.skip(i as int), state),
        decreases s.len() - i,
    {
        let c = s[i];
        let ghost before = result@;
        proof {
            assert(s@.skip(i as int).skip(1) =~= s@.skip(i + 1));
        }
        let (next, kept) = state.on_char(c);
        if kept {
            result.push(c);
            proof {
                let rest = strings_removed_from(s@.skip(i + 1), next);
                assert(before + (seq![c] + rest) =~= before.push(c) + rest);
            }
        }
        state = next;
        i += 1;
    }
    proof {
        assert(result@ + Seq::<char>::empty() =~= result@);
    }
    result
}

} // verus!
