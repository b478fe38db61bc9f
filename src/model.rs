//! The parser as a state machine over mathematical values.
use vstd::prelude::*;

use crate::tree::Tree;

verus! {

/// Why a parse failed.
#[derive(Debug, Clone, Copy, PartialEq, Eq, Structural)]
pub enum SExpressionParseError {
    /// An atom stands outside every form.
    UnexpectedText,
    /// A `)` has no open form to close.
    UnexpectedCloseBracket,
    /// Input ended while a form was still open.
    UnclosedBracket,
}

/// The state of the parser between two characters.
pub struct ParserModel {
    /// The atom or string literal being read, if any.
    pub pending: Option<Seq<char>>,
    /// Inside a line comment.
    pub in_comment: bool,
    /// Inside a string literal.
    pub in_string: bool,
    /// The elements gathered so far by each open form, innermost last.
    pub stack: Seq<Seq<Tree>>,
    /// The completed top-level forms, each given by its elements.
    pub roots: Seq<Seq<Tree>>,
}

/// The state after a step, or why the step failed.
pub type Step = Result<ParserModel, SExpressionParseError>;

/// The state before any character is read.
pub open spec fn initial_model() -> ParserModel {
    ParserModel {
        pending: None,
        in_comment: false,
        in_string: false,
        stack: Seq::empty(),
        roots: Seq::empty(),
    }
}

/// The characters that separate atoms.
pub open spec fn is_space(c: char) -> bool {
    c == ' ' || c == '\t' || c == '\n'
}

/// The pending text with `c` added at its end (a new text if none was pending).
pub open spec fn extend_pending(p: Option<Seq<char>>, c: char) -> Option<Seq<char>> {
    match p {
        Some(t) => Some(t.push(c)),
        None => Some(seq![c]),
    }
}

/// Moves the pending text, if any, into the innermost open form.
pub open spec fn flush_model(m: ParserModel) -> Step {
    match m.pending {
        None => Ok(m),
        Some(t) => if m.stack.len() == 0 {
            Err(SExpressionParseError::UnexpectedText)
        } else {
            Ok(ParserModel {
                pending: None,
                stack: m.stack.update(m.stack.len() - 1, m.stack.last().push(Tree::Atom(t))),
                ..m
            })
        },
    }
}

/// Closes the innermost open form: it joins its parent, or the roots if it has none.
pub open spec fn close_model(m: ParserModel) -> Step {
    if m.stack.len() == 0 {
        Err(SExpressionParseError::UnexpectedCloseBracket)
    } else {
        let top = m.stack.last();
        let rest = m.stack.drop_last();
        if rest.len() == 0 {
            Ok(ParserModel { stack: rest, roots: m.roots.push(top), ..m })
        } else {
            Ok(ParserModel {
                stack: rest.update(rest.len() - 1, rest.last().push(Tree::List(top))),
                ..m
            })
        }
    }
}

/// What reading the character `c` does to the state `m`.
pub open spec fn step_model(m: ParserModel, c: char) -> Step {
    if m.in_comment {
        Ok(ParserModel { in_comment: c != '\n', ..m })
    } else if m.in_string {
        Ok(ParserModel { pending: extend_pending(m.pending, c), in_string: c != '"', ..m })
    } else if c == '(' {
        Ok(ParserModel { stack: m.stack.push(Seq::empty()), ..m })
    } else if c == ')' {
        match flush_model(m) {
            Ok(f) => close_model(f),
            Err(e) => Err(e),
        }
    } else if c == ';' {
        Ok(ParserModel { in_comment: true, ..m })
    } else if c == '"' {
        Ok(ParserModel { pending: extend_pending(m.pending, c), in_string: true, ..m })
    } else if is_space(c) {
        flush_model(m)
    } else {
        Ok(ParserModel { pending: extend_pending(m.pending, c), ..m })
    }
}

/// The state after reading every character of `s`, in order, from `m`.
pub open spec fn run_model(m: ParserModel, s: Seq<char>) -> Step
    decreases s.len(),
{
    if s.len() == 0 {
        Ok(m)
    } else {
        match run_model(m, s.drop_last()) {
            Ok(p) => step_model(p, s.last()),
            Err(e) => Err(e),
        }
    }
}

/// The end of input: the pending text is flushed and no form may be left open.
pub open spec fn finish_model(m: ParserModel) -> Step {
    match flush_model(m) {
        Ok(f) => if f.stack.len() == 0 {
            Ok(f)
        } else {
            Err(SExpressionParseError::UnclosedBracket)
        },
        Err(e) => Err(e),
    }
}

/// The forest that a whole text parses to, each form given by its elements.
pub open spec fn parse_model(s: Seq<char>) -> Result<Seq<Seq<Tree>>, SExpressionParseError> {
    match run_model(initial_model(), s) {
        Ok(m) => match finish_model(m) {
            Ok(f) => Ok(f.roots),
            Err(e) => Err(e),
        },
        Err(e) => Err(e),
    }
}

/// Once a prefix fails, every longer text fails with the same error.
pub proof fn lemma_run_error_persists(m: ParserModel, s: Seq<char>, n: int)
    requires
        0 <= n <= s.len(),
        run_model(m, s.take(n)) is Err,
    ensures
        run_model(m, s) == run_model(m, s.take(n)),
    decreases s.len() - n,
{
    if n < s.len() {
        assert(s.take(n + 1).drop_last() =~= s.take(n));
        lemma_run_error_persists(m, s, n + 1);
    } else {
        assert(s.take(n) =~= s);
    }
}

} // verus!
