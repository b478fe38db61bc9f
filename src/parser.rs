//! The streaming parser, fed one character at a time.
use vstd::prelude::*;

use crate::model::{
    close_model, extend_pending, finish_model, flush_model, initial_model,
    lemma_run_error_persists, parse_model, run_model, step_model, ParserModel,
    SExpressionParseError,
};
use crate::tree::{forest_of, Node, NodeElement};

verus! {

/// Relies on String::push: the character is added at the end of the string.
#[verifier::external_body]
fn push_char(s: &mut String, c: char)
    ensures
        final(s)@ == old(s)@.push(c),
{
    s.push(c)
}

/// Parser state that is kept between characters.
pub struct SExpressionParser {
    parsing_text_element: Option<String>,
    in_comment: bool,
    in_string_literal: bool,
    stack: Vec<Node>,
    root_nodes: Vec<Node>,
}

impl View for SExpressionParser {
    type V = ParserModel;

    closed spec fn view(&self) -> ParserModel {
        ParserModel {
            pending: match self.parsing_text_element {
                Some(t) => Some(t@),
                None => None,
            },
            in_comment: self.in_comment,
            in_string: self.in_string_literal,
            stack: forest_of(self.stack@),
            roots: forest_of(self.root_nodes@),
        }
    }
}

impl SExpressionParser {
    /// A parser that has read nothing.
    pub fn new() -> (p: SExpressionParser)
        ensures
            p@ == initial_model(),
    {
        let p = SExpressionParser {
            parsing_text_element: None,
            in_comment: false,
            in_string_literal: false,
            stack: Vec::new(),
            root_nodes: Vec::new(),
        };
        assert(p@.stack =~= Seq::empty());
        assert(p@.roots =~= Seq::empty());
        p
    }

    /// Adds `c` to the pending text, starting one if none is pending.
    fn extend_text_element(&mut self, c: char)
        ensures
            final(self)@ == (ParserModel {
                pending: extend_pending(old(self)@.pending, c),
                ..old(self)@
            }),
    {
        match self.parsing_text_element.take() {
            Some(mut t) => {
                push_char(&mut t, c);
                self.parsing_text_element = Some(t);
            }
            None => {
                let mut t = String::new();
                push_char(&mut t, c);
                self.parsing_text_element = Some(t);
            }
        }
    }

    /// Appends `e` to the innermost open form.
    fn push_to_top(&mut self, e: NodeElement)
        requires
            old(self).stack.len() > 0,
        ensures
            final(self)@ == (ParserModel {
                stack: old(self)@.stack.update(
                    old(self)@.stack.len() - 1,
                    old(self)@.stack.last().push(e.tree()),
                ),
                ..old(self)@
            }),
    {
        let ghost e_tree = e.tree();
        let mut top = self.stack.pop().unwrap();
        let ghost old_top = top;
        top.elements.push(e);
        assert(top.trees() =~= old_top.trees().push(e_tree));
        self.stack.push(top);
        assert(self@.stack =~= old(self)@.stack.update(
            old(self)@.stack.len() - 1,
            old(self)@.stack.last().push(e_tree),
        ));
    }

    /// Moves the pending text, if any, into the innermost open form.
    fn finish_parsing_text_element(&mut self) -> (r: Result<(), SExpressionParseError>)
        ensures
            match flush_model(old(self)@) {
                Ok(m) => r is Ok && final(self)@ == m,
                Err(e) => r == Err::<(), SExpressionParseError>(e),
            },
    {
        match self.parsing_text_element.take() {
            Some(t) => {
                if self.stack.len() == 0 {
                    return Err(SExpressionParseError::UnexpectedText);
                }
                self.push_to_top(NodeElement::Text(t));
                Ok(())
            }
            None => Ok(()),
        }
    }

    /// Moves the innermost open form into its parent, or into the roots if it has none.
    fn close_node(&mut self) -> (r: Result<(), SExpressionParseError>)
        ensures
            match close_model(old(self)@) {
                Ok(m) => r is Ok && final(self)@ == m,
                Err(e) => r == Err::<(), SExpressionParseError>(e),
            },
    {
        let node = match self.stack.pop() {
            Some(node) => node,
            None => return Err(SExpressionParseError::UnexpectedCloseBracket),
        };
        proof {
            assert(forest_of(self.stack@) =~= old(self)@.stack.drop_last());
        }
        if self.stack.len() == 0 {
            self.root_nodes.push(node);
            assert(self@.roots =~= old(self)@.roots.push(node.trees()));
        } else {
            self.push_to_top(NodeElement::Node(node));
        }
        Ok(())
    }

    /// Reads one character.
    pub fn feed_char(&mut self, c: char) -> (r: Result<(), SExpressionParseError>)
        ensures
            match step_model(old(self)@, c) {
                Ok(m) => r is Ok && final(self)@ == m,
                Err(e) => r == Err::<(), SExpressionParseError>(e),
            },
    {
        if self.in_comment {
            if c == '\n' {
                self.in_comment = false;
            }
            return Ok(());
        }
        if self.in_string_literal {
            self.extend_text_element(c);
            if c == '"' {
                self.in_string_literal = false;
            }
            return Ok(());
        }
        if c == '(' {
            self.stack.push(Node::new());
            assert(self@.stack =~= old(self)@.stack.push(Seq::empty()));
        } else if c == ')' {
            self.finish_parsing_text_element()?;
            self.close_node()?;
        } else if c == ';' {
            self.in_comment = true;
        } else if c == '"' {
            self.in_string_literal = true;
            self.extend_text_element(c);
        } else if c == ' ' || c == '\t' || c == '\n' {
            self.finish_parsing_text_element()?;
        } else {
            self.extend_text_element(c);
        }
        Ok(())
    }

    /// Ends the input: flushes the pending text and checks that no form is left open.
    pub fn finish(&mut self) -> (r: Result<(), SExpressionParseError>)
        ensures
            match finish_model(old(self)@) {
                Ok(m) => r is Ok && final(self)@ == m,
                Err(e) => r == Err::<(), SExpressionParseError>(e),
            },
    {
        self.finish_parsing_text_element()?;
        if self.stack.len() != 0 {
            return Err(SExpressionParseError::UnclosedBracket);
        }
        Ok(())
    }
}

/// What `parse` owes on the text `s`: the forest that `s` describes, or its error.
pub open spec fn parse_result_matches(
    s: Seq<char>,
    r: Result<Vec<Node>, SExpressionParseError>,
) -> bool {
    match parse_model(s) {
        Ok(f) => r is Ok && forest_of(r->Ok_0@) == f,
        Err(e) => r == Err::<Vec<Node>, SExpressionParseError>(e),
    }
}

/// Parses a whole text into its top-level forms.
pub fn parse(string: &str) -> (r: Result<Vec<Node>, SExpressionParseError>)
    ensures
        parse_result_matches(string@, r),
{
    let mut parser = SExpressionParser::new();
    for c in it: string.chars()
        invariant
            it.seq() == string@,
            run_model(initial_model(), string@.take(it.index() as int)) == Ok::<ParserModel, SExpressionParseError>(parser@),
    {
        let ghost i = it.index() as int;
        proof {
            assert(string@.take(i + 1).drop_last() =~= string@.take(i));
        }
        match parser.feed_char(c) {
            Ok(()) => {}
            Err(e) => {
                proof {
                    lemma_run_error_persists(initial_model(), string@, i + 1);
                }
                return Err(e);
            }
        }
    }
    proof {
        assert(string@.take(string@.len() as int) =~= string@);
    }
    parser.finish()?;
    Ok(parser.root_nodes)
}


} // verus!
