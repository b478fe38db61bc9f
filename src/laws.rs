//! Properties of the parser that relate its output to the text it read.
use vstd::prelude::*;

use crate::model::{
    close_model, flush_model, initial_model, is_space, parse_model, run_model, ParserModel,
    SExpressionParseError,
};
use crate::parser::parse_result_matches;
use crate::tree::{forest_of, Node, Tree};
use vstd::math::max;

verus! {

/// Whether the end of `s` is inside a line comment, and whether it is inside a
/// string literal, judged by the characters alone.
pub open spec fn lex_mode(s: Seq<char>) -> (bool, bool)
    decreases s.len(),
{
    if s.len() == 0 {
        (false, false)
    } else {
        let (comment, string) = lex_mode(s.drop_last());
        let c = s.last();
        if comment {
            (c != '\n', false)
        } else if string {
            (false, c != '"')
        } else {
            (c == ';', c == '"')
        }
    }
}

/// How often `b` occurs in `s` outside comments and string literals.
pub open spec fn code_count(s: Seq<char>, b: char) -> nat
    decreases s.len(),
{
    if s.len() == 0 {
        0
    } else {
        let p = s.drop_last();
        let (comment, string) = lex_mode(p);
        code_count(p, b) + if !comment && !string && s.last() == b {
            1nat
        } else {
            0nat
        }
    }
}

/// The number of forms among `ts` and all their descendants.
pub open spec fn forms_in(ts: Seq<Tree>) -> nat
    decreases ts,
{
    if ts.len() == 0 {
        0
    } else {
        forms_in(ts.drop_last()) + match ts.last() {
            Tree::Atom(_) => 0nat,
            Tree::List(inner) => 1 + forms_in(inner),
        }
    }
}

/// The number of forms nested inside the forms whose elements are listed in `f`.
pub open spec fn forms_within(f: Seq<Seq<Tree>>) -> nat
    decreases f.len(),
{
    if f.len() == 0 {
        0
    } else {
        forms_within(f.drop_last()) + forms_in(f.last())
    }
}

/// The number of forms in a forest, at every depth.
pub open spec fn forest_size(f: Seq<Seq<Tree>>) -> nat {
    f.len() + forms_within(f)
}

/// The deepest nesting of `(` outside comments and string literals over all
/// prefixes of `s`.
pub open spec fn max_nesting(s: Seq<char>) -> int
    decreases s.len(),
{
    if s.len() == 0 {
        0
    } else {
        max(max_nesting(s.drop_last()), code_count(s, '(') - code_count(s, ')'))
    }
}

/// How deep forms nest among `ts`: 0 for atoms alone, one more for each level of forms.
pub open spec fn depth_in(ts: Seq<Tree>) -> int
    decreases ts,
{
    if ts.len() == 0 {
        0
    } else {
        max(depth_in(ts.drop_last()), match ts.last() {
            Tree::Atom(_) => 0,
            Tree::List(inner) => 1 + depth_in(inner),
        })
    }
}

/// How deep forms nest in a forest: 1 for forms of atoms alone, 0 for an empty forest.
pub open spec fn forest_depth(f: Seq<Seq<Tree>>) -> int
    decreases f.len(),
{
    if f.len() == 0 {
        0
    } else {
        max(forest_depth(f.drop_last()), 1 + depth_in(f.last()))
    }
}

/// How deep forms reach inside a stack of open forms, the outermost at depth 1.
pub open spec fn stack_depth(st: Seq<Seq<Tree>>) -> int
    decreases st.len(),
{
    if st.len() == 0 {
        0
    } else {
        max(stack_depth(st.drop_last()), st.len() + depth_in(st.last()))
    }
}

/// What holds of every state that the parser reaches without error on the text `s`.
pub open spec fn reached(m: ParserModel, s: Seq<char>) -> bool {
    &&& (m.in_comment, m.in_string) == lex_mode(s)
    &&& !(m.in_comment && m.in_string)
    &&& m.in_string ==> m.pending is Some
    &&& m.stack.len() + code_count(s, ')') == code_count(s, '(')
    &&& forest_size(m.roots) + m.stack.len() + forms_within(m.stack) == code_count(s, '(')
    &&& max(forest_depth(m.roots), stack_depth(m.stack)) == max_nesting(s)
}

proof fn lemma_forms_in_push(ts: Seq<Tree>, t: Tree)
    ensures
        forms_in(ts.push(t)) == forms_in(ts) + match t {
            Tree::Atom(_) => 0nat,
            Tree::List(inner) => 1 + forms_in(inner),
        },
{
    assert(ts.push(t).drop_last() =~= ts);
}

proof fn lemma_forms_within_push(f: Seq<Seq<Tree>>, x: Seq<Tree>)
    ensures
        forms_within(f.push(x)) == forms_within(f) + forms_in(x),
{
    assert(f.push(x).drop_last() =~= f);
}

proof fn lemma_forms_within_update_last(f: Seq<Seq<Tree>>, x: Seq<Tree>)
    requires
        f.len() > 0,
    ensures
        forms_within(f.update(f.len() - 1, x)) + forms_in(f.last()) == forms_within(f) + forms_in(x),
{
    assert(f.update(f.len() - 1, x).drop_last() =~= f.drop_last());
}

proof fn lemma_depth_in_push(ts: Seq<Tree>, t: Tree)
    ensures
        depth_in(ts.push(t)) == max(depth_in(ts), match t {
            Tree::Atom(_) => 0,
            Tree::List(inner) => 1 + depth_in(inner),
        }),
{
    assert(ts.push(t).drop_last() =~= ts);
}

proof fn lemma_depth_in_nonneg(ts: Seq<Tree>)
    ensures
        depth_in(ts) >= 0,
    decreases ts.len(),
{
    if ts.len() > 0 {
        lemma_depth_in_nonneg(ts.drop_last());
    }
}

proof fn lemma_forest_depth_nonneg(f: Seq<Seq<Tree>>)
    ensures
        forest_depth(f) >= 0,
    decreases f.len(),
{
    if f.len() > 0 {
        lemma_forest_depth_nonneg(f.drop_last());
    }
}

proof fn lemma_forest_depth_push(f: Seq<Seq<Tree>>, x: Seq<Tree>)
    ensures
        forest_depth(f.push(x)) == max(forest_depth(f), 1 + depth_in(x)),
{
    assert(f.push(x).drop_last() =~= f);
}

proof fn lemma_stack_depth_push(st: Seq<Seq<Tree>>, x: Seq<Tree>)
    ensures
        stack_depth(st.push(x)) == max(stack_depth(st), st.len() + 1 + depth_in(x)),
{
    assert(st.push(x).drop_last() =~= st);
}

proof fn lemma_stack_depth_update_last(st: Seq<Seq<Tree>>, x: Seq<Tree>)
    requires
        st.len() > 0,
    ensures
        stack_depth(st.update(st.len() - 1, x)) == max(stack_depth(st.drop_last()), st.len() + depth_in(x)),
{
    assert(st.update(st.len() - 1, x).drop_last() =~= st.drop_last());
}

proof fn lemma_stack_depth_bound(st: Seq<Seq<Tree>>)
    ensures
        stack_depth(st) >= st.len(),
    decreases st.len(),
{
    if st.len() > 0 {
        lemma_stack_depth_bound(st.drop_last());
        lemma_depth_in_nonneg(st.last());
    }
}

proof fn lemma_flush_keeps_counts(m: ParserModel)
    requires
        flush_model(m) is Ok,
    ensures
        ({
            let f = flush_model(m)->Ok_0;
            &&& f.in_comment == m.in_comment
            &&& f.in_string == m.in_string
            &&& f.stack.len() == m.stack.len()
            &&& f.roots == m.roots
            &&& forms_within(f.stack) == forms_within(m.stack)
            &&& stack_depth(f.stack) == stack_depth(m.stack)
            &&& f.pending is None
        }),
{
    if let Some(t) = m.pending {
        lemma_forms_in_push(m.stack.last(), Tree::Atom(t));
        lemma_forms_within_update_last(m.stack, m.stack.last().push(Tree::Atom(t)));
        lemma_depth_in_push(m.stack.last(), Tree::Atom(t));
        lemma_depth_in_nonneg(m.stack.last());
        lemma_stack_depth_update_last(m.stack, m.stack.last().push(Tree::Atom(t)));
    }
}

proof fn lemma_close_counts(m: ParserModel)
    requires
        close_model(m) is Ok,
    ensures
        ({
            let f = close_model(m)->Ok_0;
            &&& f.in_comment == m.in_comment
            &&& f.in_string == m.in_string
            &&& f.pending == m.pending
            &&& f.stack.len() + 1 == m.stack.len()
            &&& forest_size(f.roots) + f.stack.len() + forms_within(f.stack)
                == forest_size(m.roots) + m.stack.len() + forms_within(m.stack)
            &&& max(forest_depth(f.roots), stack_depth(f.stack))
                == max(forest_depth(m.roots), stack_depth(m.stack))
        }),
{
    let top = m.stack.last();
    let rest = m.stack.drop_last();
    assert(forms_within(m.stack) == forms_within(rest) + forms_in(top));
    if rest.len() == 0 {
        lemma_forms_within_push(m.roots, top);
        lemma_forest_depth_push(m.roots, top);
    } else {
        lemma_forms_in_push(rest.last(), Tree::List(top));
        lemma_forms_within_update_last(rest, rest.last().push(Tree::List(top)));
        lemma_depth_in_push(rest.last(), Tree::List(top));
        lemma_stack_depth_update_last(rest, rest.last().push(Tree::List(top)));
        assert(stack_depth(rest) == max(
            stack_depth(rest.drop_last()),
            rest.len() + depth_in(rest.last()),
        ));
    }
}

/// Every state reached from the start on a text `s` without error agrees with
/// the text: its comment and string modes are those of the characters read,
/// a string literal always has its pending text, one form is open for each `(` not yet matched by a `)`, and each `(` read so
/// far has made exactly one form, open or complete, and forms nest as deep as
/// those brackets have so far.
pub proof fn lemma_run_invariant(s: Seq<char>)
    requires
        run_model(initial_model(), s) is Ok,
    ensures
        reached(run_model(initial_model(), s)->Ok_0, s),
    decreases s.len(),
{
    if s.len() == 0 {
        assert(forms_within(Seq::<Seq<Tree>>::empty()) == 0);
    } else {
        let p = s.drop_last();
        let c = s.last();
        lemma_run_invariant(p);
        let m = run_model(initial_model(), p)->Ok_0;
        let code = !m.in_comment && !m.in_string;
        assert(code_count(s, '(') == code_count(p, '(') + if code && c == '(' { 1nat } else { 0nat });
        assert(code_count(s, ')') == code_count(p, ')') + if code && c == ')' { 1nat } else { 0nat });
        if code {
            if c == '(' {
                lemma_forms_within_push(m.stack, Seq::empty());
                lemma_stack_depth_push(m.stack, Seq::empty());
                assert(depth_in(Seq::<Tree>::empty()) == 0);
            } else if c == ')' {
                lemma_flush_keeps_counts(m);
                lemma_close_counts(flush_model(m)->Ok_0);
                lemma_stack_depth_bound(m.stack);
            } else if is_space(c) {
                lemma_flush_keeps_counts(m);
            }
        }
    }
}

/// On a text that parses, `(` and `)` outside comments and string literals
/// are equally many, and the forest holds exactly one form, at some depth,
/// for each of those `(`; its forms nest exactly as deep as those brackets do.
pub proof fn lemma_brackets_balance(s: Seq<char>)
    requires
        parse_model(s) is Ok,
    ensures
        code_count(s, '(') == code_count(s, ')'),
        forest_size(parse_model(s)->Ok_0) == code_count(s, '('),
        forest_depth(parse_model(s)->Ok_0) == max_nesting(s),
{
    lemma_run_invariant(s);
    let m = run_model(initial_model(), s)->Ok_0;
    lemma_flush_keeps_counts(m);
    lemma_forest_depth_nonneg(m.roots);
}

/// A parse result with each form given by its elements.
pub open spec fn result_view(
    r: Result<Vec<Node>, SExpressionParseError>,
) -> Result<Seq<Seq<Tree>>, SExpressionParseError> {
    match r {
        Ok(v) => Ok(forest_of(v@)),
        Err(e) => Err(e),
    }
}

/// Two parsers fed the same text give forests equal in shape and content, or
/// the same error.
pub proof fn lemma_parse_deterministic(
    s: Seq<char>,
    r1: Result<Vec<Node>, SExpressionParseError>,
    r2: Result<Vec<Node>, SExpressionParseError>,
)
    requires
        parse_result_matches(s, r1),
        parse_result_matches(s, r2),
    ensures
        result_view(r1) == result_view(r2),
        result_view(r1) == parse_model(s),
{
}

} // verus!
