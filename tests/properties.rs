use sexpr::{parse, Node, NodeElement, SExpressionParseError, SExpressionParser};

fn text(s: &str) -> NodeElement {
    NodeElement::Text(s.to_owned())
}

fn node(elements: Vec<NodeElement>) -> Node {
    Node { elements }
}

fn count_forms(nodes: &[Node]) -> usize {
    let mut n = 0;
    for f in nodes {
        n += 1;
        for e in &f.elements {
            if let NodeElement::Node(inner) = e {
                n += count_forms(std::slice::from_ref(inner));
            }
        }
    }
    n
}

fn depth(nodes: &[Node]) -> usize {
    let mut d = 0;
    for f in nodes {
        let mut inner = 0;
        for e in &f.elements {
            if let NodeElement::Node(n) = e {
                inner = inner.max(depth(std::slice::from_ref(n)));
            }
        }
        d = d.max(1 + inner);
    }
    d
}

#[test]
fn forest_depth_matches_nesting() {
    let forest = parse("(a (b (c \"(x)\")) ;; (y)\n) (d)").unwrap();
    assert_eq!(depth(&forest), 3);
    assert_eq!(parse("()()"), Ok(vec![node(vec![]), node(vec![])]));
}

#[test]
fn single_form_with_one_atom() {
    assert_eq!(parse("(test)"), Ok(vec![node(vec![text("test")])]));
}

#[test]
fn atoms_kept_in_input_order() {
    assert_eq!(
        parse("(test hello $world 123.4 abc)"),
        Ok(vec![node(vec![
            text("test"),
            text("hello"),
            text("$world"),
            text("123.4"),
            text("abc"),
        ])])
    );
}

#[test]
fn comments_never_reach_output() {
    assert_eq!(
        parse(";; comment\n(test ;; inline\n)"),
        Ok(vec![node(vec![text("test")])])
    );
}

#[test]
fn string_literal_keeps_quotes_and_spaces() {
    assert_eq!(
        parse("(test \"a b\")"),
        Ok(vec![node(vec![text("test"), text("\"a b\"")])])
    );
}

#[test]
fn nested_forms() {
    assert_eq!(
        parse("(a (b) (c d))"),
        Ok(vec![node(vec![
            text("a"),
            NodeElement::Node(node(vec![text("b")])),
            NodeElement::Node(node(vec![text("c"), text("d")])),
        ])])
    );
}

#[test]
fn bare_atom_is_unexpected_text() {
    assert_eq!(parse("test"), Err(SExpressionParseError::UnexpectedText));
}

#[test]
fn lone_close_bracket() {
    assert_eq!(parse(")"), Err(SExpressionParseError::UnexpectedCloseBracket));
}

#[test]
fn lone_open_bracket_is_unclosed() {
    assert_eq!(parse("("), Err(SExpressionParseError::UnclosedBracket));
}

#[test]
fn two_parsers_agree() {
    let input = "(module (memory 0 1 (segment 0 \"a\"))) ;; note\n(x \"y z\" (w))";
    assert_eq!(parse(input), parse(input));
    assert!(parse(input).is_ok());
}

#[test]
fn form_count_matches_brackets() {
    let input = "(a (b (c)) (d) \")\" ;; )\n) (e)";
    let forest = parse(input).unwrap();
    assert_eq!(forest.len(), 2);
    assert_eq!(count_forms(&forest), 5);
}

#[test]
fn empty_input_gives_empty_forest() {
    assert_eq!(parse(""), Ok(vec![]));
    assert_eq!(parse("  ;; only a comment"), Ok(vec![]));
}

#[test]
fn empty_form() {
    assert_eq!(parse("()"), Ok(vec![node(vec![])]));
}

#[test]
fn several_top_level_forms() {
    assert_eq!(
        parse("(a)\n(b)\t(c)"),
        Ok(vec![
            node(vec![text("a")]),
            node(vec![text("b")]),
            node(vec![text("c")]),
        ])
    );
}

#[test]
fn text_after_form_is_unexpected() {
    assert_eq!(parse("(test) test"), Err(SExpressionParseError::UnexpectedText));
}

#[test]
fn text_before_close_at_top_level_is_unexpected_text() {
    assert_eq!(parse("abc)"), Err(SExpressionParseError::UnexpectedText));
}

#[test]
fn unclosed_string_literal_is_unclosed_bracket() {
    assert_eq!(parse("(a \"b c"), Err(SExpressionParseError::UnclosedBracket));
}

#[test]
fn newline_ending_comment_does_not_flush() {
    // The newline that ends a comment is consumed by it, so the atom
    // before the comment goes on growing.
    assert_eq!(
        parse("(a;c\nb)"),
        Ok(vec![node(vec![text("ab")])])
    );
}

#[test]
fn atom_before_open_bracket_stays_pending() {
    assert_eq!(
        parse("(x abc(d))"),
        Ok(vec![node(vec![
            text("x"),
            NodeElement::Node(node(vec![text("abcd")])),
        ])])
    );
}

#[test]
fn feeding_by_hand_matches_parse() {
    let mut p = SExpressionParser::new();
    for c in "(a b)".chars() {
        assert_eq!(p.feed_char(c), Ok(()));
    }
    assert_eq!(p.finish(), Ok(()));
    let mut q = SExpressionParser::new();
    assert_eq!(q.feed_char(')'), Err(SExpressionParseError::UnexpectedCloseBracket));
    let mut r = SExpressionParser::new();
    assert_eq!(r.feed_char('('), Ok(()));
    assert_eq!(r.finish(), Err(SExpressionParseError::UnclosedBracket));
}

#[test]
fn multi_char_atoms_are_built_char_by_char() {
    assert_eq!(
        parse("(hello wörld)"),
        Ok(vec![node(vec![text("hello"), text("wörld")])])
    );
}
