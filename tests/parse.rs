use sexpr::{parse, Node, NodeElement, SExpressionParseError, SExpressionParser};

fn text(s: &str) -> NodeElement {
    NodeElement::Text(s.to_owned())
}

fn node(elements: Vec<NodeElement>) -> Node {
    Node { elements }
}

#[test]
fn test_simple_expressions() {
    let test = "(test)";

    assert_eq!(parse(test), Ok(vec![node(vec![text("test")])]));
}

#[test]
fn test_text_elements() {
    let test = "(test hello $world 123.4 こんにちは)";

    assert_eq!(
        parse(test),
        Ok(vec![node(vec![
            text("test"),
            text("hello"),
            text("$world"),
            text("123.4"),
            text("こんにちは"),
        ])])
    );
}

#[test]
fn test_line_comments() {
    let test = ";; Hello!\n(test ;; blah\n)";

    assert_eq!(parse(test), Ok(vec![node(vec![text("test")])]));
}

#[test]
fn test_string_literals() {
    let test = "(test hello \"$world 123.4 こんにちは\")";

    assert_eq!(
        parse(test),
        Ok(vec![node(vec![
            text("test"),
            text("hello"),
            text("\"$world 123.4 こんにちは\""),
        ])])
    );
}

#[test]
fn test_sub_nodes() {
    let test = "(test (hello (world) (hi there)))";

    assert_eq!(
        parse(test),
        Ok(vec![node(vec![
            text("test"),
            NodeElement::Node(node(vec![
                text("hello"),
                NodeElement::Node(node(vec![text("world")])),
                NodeElement::Node(node(vec![text("hi"), text("there")])),
            ])),
        ])])
    );
}

#[test]
fn test_unexpected_text() {
    let test = "test";

    assert_eq!(parse(test), Err(SExpressionParseError::UnexpectedText));
}

#[test]
fn test_unexpected_text_after_node() {
    let test = "(test) test";

    assert_eq!(parse(test), Err(SExpressionParseError::UnexpectedText));
}

#[test]
fn test_unexpected_close_bracket() {
    let test = ")";

    assert_eq!(parse(test), Err(SExpressionParseError::UnexpectedCloseBracket));
}

#[test]
fn test_unclosed_bracket() {
    let test = "(";

    assert_eq!(parse(test), Err(SExpressionParseError::UnclosedBracket));
}
