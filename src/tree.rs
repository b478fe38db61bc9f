//! The parsed tree and its mathematical view.
use vstd::prelude::*;

verus! {

/// An element of a parsed form, as a mathematical value.
pub enum Tree {
    /// An atom or a string literal, quotes included.
    Atom(Seq<char>),
    /// A parenthesized form, with its elements in source order.
    List(Seq<Tree>),
}

/// One element of a form.
#[derive(Debug, PartialEq)]
pub enum NodeElement {
    /// An atom, or a string literal with its quotes.
    Text(String),
    /// A nested form.
    Node(Node),
}

/// One parenthesized form.
#[derive(Debug, PartialEq)]
pub struct Node {
    pub elements: Vec<NodeElement>,
}

impl NodeElement {
    /// The element as a mathematical value.
    pub open spec fn tree(&self) -> Tree
        decreases self, 1nat,
    {
        match self {
            NodeElement::Text(s) => Tree::Atom(s@),
            NodeElement::Node(n) => Tree::List(n.trees()),
        }
    }
}

impl Node {
    /// A form with no elements.
    pub fn new() -> (n: Node)
        ensures
            n.trees() == Seq::<Tree>::empty(),
    {
        let n = Node { elements: Vec::new() };
        assert(n.trees() =~= Seq::<Tree>::empty());
        n
    }

    /// The elements of the form as mathematical values, in order.
    pub open spec fn trees(&self) -> Seq<Tree>
        decreases self, 0nat,
    {
        Seq::new(
            self.elements@.len(),
            |i: int|
                if 0 <= i < self.elements@.len() {
                    self.elements@[i].tree()
                } else {
                    Tree::Atom(Seq::empty())
                },
        )
    }
}

/// The forms of `v`, each given by its elements.
pub open spec fn forest_of(v: Seq<Node>) -> Seq<Seq<Tree>> {
    v.map_values(|n: Node| n.trees())
}

} // verus!
