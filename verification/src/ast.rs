//! The syntax tree of an expression.

use crate::decimal::{Decimal, DecimalView};
use vstd::prelude::*;

verus! {

/// A node of the syntax tree. Every node owns its children.
#[derive(Debug, PartialEq, Eq)]
pub enum Node {
    Add(Box<Node>, Box<Node>),
    Subtract(Box<Node>, Box<Node>),
    Multiply(Box<Node>, Box<Node>),
    Divide(Box<Node>, Box<Node>),
    /// Base on the left, exponent on the right.
    Caret(Box<Node>, Box<Node>),
    Negative(Box<Node>),
    Number(Decimal),
}

/// The mathematical content of a [`Node`]: the same tree over numeral views.
pub enum NodeView {
    Add(Box<NodeView>, Box<NodeView>),
    Subtract(Box<NodeView>, Box<NodeView>),
    Multiply(Box<NodeView>, Box<NodeView>),
    Divide(Box<NodeView>, Box<NodeView>),
    Caret(Box<NodeView>, Box<NodeView>),
    Negative(Box<NodeView>),
    Number(DecimalView),
}

impl NodeView {
    /// The numerals at the leaves of the tree, from left to right.
    pub open spec fn leaves(self) -> Seq<DecimalView>
        decreases self,
    {
        match self {
            NodeView::Add(l, r) => l.leaves() + r.leaves(),
            NodeView::Subtract(l, r) => l.leaves() + r.leaves(),
            NodeView::Multiply(l, r) => l.leaves() + r.leaves(),
            NodeView::Divide(l, r) => l.leaves() + r.leaves(),
            NodeView::Caret(l, r) => l.leaves() + r.leaves(),
            NodeView::Negative(c) => c.leaves(),
            NodeView::Number(d) => seq![d],
        }
    }

    /// Every numeral in the tree is well formed.
    pub open spec fn wf(self) -> bool
        decreases self,
    {
        match self {
            NodeView::Add(l, r) => l.wf() && r.wf(),
            NodeView::Subtract(l, r) => l.wf() && r.wf(),
            NodeView::Multiply(l, r) => l.wf() && r.wf(),
            NodeView::Divide(l, r) => l.wf() && r.wf(),
            NodeView::Caret(l, r) => l.wf() && r.wf(),
            NodeView::Negative(c) => c.wf(),
            NodeView::Number(d) => d.wf(),
        }
    }
}

impl Node {
    /// The tree that this node stands for.
    pub open spec fn tree(self) -> NodeView
        decreases self,
    {
        match self {
            Node::Add(l, r) => NodeView::Add(Box::new(l.tree()), Box::new(r.tree())),
            Node::Subtract(l, r) => NodeView::Subtract(Box::new(l.tree()), Box::new(r.tree())),
            Node::Multiply(l, r) => NodeView::Multiply(Box::new(l.tree()), Box::new(r.tree())),
            Node::Divide(l, r) => NodeView::Divide(Box::new(l.tree()), Box::new(r.tree())),
            Node::Caret(l, r) => NodeView::Caret(Box::new(l.tree()), Box::new(r.tree())),
            Node::Negative(c) => NodeView::Negative(Box::new(c.tree())),
            Node::Number(d) => NodeView::Number(d@),
        }
    }
}

impl View for Node {
    type V = NodeView;

    open spec fn view(&self) -> NodeView {
        self.tree()
    }
}

impl Clone for Node {
    fn clone(&self) -> (res: Self)
        ensures
            res@ == self@,
        decreases self,
    {
        match self {
            Node::Add(l, r) => Node::Add(Box::new((&**l).clone()), Box::new((&**r).clone())),
            Node::Subtract(l, r) => Node::Subtract(
                Box::new((&**l).clone()),
                Box::new((&**r).clone()),
            ),
            Node::Multiply(l, r) => Node::Multiply(
                Box::new((&**l).clone()),
                Box::new((&**r).clone()),
            ),
            Node::Divide(l, r) => Node::Divide(Box::new((&**l).clone()), Box::new((&**r).clone())),
            Node::Caret(l, r) => Node::Caret(Box::new((&**l).clone()), Box::new((&**r).clone())),
            Node::Negative(c) => Node::Negative(Box::new((&**c).clone())),
            Node::Number(d) => Node::Number(d.clone()),
        }
    }
}

} // verus!
