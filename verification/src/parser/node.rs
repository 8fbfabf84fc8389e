use vstd::prelude::*;

verus! {

use crate::error::span::Span;
use crate::lexer::token::Token;
use crate::lexer::token::TokenModel;

/// The mathematical shape of a syntax-tree [`Node`].
pub ghost enum NodeModel {
    Constant { token: TokenModel },
    BinaryOp { token: TokenModel, left: Box<NodeModel>, right: Box<NodeModel> },
    UnaryOp { token: TokenModel, node: Box<NodeModel> },
    Call { name: TokenModel, params: Seq<NodeModel>, args: Seq<NodeModel>, span: Span },
    Variable { name: TokenModel },
}

/// An untyped syntax-tree node: a numeric-literal leaf, a variable leaf,
/// a binary or unary operator applied to sub-trees, or a call with its
/// parameter and argument lists and the span of the whole call.
#[derive(Debug)]
pub enum Node {
    Constant { token: Token },
    BinaryOp { token: Token, left: Box<Node>, right: Box<Node> },
    UnaryOp { token: Token, node: Box<Node> },
    Call { name: Token, params: Vec<Node>, args: Vec<Node>, span: Span },
    Variable { name: Token },
}

/// The mathematical shape of a syntax-tree node.
pub open spec fn node_view(n: Node) -> NodeModel
    decreases n,
{
    match n {
        Node::Constant { token } => NodeModel::Constant { token: token@ },
        Node::BinaryOp { token, left, right } => NodeModel::BinaryOp {
            token: token@,
            left: Box::new(node_view(*left)),
            right: Box::new(node_view(*right)),
        },
        Node::UnaryOp { token, node } => NodeModel::UnaryOp {
            token: token@,
            node: Box::new(node_view(*node)),
        },
        Node::Call { name, params, args, span } => NodeModel::Call {
            name: name@,
            params: nodes_view(params@),
            args: nodes_view(args@),
            span,
        },
        Node::Variable { name } => NodeModel::Variable { name: name@ },
    }
}

/// The mathematical shapes of a sequence of nodes, in order.
pub open spec fn nodes_view(s: Seq<Node>) -> Seq<NodeModel>
    decreases s,
{
    if s.len() == 0 {
        Seq::empty()
    } else {
        seq![node_view(s[0])] + nodes_view(s.drop_first())
    }
}

/// Element by element, what [`nodes_view`] holds.
pub proof fn lemma_nodes_view(s: Seq<Node>)
    ensures
        nodes_view(s).len() == s.len(),
        forall|i: int| 0 <= i < s.len() ==> nodes_view(s)[i] == node_view(s[i]),
    decreases s,
{
    if s.len() > 0 {
        lemma_nodes_view(s.drop_first());
    }
}

impl View for Node {
    type V = NodeModel;

    open spec fn view(&self) -> NodeModel {
        node_view(*self)
    }
}

} // verus!
