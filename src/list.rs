//! The list builder: tokens to a generic tree of nodes that carry a quoted
//! flag.
use vstd::prelude::*;
use crate::text::owned;
use crate::parser::{PrimitiveToken, TokenModel, tokens_view};

verus! {

broadcast use vstd::std_specs::vec::group_vec_axioms;

/// A node of the generic symbolic tree.
#[derive(Debug)]
pub enum ListNode {
    Node(bool, Vec<ListNode>),
    Identifier(bool, String),
    StringLiteral(String),
    NumericLiteral(i64),
    BooleanLiteral(bool),
}

/// What a node is, with its children and text as sequences.
pub enum NodeModel {
    Node(bool, Seq<NodeModel>),
    Identifier(bool, Seq<char>),
    StringLiteral(Seq<char>),
    NumericLiteral(i64),
    BooleanLiteral(bool),
}

/// The models of the first `n` nodes of `s`.
pub open spec fn nodes_view(s: Seq<ListNode>, n: int) -> Seq<NodeModel>
    decreases s, n,
{
    if n <= 0 || n > s.len() {
        Seq::empty()
    } else {
        nodes_view(s, n - 1).push(node_view(s[n - 1]))
    }
}

pub open spec fn node_view(l: ListNode) -> NodeModel
    decreases l, 0int,
{
    match l {
        ListNode::Node(q, v) => NodeModel::Node(q, nodes_view(v@, v@.len() as int)),
        ListNode::Identifier(q, s) => NodeModel::Identifier(q, s@),
        ListNode::StringLiteral(s) => NodeModel::StringLiteral(s@),
        ListNode::NumericLiteral(n) => NodeModel::NumericLiteral(n),
        ListNode::BooleanLiteral(b) => NodeModel::BooleanLiteral(b),
    }
}

impl View for ListNode {
    type V = NodeModel;

    open spec fn view(&self) -> NodeModel {
        node_view(*self)
    }
}

pub proof fn lemma_nodes_view_push(s: Seq<ListNode>, x: ListNode, n: int)
    requires
        0 <= n <= s.len(),
    ensures
        nodes_view(s.push(x), n) == nodes_view(s, n),
    decreases n,
{
    if n > 0 {
        lemma_nodes_view_push(s, x, n - 1);
    }
}

pub proof fn lemma_nodes_view_len(s: Seq<ListNode>, n: int)
    requires
        0 <= n <= s.len(),
    ensures
        nodes_view(s, n).len() == n,
        forall|i: int| 0 <= i < n ==> #[trigger] nodes_view(s, n)[i] == s[i]@,
    decreases n,
{
    if n > 0 {
        lemma_nodes_view_len(s, n - 1);
    }
}

pub open spec fn true_text() -> Seq<char> {
    seq!['#', 't']
}

pub open spec fn false_text() -> Seq<char> {
    seq!['#', 'f']
}

/// Reads the children of a node from `pos` up to its closing paren or the
/// end of input, after the children `acc` already read. Returns the children
/// and the position after the node.
pub open spec fn build_children(
    toks: Seq<TokenModel>,
    pos: int,
    quote_next: bool,
    acc: Seq<NodeModel>,
) -> (Seq<NodeModel>, int)
    decreases toks.len() - pos, 0int,
{
    if pos < 0 || pos >= toks.len() {
        (acc, toks.len() as int)
    } else {
        match toks[pos] {
            TokenModel::RightParen => (acc, pos + 1),
            TokenModel::Quote => build_children(toks, pos + 1, true, acc),
            TokenModel::Word(w) => {
                let leaf = if w == true_text() {
                    NodeModel::BooleanLiteral(true)
                } else if w == false_text() {
                    NodeModel::BooleanLiteral(false)
                } else {
                    NodeModel::Identifier(quote_next, w)
                };
                build_children(toks, pos + 1, false, acc.push(leaf))
            },
            TokenModel::StringLiteral(s) => build_children(
                toks,
                pos + 1,
                false,
                acc.push(NodeModel::StringLiteral(s)),
            ),
            TokenModel::NumericLiteral(n) => build_children(
                toks,
                pos + 1,
                false,
                acc.push(NodeModel::NumericLiteral(n)),
            ),
            TokenModel::LeftParen => {
                let (child, next) = build_node(toks, pos + 1, quote_next);
                if pos < next <= toks.len() {
                    build_children(toks, next, false, acc.push(child))
                } else {
                    (acc, toks.len() as int)
                }
            },
        }
    }
}

/// A node whose children start at `pos`, and the position after it.
pub open spec fn build_node(toks: Seq<TokenModel>, pos: int, quoted: bool) -> (NodeModel, int)
    decreases toks.len() - pos, 1int,
{
    let (children, next) = build_children(toks, pos, false, Seq::empty());
    (NodeModel::Node(quoted, children), next)
}

/// The tree of a whole token sequence: an unquoted root node.
pub open spec fn build_tree(toks: Seq<TokenModel>) -> NodeModel {
    build_node(toks, 0, false).0
}

fn build_node_at(tokens: &Vec<PrimitiveToken>, pos: usize, quoted: bool) -> (r: (ListNode, usize))
    requires
        pos <= tokens.len(),
    ensures
        (r.0@, r.1 as int) == build_node(tokens_view(tokens@), pos as int, quoted),
        pos <= r.1 <= tokens.len(),
    decreases tokens.len() - pos,
{
    let ghost toks = tokens_view(tokens@);
    let mut children: Vec<ListNode> = Vec::new();
    let mut quote_next = false;
    let mut i: usize = pos;
    let mut done = false;
    let mut end: usize = tokens.len();
    assert(nodes_view(children@, 0) =~= Seq::<NodeModel>::empty());
    while !done && i < tokens.len()
        invariant
            pos <= i <= tokens.len(),
            toks == tokens_view(tokens@),
            done ==> pos <= end <= tokens.len(),
            done ==> build_children(toks, pos as int, false, Seq::empty()) == (
                nodes_view(children@, children@.len() as int),
                end as int,
            ),
            !done ==> build_children(toks, pos as int, false, Seq::empty()) == build_children(
                toks,
                i as int,
                quote_next,
                nodes_view(children@, children@.len() as int),
            ),
        decreases tokens.len() - i, (if done { 0int } else { 1int }),
    {
        let ghost before = children@;
        assert(toks[i as int] == tokens@[i as int]@);
        match &tokens[i] {
            PrimitiveToken::RightParen => {
                done = true;
                end = i + 1;
            },
            PrimitiveToken::Quote => {
                quote_next = true;
                i = i + 1;
            },
            PrimitiveToken::Word(w) => {
                proof {
                    reveal_strlit("#t");
                    reveal_strlit("#f");
                    assert("#t"@ =~= true_text());
                    assert("#f"@ =~= false_text());
                }
                let leaf = if *w == owned("#t") {
                    ListNode::BooleanLiteral(true)
                } else if *w == owned("#f") {
                    ListNode::BooleanLiteral(false)
                } else {
                    ListNode::Identifier(quote_next, w.clone())
                };
                children.push(leaf);
                quote_next = false;
                i = i + 1;
            },
            PrimitiveToken::StringLiteral(s) => {
                children.push(ListNode::StringLiteral(s.clone()));
                quote_next = false;
                i = i + 1;
            },
            PrimitiveToken::NumericLiteral(n) => {
                children.push(ListNode::NumericLiteral(*n));
                quote_next = false;
                i = i + 1;
            },
            PrimitiveToken::LeftParen => {
                let (child, next) = build_node_at(tokens, i + 1, quote_next);
                children.push(child);
                quote_next = false;
                i = next;
            },
        }
        proof {
            if children@.len() > before.len() {
                lemma_nodes_view_push(before, children@.last(), before.len() as int);
                assert(children@ == before.push(children@.last()));
                assert(nodes_view(children@, children@.len() as int) == nodes_view(
                    before,
                    before.len() as int,
                ).push(children@.last()@));
            }
        }
    }
    (ListNode::Node(quoted, children), if done { end } else { tokens.len() })
}

impl ListNode {
    /// Builds the tree of a token sequence. The root is an unquoted node; an
    /// unmatched closing paren ends it, missing ones are supplied at the end.
    pub fn from_primitive_tokens(tokens: &Vec<PrimitiveToken>) -> (r: ListNode)
        ensures
            r@ == build_tree(tokens_view(tokens@)),
    {
        build_node_at(tokens, 0, false).0
    }
}

} // verus!
