//! Rendering of a tree as BBCode text.
use vstd::prelude::*;
use crate::text::{decimal, push_decimal};
use crate::{node_views, Node, NodeView};

verus! {

/// The BBCode text of a tree.
///
/// A list is its children's texts one after another. An encapsulation puts
/// its child between `[kind]` and `[/kind]`. A local reference is `>>` and the
/// post number; a global one is `>>>/`, the board, `/` and the post number it
/// resolves to, if any. Text stands as it is. An anchor shows only its child.
pub open spec fn bbcode(node: NodeView) -> Seq<char>
    decreases node,
{
    match node {
        NodeView::List(children) => bbcode_all(children),
        NodeView::Encap(kind, child) => "["@ + kind.name() + "]"@ + bbcode(*child) + "[/"@
            + kind.name() + "]"@,
        NodeView::LocalRef(post) => ">>"@ + decimal(post as nat),
        NodeView::GlobalRef(global) => ">>>/"@ + global.board + "/"@ + (
        match global.target.best_post() {
            Some(post) => decimal(post as nat),
            None => Seq::empty(),
        }),
        NodeView::Text(text) => text,
        NodeView::Anchor(_, child) => bbcode(*child),
    }
}

/// The BBCode texts of `nodes`, one after another.
pub open spec fn bbcode_all(nodes: Seq<NodeView>) -> Seq<char>
    decreases nodes,
{
    if nodes.len() == 0 {
        Seq::empty()
    } else {
        bbcode_all(nodes.drop_last()) + bbcode(nodes.last())
    }
}

impl Node {
    /// Appends the BBCode text of the tree to `wri`.
    pub fn bbcode_fmt(&self, wri: &mut String)
        ensures
            final(wri)@ == old(wri)@ + bbcode(self@),
        decreases self,
    {
        match self {
            Node::List(nodes) => {
                let mut i: usize = 0;
                assert(node_views(nodes@).take(0) == Seq::<NodeView>::empty());
                while i < nodes.len()
                    invariant
                        *self == Node::List(*nodes),
                        i <= nodes.len(),
                        wri@ == old(wri)@ + bbcode_all(node_views(nodes@).take(i as int)),
                    decreases nodes.len() - i,
                {
                    assert(decreases_to!(self => self->List_0));
                    let ghost views = node_views(nodes@);
                    assert(views.take(i + 1).drop_last() == views.take(i as int));
                    nodes[i].bbcode_fmt(wri);
                    i += 1;
                }
                assert(node_views(nodes@).take(i as int) == node_views(nodes@));
            },
            Node::Encap(kind, node) => {
                wri.append("[");
                wri.append(kind.as_str());
                wri.append("]");
                node.bbcode_fmt(wri);
                wri.append("[/");
                wri.append(kind.as_str());
                wri.append("]");
            },
            Node::LocalRef(local) => {
                wri.append(">>");
                push_decimal(wri, local.post);
            },
            Node::GlobalRef(global) => {
                wri.append(">>>/");
                wri.append(global.board.as_str());
                wri.append("/");
                match global.best_post() {
                    Some(post) => push_decimal(wri, post),
                    None => {},
                }
            },
            Node::Text(text) => {
                wri.append(text.as_str());
            },
            Node::Anchor(_, node) => {
                node.bbcode_fmt(wri);
            },
        }
    }

    /// The BBCode text of the tree.
    pub fn to_bbcode(&self) -> (output: String)
        ensures
            output@ == bbcode(self@),
    {
        let mut output = String::new();
        self.bbcode_fmt(&mut output);
        output
    }
}

} // verus!
