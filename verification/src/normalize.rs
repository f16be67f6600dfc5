//! The canonical shape of a tree: nested lists inlined, neighbouring text
//! runs joined, and one-element lists replaced by their element.
use vstd::prelude::*;
use crate::{Node, NodeView, node_views};

verus! {

/// `nodes` with every list among them replaced by its elements, at every depth.
pub open spec fn flatten(nodes: Seq<NodeView>) -> Seq<NodeView>
    decreases nodes,
{
    if nodes.len() == 0 {
        Seq::empty()
    } else {
        flatten(nodes.drop_last()) + (match nodes.last() {
            NodeView::List(inner) => flatten(inner),
            other => seq![other],
        })
    }
}

/// `nodes` with every run of neighbouring texts joined into one text.
pub open spec fn merge(nodes: Seq<NodeView>) -> Seq<NodeView>
    decreases nodes.len(),
{
    if nodes.len() == 0 {
        Seq::empty()
    } else {
        let init = merge(nodes.drop_last());
        let node = nodes.last();
        if node is Text && init.len() > 0 && init.last() is Text {
            init.drop_last().push(NodeView::Text(init.last()->Text_0 + node->Text_0))
        } else {
            init.push(node)
        }
    }
}

/// The node that stands for a list of already normalised nodes.
pub open spec fn list_normalize(nodes: Seq<NodeView>) -> NodeView {
    let out = flatten(merge(flatten(nodes)));
    if out.len() == 1 {
        out[0]
    } else {
        NodeView::List(out)
    }
}

/// The normal forms of `nodes`, one for one.
pub open spec fn normalize_all(nodes: Seq<NodeView>) -> Seq<NodeView>
    decreases nodes,
{
    Seq::new(
        nodes.len(),
        |i: int|
            if 0 <= i < nodes.len() {
                normalize(nodes[i])
            } else {
                arbitrary()
            },
    )
}

/// The normal form of a tree: children first, then the node itself.
pub open spec fn normalize(node: NodeView) -> NodeView
    decreases node,
{
    match node {
        NodeView::List(children) => list_normalize(normalize_all(children)),
        NodeView::Encap(kind, child) => NodeView::Encap(kind, Box::new(normalize(*child))),
        NodeView::Anchor(url, child) => NodeView::Anchor(url, Box::new(normalize(*child))),
        other => other,
    }
}

/// Inlines every list among `nodes`, at every depth.
pub fn list_optimize_helper(nodes: &[Node]) -> (out: Vec<Node>)
    ensures
        node_views(out@) == flatten(node_views(nodes@)),
    decreases nodes@,
{
    let mut out: Vec<Node> = Vec::new();
    let mut i: usize = 0;
    assert(nodes@.take(0) == Seq::<Node>::empty());
    while i < nodes.len()
        invariant
            i <= nodes.len(),
            node_views(out@) == flatten(node_views(nodes@.take(i as int))),
        decreases nodes.len() - i,
    {
        let ghost before = node_views(nodes@.take(i as int));
        let ghost now = node_views(nodes@.take(i + 1));
        assert(now.drop_last() == before);
        assert(now.last() == nodes@[i as int]@);
        match &nodes[i] {
            Node::List(inner) => {
                assert(decreases_to!(nodes@ => nodes@[i as int]));
                assert(decreases_to!(nodes@[i as int] => nodes@[i as int]->List_0));
                let mut part = list_optimize_helper(inner.as_slice());
                let ghost head = out@;
                let ghost tail = part@;
                out.append(&mut part);
                assert(node_views(head + tail) == node_views(head) + node_views(tail));
            },
            node => {
                let ghost head = out@;
                out.push(node.clone());
                assert(node_views(out@) == node_views(head) + seq![nodes@[i as int]@]);
            },
        }
        i += 1;
    }
    assert(nodes@.take(i as int) == nodes@);
    out
}

/// Joins every run of neighbouring texts among `nodes` into one text.
pub fn merge_texts(nodes: &[Node]) -> (out: Vec<Node>)
    ensures
        node_views(out@) == merge(node_views(nodes@)),
{
    let mut out: Vec<Node> = Vec::new();
    let mut run: String = String::new();
    let mut open: bool = false;
    let mut i: usize = 0;
    assert(nodes@.take(0) == Seq::<Node>::empty());
    assert(node_views(out@) == Seq::<NodeView>::empty());
    while i < nodes.len()
        invariant
            i <= nodes.len(),
            open ==> merge(node_views(nodes@.take(i as int))) == node_views(out@).push(
                NodeView::Text(run@),
            ),
            !open ==> merge(node_views(nodes@.take(i as int))) == node_views(out@),
            !open ==> out.len() == 0 || !(out@.last()@ is Text),
            !open ==> run@.len() == 0,
        decreases nodes.len() - i,
    {
        let ghost before = node_views(nodes@.take(i as int));
        let ghost now = node_views(nodes@.take(i + 1));
        assert(now.drop_last() == before);
        assert(now.last() == nodes@[i as int]@);
        let ghost done = node_views(out@);
        match &nodes[i] {
            Node::Text(text) => {
                let ghost joined = run@ + text@;
                run.append(text.as_str());
                if open {
                    assert(done.push(NodeView::Text(joined)).drop_last() == done);
                } else {
                    assert(joined == text@);
                    assert(done.len() > 0 ==> done.last() == out@.last()@);
                }
                open = true;
            },
            node => {
                if open {
                    out.push(Node::Text(run));
                    run = String::new();
                    open = false;
                }
                let ghost head = out@;
                out.push(node.clone());
                assert(node_views(out@) == node_views(head).push(nodes@[i as int]@));
            },
        }
        i += 1;
    }
    assert(nodes@.take(i as int) == nodes@);
    if open {
        let ghost head = out@;
        out.push(Node::Text(run));
        assert(node_views(out@) == node_views(head).push(NodeView::Text(run@)));
    }
    out
}

/// The node that stands for a list of already normalised nodes: the list
/// inlined and merged, or its only element where it has exactly one.
pub fn list_optimize(nodes: &[Node]) -> (r: Node)
    ensures
        r@ == list_normalize(node_views(nodes@)),
{
    let out = list_optimize_helper(nodes);
    let out = merge_texts(out.as_slice());
    let mut out = list_optimize_helper(out.as_slice());
    if out.len() == 1 {
        let ghost views = node_views(out@);
        assert(views[0] == out@[0]@);
        match out.pop() {
            Some(node) => node,
            None => Node::List(out),
        }
    } else {
        Node::List(out)
    }
}

impl Node {
    /// The normal form of the tree. Normalising it again changes nothing.
    pub fn optimize(&self) -> (r: Node)
        ensures
            r@ == normalize(self@),
            canonical(r@),
            normalize(r@) == r@,
        decreases self,
    {
        proof {
            lemma_normalize_canonical(self@);
            lemma_normalize_idempotent(self@);
        }
        match self {
            Node::List(children) => {
                let mut done: Vec<Node> = Vec::new();
                let mut i: usize = 0;
                while i < children.len()
                    invariant
                        *self == Node::List(*children),
                        i <= children.len(),
                        done.len() == i,
                        forall|j: int| 0 <= j < i ==> done@[j]@ == normalize(children@[j]@),
                    decreases children.len() - i,
                {
                    assert(decreases_to!(self => self->List_0));
                    done.push(children[i].optimize());
                    i += 1;
                }
                assert(node_views(done@) == normalize_all(node_views(children@)));
                list_optimize(done.as_slice())
            },
            Node::Encap(kind, child) => Node::Encap(*kind, Box::new(child.optimize())),
            Node::LocalRef(local) => Node::LocalRef(*local),
            Node::GlobalRef(global) => Node::GlobalRef(global.clone()),
            Node::Text(text) => Node::Text(text.clone()),
            Node::Anchor(url, child) => Node::Anchor(url.clone(), Box::new(child.optimize())),
        }
    }
}

/// No element of `nodes` is a list.
pub open spec fn no_lists(nodes: Seq<NodeView>) -> bool {
    forall|i: int| 0 <= i < nodes.len() ==> !(#[trigger] nodes[i] is List)
}

/// No two neighbours in `nodes` are both texts.
pub open spec fn no_adjacent_texts(nodes: Seq<NodeView>) -> bool {
    forall|i: int| 0 < i < nodes.len() ==> !(#[trigger] nodes[i] is Text && nodes[i - 1] is Text)
}

/// No list anywhere in the tree holds a list.
pub open spec fn flat(node: NodeView) -> bool
    decreases node,
{
    match node {
        NodeView::List(children) => no_lists(children) && forall|i: int|
            0 <= i < children.len() ==> flat(#[trigger] children[i]),
        NodeView::Encap(_, child) => flat(*child),
        NodeView::Anchor(_, child) => flat(*child),
        _ => true,
    }
}

/// No list anywhere in the tree holds two texts side by side.
pub open spec fn merged(node: NodeView) -> bool
    decreases node,
{
    match node {
        NodeView::List(children) => no_adjacent_texts(children) && forall|i: int|
            0 <= i < children.len() ==> merged(#[trigger] children[i]),
        NodeView::Encap(_, child) => merged(*child),
        NodeView::Anchor(_, child) => merged(*child),
        _ => true,
    }
}

/// No list anywhere in the tree has exactly one element.
pub open spec fn collapsed(node: NodeView) -> bool
    decreases node,
{
    match node {
        NodeView::List(children) => children.len() != 1 && forall|i: int|
            0 <= i < children.len() ==> collapsed(#[trigger] children[i]),
        NodeView::Encap(_, child) => collapsed(*child),
        NodeView::Anchor(_, child) => collapsed(*child),
        _ => true,
    }
}

/// The shape that normalisation produces and leaves alone.
pub open spec fn canonical(node: NodeView) -> bool {
    flat(node) && merged(node) && collapsed(node)
}

pub open spec fn all_canonical(nodes: Seq<NodeView>) -> bool {
    forall|i: int| 0 <= i < nodes.len() ==> canonical(#[trigger] nodes[i])
}

proof fn lemma_flatten_no_lists(nodes: Seq<NodeView>)
    ensures
        no_lists(flatten(nodes)),
    decreases nodes,
{
    if nodes.len() > 0 {
        lemma_flatten_no_lists(nodes.drop_last());
        match nodes.last() {
            NodeView::List(inner) => {
                lemma_flatten_no_lists(inner);
            },
            _ => {},
        }
    }
}

proof fn lemma_flatten_fixed(nodes: Seq<NodeView>)
    requires
        no_lists(nodes),
    ensures
        flatten(nodes) == nodes,
    decreases nodes.len(),
{
    if nodes.len() > 0 {
        lemma_flatten_fixed(nodes.drop_last());
        assert(nodes.drop_last().push(nodes.last()) == nodes);
    }
}

/// Inlining keeps canonical elements canonical.
proof fn lemma_flatten_canonical(nodes: Seq<NodeView>)
    requires
        all_canonical(nodes),
    ensures
        all_canonical(flatten(nodes)),
    decreases nodes.len(),
{
    if nodes.len() > 0 {
        lemma_flatten_canonical(nodes.drop_last());
        match nodes.last() {
            NodeView::List(inner) => {
                lemma_flatten_fixed(inner);
            },
            _ => {},
        }
    }
}

proof fn lemma_merge_shape(nodes: Seq<NodeView>)
    ensures
        no_adjacent_texts(merge(nodes)),
        no_lists(nodes) ==> no_lists(merge(nodes)),
        all_canonical(nodes) ==> all_canonical(merge(nodes)),
        nodes.len() > 0 ==> merge(nodes).len() > 0,
    decreases nodes.len(),
{
    if nodes.len() > 0 {
        lemma_merge_shape(nodes.drop_last());
    }
}

proof fn lemma_merge_fixed(nodes: Seq<NodeView>)
    requires
        no_adjacent_texts(nodes),
    ensures
        merge(nodes) == nodes,
    decreases nodes.len(),
{
    if nodes.len() > 0 {
        lemma_merge_fixed(nodes.drop_last());
        assert(nodes.drop_last().push(nodes.last()) == nodes);
    }
}

proof fn lemma_list_normalize_canonical(nodes: Seq<NodeView>)
    requires
        all_canonical(nodes),
    ensures
        canonical(list_normalize(nodes)),
{
    let a = flatten(nodes);
    lemma_flatten_no_lists(nodes);
    lemma_flatten_canonical(nodes);
    let b = merge(a);
    lemma_merge_shape(a);
    lemma_flatten_fixed(b);
}

/// Normalisation yields the canonical shape.
pub proof fn lemma_normalize_canonical(node: NodeView)
    ensures
        canonical(normalize(node)),
    decreases node,
{
    match node {
        NodeView::List(children) => {
            let done = normalize_all(children);
            assert forall|i: int| 0 <= i < done.len() implies canonical(#[trigger] done[i]) by {
                lemma_normalize_canonical(children[i]);
            }
            lemma_list_normalize_canonical(done);
        },
        NodeView::Encap(_, child) => {
            lemma_normalize_canonical(*child);
        },
        NodeView::Anchor(_, child) => {
            lemma_normalize_canonical(*child);
        },
        _ => {},
    }
}

/// Normalisation leaves the canonical shape as it is.
pub proof fn lemma_normalize_fixed(node: NodeView)
    requires
        canonical(node),
    ensures
        normalize(node) == node,
    decreases node,
{
    match node {
        NodeView::List(children) => {
            assert forall|i: int| 0 <= i < children.len() implies normalize(children[i])
                == children[i] by {
                lemma_normalize_fixed(children[i]);
            }
            assert(normalize_all(children) == children);
            lemma_flatten_fixed(children);
            lemma_merge_fixed(children);
        },
        NodeView::Encap(_, child) => {
            lemma_normalize_fixed(*child);
        },
        NodeView::Anchor(_, child) => {
            lemma_normalize_fixed(*child);
        },
        _ => {},
    }
}

/// Normalising twice gives what normalising once gives.
pub proof fn lemma_normalize_idempotent(node: NodeView)
    ensures
        normalize(normalize(node)) == normalize(node),
{
    lemma_normalize_canonical(node);
    lemma_normalize_fixed(normalize(node));
}

/// A normal form never holds a list inside a list.
pub proof fn lemma_normalize_flat(node: NodeView)
    ensures
        flat(normalize(node)),
        normalize(node) matches NodeView::List(children) ==> no_lists(children),
{
    lemma_normalize_canonical(node);
}

/// A normal form never holds two texts side by side in one list.
pub proof fn lemma_normalize_merged(node: NodeView)
    ensures
        merged(normalize(node)),
        normalize(node) matches NodeView::List(children) ==> no_adjacent_texts(children),
{
    lemma_normalize_canonical(node);
}

/// A list of one node has the normal form of that node.
pub proof fn lemma_normalize_singleton(node: NodeView)
    ensures
        normalize(NodeView::List(seq![node])) == normalize(node),
{
    let done = normalize(node);
    lemma_normalize_canonical(node);
    assert(normalize_all(seq![node]) == seq![done]);
    assert(seq![done].drop_last() == Seq::<NodeView>::empty());
    assert(flatten(Seq::<NodeView>::empty()) == Seq::<NodeView>::empty());
    assert(merge(Seq::<NodeView>::empty()) == Seq::<NodeView>::empty());
    match done {
        NodeView::List(inner) => {
            lemma_flatten_fixed(inner);
            lemma_merge_fixed(inner);
            assert(flatten(seq![done]) == flatten(inner));
        },
        _ => {
            assert(flatten(seq![done]) == seq![done]);
            assert(merge(seq![done]) == seq![done]);
        },
    }
}

} // verus!
