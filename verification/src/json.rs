//! Rendering of a tree as tagged JSON arrays, in the compact form.
use vstd::prelude::*;
use vstd::utf8::encode_utf8;
use crate::text::{decimal, push_decimal};
use crate::{EncapKind, GlobalRefTarget, GlobalRefTargetView, Node, NodeView, node_views};

verus! {

/// The JSON string literal for `text`, quotes and escapes included, as
/// bytes.
pub uninterp spec fn json_string(text: Seq<char>) -> Seq<u8>;

/// Encodes `text` with `serde_json::to_vec`. The bytes are a function of
/// `text` alone and go by the name `json_string`.
///
/// The call always succeeds: a string is encoded by writing its quotes,
/// fragments and escapes to the output, so the only error it can meet is one
/// of the output, and the output is a vector in memory, to which every write
/// succeeds.
#[verifier::external_body]
fn encode_string(text: &str) -> (bytes: Option<Vec<u8>>)
    ensures
        bytes is Some,
        bytes matches Some(bytes) ==> bytes@ == json_string(text@),
{
    serde_json::to_vec(text).ok()
}

/// A fixed tag between double quotes. Tags hold nothing that JSON escapes.
pub open spec fn tag(name: Seq<char>) -> Seq<u8> {
    seq![0x22u8] + encode_utf8(name) + seq![0x22u8]
}

/// A number in decimal digits.
pub open spec fn number(n: u64) -> Seq<u8> {
    encode_utf8(decimal(n as nat))
}

/// `items` with a comma between each two.
pub open spec fn separated(items: Seq<Seq<u8>>) -> Seq<u8>
    decreases items.len(),
{
    if items.len() == 0 {
        Seq::empty()
    } else if items.len() == 1 {
        items[0]
    } else {
        separated(items.drop_last()) + seq![0x2Cu8] + items.last()
    }
}

/// The JSON array of already encoded items: `[`, the items with commas
/// between them, `]`.
pub open spec fn array(items: Seq<Seq<u8>>) -> Seq<u8> {
    seq![0x5Bu8] + separated(items) + seq![0x5Du8]
}

/// The fields that follow `"globalref"` for a target on `board`.
pub open spec fn target_items(board: Seq<char>, target: GlobalRefTargetView) -> Seq<Seq<u8>> {
    match target {
        GlobalRefTargetView::Board => seq![tag("board"@), json_string(board)],
        GlobalRefTargetView::Catalog => seq![tag("catalog"@), json_string(board)],
        GlobalRefTargetView::Thread(thread) => seq![
            tag("thread"@),
            json_string(board),
            number(thread),
        ],
        GlobalRefTargetView::Post(thread, post) => seq![
            tag("post"@),
            json_string(board),
            number(thread),
            number(post),
        ],
        GlobalRefTargetView::Search(term) => seq![
            tag("search"@),
            json_string(board),
            json_string(term),
        ],
    }
}

/// The JSON text of a tree, as bytes: an array that begins with the tag of
/// the node's kind.
pub open spec fn json(node: NodeView) -> Seq<u8>
    decreases node,
{
    match node {
        NodeView::List(children) => array(seq![tag("list"@), array(json_all(children))]),
        NodeView::Encap(kind, child) => array(seq![tag(kind.name()), json(*child)]),
        NodeView::LocalRef(post) => array(seq![tag("localref"@), number(post)]),
        NodeView::GlobalRef(global) => array(
            seq![tag("globalref"@)] + target_items(global.board, global.target),
        ),
        NodeView::Text(text) => array(seq![tag("text"@), json_string(text)]),
        NodeView::Anchor(url, child) => array(
            seq![tag("anchor"@), json_string(url), json(*child)],
        ),
    }
}

/// The JSON texts of `nodes`, one for one.
pub open spec fn json_all(nodes: Seq<NodeView>) -> Seq<Seq<u8>>
    decreases nodes,
{
    Seq::new(
        nodes.len(),
        |i: int|
            if 0 <= i < nodes.len() {
                json(nodes[i])
            } else {
                arbitrary()
            },
    )
}

/// The views of a sequence of byte vectors, one for one.
pub open spec fn byte_views(items: Seq<Vec<u8>>) -> Seq<Seq<u8>> {
    Seq::new(items.len(), |i: int| items[i]@)
}

/// The JSON string literal for `text`.
fn string_bytes(text: &str) -> (bytes: Vec<u8>)
    ensures
        bytes@ == json_string(text@),
{
    encode_string(text).unwrap()
}

fn tag_bytes(name: &str) -> (bytes: Vec<u8>)
    ensures
        bytes@ == tag(name@),
{
    let mut bytes: Vec<u8> = Vec::new();
    bytes.push(0x22u8);
    bytes.extend_from_slice(name.as_bytes());
    bytes.push(0x22u8);
    bytes
}

fn number_bytes(n: u64) -> (bytes: Vec<u8>)
    ensures
        bytes@ == number(n),
{
    let mut digits = String::new();
    push_decimal(&mut digits, n);
    digits.as_str().as_bytes_vec()
}

/// Frames encoded items as a JSON array.
fn array_bytes(items: &Vec<Vec<u8>>) -> (bytes: Vec<u8>)
    ensures
        bytes@ == array(byte_views(items@)),
{
    let mut bytes: Vec<u8> = Vec::new();
    bytes.push(0x5Bu8);
    let mut i: usize = 0;
    assert(byte_views(items@).take(0) == Seq::<Seq<u8>>::empty());
    while i < items.len()
        invariant
            i <= items.len(),
            bytes@ == seq![0x5Bu8] + separated(byte_views(items@).take(i as int)),
        decreases items.len() - i,
    {
        let ghost all = byte_views(items@);
        assert(all.take(i + 1).drop_last() == all.take(i as int));
        assert(all.take(i + 1).last() == items@[i as int]@);
        let ghost before = separated(all.take(i as int));
        if i > 0 {
            bytes.push(0x2Cu8);
        }
        bytes.extend_from_slice(items[i].as_slice());
        proof {
            if i > 0 {
                assert(bytes@ == seq![0x5Bu8] + (before + seq![0x2Cu8] + items@[i as int]@));
            } else {
                assert(before == Seq::<u8>::empty());
                assert(all.take(1)[0] == items@[0]@);
                assert(bytes@ == seq![0x5Bu8] + items@[0]@);
            }
        }
        i += 1;
    }
    assert(byte_views(items@).take(i as int) == byte_views(items@));
    bytes.push(0x5Du8);
    bytes
}

impl EncapKind {
    /// The JSON text of the kind: its tag as a string.
    pub fn serialize(&self) -> (bytes: Vec<u8>)
        ensures
            bytes@ == tag(self.name()),
    {
        tag_bytes(self.as_str())
    }
}

/// The encoded fields of a global reference, the leading tag included.
fn target_bytes(board: &str, target: &GlobalRefTarget) -> (items: Vec<Vec<u8>>)
    ensures
        byte_views(items@) == seq![tag("globalref"@)] + target_items(board@, target@),
{
    let mut items: Vec<Vec<u8>> = Vec::new();
    items.push(tag_bytes("globalref"));
    match target {
        GlobalRefTarget::Board => {
            items.push(tag_bytes("board"));
            items.push(string_bytes(board));
        },
        GlobalRefTarget::Catalog => {
            items.push(tag_bytes("catalog"));
            items.push(string_bytes(board));
        },
        GlobalRefTarget::Thread(thread) => {
            items.push(tag_bytes("thread"));
            items.push(string_bytes(board));
            items.push(number_bytes(*thread));
        },
        GlobalRefTarget::Post(thread, post) => {
            items.push(tag_bytes("post"));
            items.push(string_bytes(board));
            items.push(number_bytes(*thread));
            items.push(number_bytes(*post));
        },
        GlobalRefTarget::Search(term) => {
            items.push(tag_bytes("search"));
            items.push(string_bytes(board));
            items.push(string_bytes(term.as_str()));
        },
    }
    assert(byte_views(items@) == seq![tag("globalref"@)] + target_items(board@, target@));
    items
}

impl Node {
    /// The JSON text of the tree, as bytes.
    pub fn serialize(&self) -> (bytes: Vec<u8>)
        ensures
            bytes@ == json(self@),
        decreases self,
    {
        let mut items: Vec<Vec<u8>> = Vec::new();
        match self {
            Node::List(nodes) => {
                let mut inner: Vec<Vec<u8>> = Vec::new();
                let mut i: usize = 0;
                let ghost views = node_views(nodes@);
                while i < nodes.len()
                    invariant
                        *self == Node::List(*nodes),
                        views == node_views(nodes@),
                        i <= nodes.len(),
                        inner.len() == i,
                        forall|j: int| 0 <= j < i ==> json(views[j]) == inner@[j]@,
                    decreases nodes.len() - i,
                {
                    assert(decreases_to!(self => self->List_0));
                    inner.push(nodes[i].serialize());
                    i += 1;
                }
                assert(json_all(views) == byte_views(inner@));
                items.push(tag_bytes("list"));
                items.push(array_bytes(&inner));
                assert(byte_views(items@) == seq![tag("list"@), array(json_all(views))]);
            },
            Node::Encap(kind, child) => {
                items.push(kind.serialize());
                items.push(child.serialize());
                assert(byte_views(items@) == seq![tag(kind.name()), json(child@)]);
            },
            Node::LocalRef(local) => {
                items.push(tag_bytes("localref"));
                items.push(number_bytes(local.post));
                assert(byte_views(items@) == seq![tag("localref"@), number(local.post)]);
            },
            Node::GlobalRef(global) => {
                items = target_bytes(global.board.as_str(), &global.target);
            },
            Node::Text(text) => {
                items.push(tag_bytes("text"));
                items.push(string_bytes(text.as_str()));
                assert(byte_views(items@) == seq![tag("text"@), json_string(text@)]);
            },
            Node::Anchor(url, child) => {
                items.push(tag_bytes("anchor"));
                items.push(string_bytes(url.as_str()));
                items.push(child.serialize());
                assert(byte_views(items@) == seq![
                    tag("anchor"@),
                    json_string(url@),
                    json(child@),
                ]);
            },
        }
        array_bytes(&items)
    }
}

} // verus!
