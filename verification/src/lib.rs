//! Conversion of imageboard post markup into a small rich-text tree.
//!
//! A post body arrives as an HTML fragment. It is parsed into a markup tree,
//! classified against a closed whitelist of tags and attributes, normalised
//! into a canonical shape and rendered as tagged JSON or as BBCode.
use vstd::prelude::*;

pub mod bbcode;
pub mod capi;
pub mod dehtml;
pub mod json;
pub mod markup;
pub mod normalize;
pub mod reference;
pub mod text;

verus! {

/// The rendering intent that an encapsulating node gives to its child.
#[derive(Clone, Copy, Debug, PartialEq, Eq)]
pub enum EncapKind {
    Quote,
    Spoiler,
    Ban,
}

impl EncapKind {
    /// The tag under which the kind appears in both output formats.
    pub open spec fn name(self) -> Seq<char> {
        match self {
            EncapKind::Quote => "quote"@,
            EncapKind::Spoiler => "spoiler"@,
            EncapKind::Ban => "ban"@,
        }
    }

    pub fn as_str(&self) -> (s: &'static str)
        ensures
            s@ == self.name(),
    {
        match *self {
            EncapKind::Quote => "quote",
            EncapKind::Spoiler => "spoiler",
            EncapKind::Ban => "ban",
        }
    }
}

/// A reference to a post of the thread that is being rendered.
#[derive(Clone, Copy, Debug, PartialEq, Eq)]
pub struct LocalRef {
    pub post: u64,
}

/// What a reference that names its board points at.
#[derive(Debug, PartialEq, Eq)]
pub enum GlobalRefTarget {
    Board,
    Catalog,
    Thread(u64),
    Post(u64, u64),
    Search(String),
}

pub enum GlobalRefTargetView {
    Board,
    Catalog,
    Thread(u64),
    Post(u64, u64),
    Search(Seq<char>),
}

impl View for GlobalRefTarget {
    type V = GlobalRefTargetView;

    open spec fn view(&self) -> GlobalRefTargetView {
        match self {
            GlobalRefTarget::Board => GlobalRefTargetView::Board,
            GlobalRefTarget::Catalog => GlobalRefTargetView::Catalog,
            GlobalRefTarget::Thread(thread) => GlobalRefTargetView::Thread(*thread),
            GlobalRefTarget::Post(thread, post) => GlobalRefTargetView::Post(*thread, *post),
            GlobalRefTarget::Search(term) => GlobalRefTargetView::Search(term@),
        }
    }
}

impl Clone for GlobalRefTarget {
    fn clone(&self) -> (r: Self)
        ensures
            r@ == self@,
    {
        match self {
            GlobalRefTarget::Board => GlobalRefTarget::Board,
            GlobalRefTarget::Catalog => GlobalRefTarget::Catalog,
            GlobalRefTarget::Thread(thread) => GlobalRefTarget::Thread(*thread),
            GlobalRefTarget::Post(thread, post) => GlobalRefTarget::Post(*thread, *post),
            GlobalRefTarget::Search(term) => GlobalRefTarget::Search(term.clone()),
        }
    }
}

impl GlobalRefTargetView {
    /// The post number that the target resolves to, if it names one.
    pub open spec fn best_post(self) -> Option<u64> {
        match self {
            GlobalRefTargetView::Thread(thread) => Some(thread),
            GlobalRefTargetView::Post(_, post) => Some(post),
            _ => None,
        }
    }
}

/// A reference to a board, or to something on it.
#[derive(Debug, PartialEq, Eq)]
pub struct GlobalRef {
    pub board: String,
    pub target: GlobalRefTarget,
}

pub struct GlobalRefView {
    pub board: Seq<char>,
    pub target: GlobalRefTargetView,
}

impl View for GlobalRef {
    type V = GlobalRefView;

    open spec fn view(&self) -> GlobalRefView {
        GlobalRefView { board: self.board@, target: self.target@ }
    }
}

impl Clone for GlobalRef {
    fn clone(&self) -> (r: Self)
        ensures
            r@ == self@,
    {
        GlobalRef { board: self.board.clone(), target: self.target.clone() }
    }
}

impl GlobalRef {
    /// The post number that the reference resolves to: the thread's for a
    /// thread, the post's for a post, none for the others.
    pub fn best_post(&self) -> (r: Option<u64>)
        ensures
            r == self@.target.best_post(),
    {
        match self.target {
            GlobalRefTarget::Board => None,
            GlobalRefTarget::Catalog => None,
            GlobalRefTarget::Thread(thread) => Some(thread),
            GlobalRefTarget::Post(_, post) => Some(post),
            GlobalRefTarget::Search(_) => None,
        }
    }
}

/// The rich-text tree of a post.
#[derive(Debug, PartialEq, Eq)]
pub enum Node {
    /// The nodes one after another.
    List(Vec<Node>),
    /// A child that is to be rendered as a quote, a spoiler or a ban notice.
    Encap(EncapKind, Box<Node>),
    LocalRef(LocalRef),
    GlobalRef(GlobalRef),
    /// A run of literal text.
    Text(String),
    /// A hyperlink that is no reference, around what it shows.
    Anchor(String, Box<Node>),
}

pub enum NodeView {
    List(Seq<NodeView>),
    Encap(EncapKind, Box<NodeView>),
    LocalRef(u64),
    GlobalRef(GlobalRefView),
    Text(Seq<char>),
    Anchor(Seq<char>, Box<NodeView>),
}

/// The mathematical value of a tree.
pub open spec fn node_view(node: Node) -> NodeView
    decreases node,
{
    match node {
        Node::List(nodes) => NodeView::List(node_views(nodes@)),
        Node::Encap(kind, child) => NodeView::Encap(kind, Box::new(node_view(*child))),
        Node::LocalRef(local) => NodeView::LocalRef(local.post),
        Node::GlobalRef(global) => NodeView::GlobalRef(global@),
        Node::Text(text) => NodeView::Text(text@),
        Node::Anchor(url, child) => NodeView::Anchor(url@, Box::new(node_view(*child))),
    }
}

/// The views of a sequence of nodes, one for one.
pub open spec fn node_views(nodes: Seq<Node>) -> Seq<NodeView>
    decreases nodes,
{
    Seq::new(
        nodes.len(),
        |i: int|
            if 0 <= i < nodes.len() {
                node_view(nodes[i])
            } else {
                arbitrary()
            },
    )
}

impl View for Node {
    type V = NodeView;

    open spec fn view(&self) -> NodeView {
        node_view(*self)
    }
}

impl Clone for Node {
    fn clone(&self) -> (r: Self)
        ensures
            r@ == self@,
        decreases self,
    {
        match self {
            Node::List(nodes) => {
                let mut copies: Vec<Node> = Vec::new();
                let mut i: usize = 0;
                while i < nodes.len()
                    invariant
                        *self == Node::List(*nodes),
                        i <= nodes.len(),
                        copies.len() == i,
                        forall|j: int| 0 <= j < i ==> copies[j]@ == nodes[j]@,
                    decreases nodes.len() - i,
                {
                    assert(decreases_to!(self => self->List_0));
                    copies.push(nodes[i].clone());
                    i += 1;
                }
                assert(node_views(copies@) == node_views(nodes@));
                Node::List(copies)
            },
            Node::Encap(kind, child) => Node::Encap(*kind, Box::new((**child).clone())),
            Node::LocalRef(local) => Node::LocalRef(*local),
            Node::GlobalRef(global) => Node::GlobalRef(global.clone()),
            Node::Text(text) => Node::Text(text.clone()),
            Node::Anchor(url, child) => Node::Anchor(url.clone(), Box::new((**child).clone())),
        }
    }
}

/// The tree of a document: its classification, lowered and normalised; or
/// why the document is refused.
pub open spec fn converted(nodes: Seq<markup::MarkupView>) -> Result<NodeView, dehtml::ErrorView> {
    match dehtml::loaded(nodes) {
        Ok(node) => Ok(normalize::normalize(node)),
        Err(error) => Err(error),
    }
}

/// Classifies markup trees and normalises the result.
pub fn convert(nodes: &[markup::Markup]) -> (r: Result<Node, dehtml::Error>)
    ensures
        dehtml::loaded_view(r) == converted(markup::markup_views(nodes@)),
        r matches Ok(node) ==> normalize::canonical(node@),
{
    match dehtml::load_html(nodes) {
        Ok(node) => Ok(node.optimize()),
        Err(error) => Err(error),
    }
}

/// Parses the text of a post body and converts it into its normalised tree.
pub fn parse_html(buf: &str) -> (r: Result<Node, dehtml::Error>)
    requires
        buf.len() <= markup::MAX_INPUT_LEN,
    ensures
        dehtml::loaded_view(r) == converted(seq![markup::parsed_markup(buf@)]),
        r matches Ok(node) ==> normalize::canonical(node@),
{
    let mut nodes: Vec<markup::Markup> = Vec::new();
    nodes.push(markup::parse_markup(buf));
    assert(markup::markup_views(nodes@) == seq![markup::parsed_markup(buf@)]);
    convert(nodes.as_slice())
}

} // verus!
