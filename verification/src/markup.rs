//! The markup tree that classification reads, and its import from the
//! document object model that the HTML parser builds.
use vstd::prelude::*;
use std::rc::Rc;
use html5ever::parse_document;
use markup5ever_rcdom::{Node as DomNode, NodeData, RcDom};
use tendril::TendrilSink;

verus! {

/// One attribute of an element: its local name and its value.
#[derive(Debug, PartialEq, Eq)]
pub struct Attribute {
    pub name: String,
    pub value: String,
}

pub struct AttributeView {
    pub name: Seq<char>,
    pub value: Seq<char>,
}

impl View for Attribute {
    type V = AttributeView;

    open spec fn view(&self) -> AttributeView {
        AttributeView { name: self.name@, value: self.value@ }
    }
}

/// The views of a sequence of attributes, one for one.
pub open spec fn attribute_views(attrs: Seq<Attribute>) -> Seq<AttributeView> {
    Seq::new(attrs.len(), |i: int| attrs[i]@)
}

/// What a node of the markup tree is, apart from its children.
#[derive(Debug, PartialEq, Eq)]
pub enum MarkupData {
    Document,
    Doctype,
    Text(String),
    Comment,
    /// An element: its local tag name and its attributes in source order.
    Element(String, Vec<Attribute>),
    ProcessingInstruction,
}

pub enum MarkupDataView {
    Document,
    Doctype,
    Text(Seq<char>),
    Comment,
    Element(Seq<char>, Seq<AttributeView>),
    ProcessingInstruction,
}

impl View for MarkupData {
    type V = MarkupDataView;

    open spec fn view(&self) -> MarkupDataView {
        match self {
            MarkupData::Document => MarkupDataView::Document,
            MarkupData::Doctype => MarkupDataView::Doctype,
            MarkupData::Text(text) => MarkupDataView::Text(text@),
            MarkupData::Comment => MarkupDataView::Comment,
            MarkupData::Element(tag, attrs) => MarkupDataView::Element(
                tag@,
                attribute_views(attrs@),
            ),
            MarkupData::ProcessingInstruction => MarkupDataView::ProcessingInstruction,
        }
    }
}

/// A node of the markup tree with its children in document order.
#[derive(Debug, PartialEq, Eq)]
pub struct Markup {
    pub data: MarkupData,
    pub children: Vec<Markup>,
}

pub struct MarkupView {
    pub data: MarkupDataView,
    pub children: Seq<MarkupView>,
}

/// The mathematical value of a markup tree.
pub open spec fn markup_view(markup: Markup) -> MarkupView
    decreases markup,
{
    MarkupView { data: markup.data@, children: markup_views(markup.children@) }
}

/// The views of a sequence of markup trees, one for one.
pub open spec fn markup_views(nodes: Seq<Markup>) -> Seq<MarkupView>
    decreases nodes,
{
    Seq::new(
        nodes.len(),
        |i: int|
            if 0 <= i < nodes.len() {
                markup_view(nodes[i])
            } else {
                arbitrary()
            },
    )
}

impl View for Markup {
    type V = MarkupView;

    open spec fn view(&self) -> MarkupView {
        markup_view(*self)
    }
}

/// The longest input, in bytes, that is handed to the HTML parser.
///
/// The parser collects text, comments and attribute values in buffers that
/// grow to the next power of two and refuse to grow past 2^31 bytes. A
/// buffer may hold three bytes for one byte of input, since each NUL byte
/// becomes a replacement character. Three times this bound is below 2^30,
/// so a buffer stays at 2^30 bytes or less, which with its header can still
/// be allocated where addresses have 32 bits.
pub const MAX_INPUT_LEN: usize = 0x1555_5555;

/// `markup5ever_rcdom::Node`, a node of the document object model that the
/// parser fills. Nothing inside it is visible here; it is only handed on.
#[verifier::external_type_specification]
#[verifier::external_body]
pub struct ExDomNode(DomNode);

/// The markup tree that a node of the parser's document object model stands
/// for: the node's own data, and below it the trees of its child nodes. The
/// parser appends each node to one parent only, so what it builds is a
/// finite tree, and it is not changed once parsing is done.
pub uninterp spec fn dom_tree(node: DomNode) -> MarkupView;

/// The markup tree that the HTML parser builds from a document text.
pub uninterp spec fn parsed_markup(buf: Seq<char>) -> MarkupView;

/// Runs `html5ever::parse_document` with the default options on the whole of
/// `buf`, into a fresh `RcDom`, and returns the document node. The tree below
/// that node is a function of the text alone and goes by the name
/// `parsed_markup`.
#[verifier::external_body]
fn parse_dom(buf: &str) -> (document: Rc<DomNode>)
    requires
        buf.len() <= MAX_INPUT_LEN,
    ensures
        dom_tree(*document) == parsed_markup(buf@),
{
    parse_document(RcDom::default(), Default::default()).one(buf).document
}

/// Reads the field `data` of a node of `markup5ever_rcdom`: which variant
/// of `NodeData` it is, the text of a text node, and the local name and the
/// attributes (local name and value each) of an element.
#[verifier::external_body]
fn node_data(node: &Rc<DomNode>) -> (data: MarkupData)
    ensures
        data@ == dom_tree(**node).data,
{
    match node.data {
        NodeData::Document => MarkupData::Document,
        NodeData::Doctype { .. } => MarkupData::Doctype,
        NodeData::Text { ref contents } => MarkupData::Text(contents.borrow().to_string()),
        NodeData::Comment { .. } => MarkupData::Comment,
        NodeData::Element { ref name, ref attrs, .. } => MarkupData::Element(
            name.local.to_string(),
            attrs.borrow().iter().map(
                |a| Attribute { name: a.name.local.to_string(), value: a.value.to_string() },
            ).collect(),
        ),
        NodeData::ProcessingInstruction { .. } => MarkupData::ProcessingInstruction,
    }
}

/// Reads the field `children` of a node of `markup5ever_rcdom`: handles to
/// the child nodes in document order, each standing for the matching child
/// tree.
#[verifier::external_body]
fn node_children(node: &Rc<DomNode>) -> (children: Vec<
    Rc<DomNode>,
>)
    ensures
        children@.len() == dom_tree(**node).children.len(),
        forall|i: int|
            0 <= i < children@.len() ==> dom_tree(*#[trigger] children@[i]) == dom_tree(
                **node,
            ).children[i],
{
    node.children.borrow().clone()
}

/// Copies the tree below a node of the document object model into a markup
/// tree of plain values.
fn import(node: &Rc<DomNode>) -> (markup: Markup)
    ensures
        markup@ == dom_tree(**node),
    decreases dom_tree(**node),
{
    let data = node_data(node);
    let handles = node_children(node);
    let mut children: Vec<Markup> = Vec::new();
    let mut i: usize = 0;
    while i < handles.len()
        invariant
            i <= handles.len(),
            children.len() == i,
            handles@.len() == dom_tree(**node).children.len(),
            forall|j: int|
                0 <= j < handles@.len() ==> dom_tree(*#[trigger] handles@[j]) == dom_tree(
                    **node,
                ).children[j],
            forall|j: int| 0 <= j < i ==> children@[j]@ == dom_tree(**node).children[j],
        decreases handles.len() - i,
    {
        assert(decreases_to!(dom_tree(**node) => dom_tree(**node).children));
        children.push(import(&handles[i]));
        i += 1;
    }
    assert(markup_views(children@) == dom_tree(**node).children);
    Markup { data, children }
}

/// Parses a document text into its markup tree.
pub fn parse_markup(buf: &str) -> (markup: Markup)
    requires
        buf.len() <= MAX_INPUT_LEN,
    ensures
        markup@ == parsed_markup(buf@),
{
    let document = parse_dom(buf);
    import(&document)
}

} // verus!
