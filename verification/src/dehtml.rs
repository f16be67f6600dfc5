//! Classification of a markup tree against the closed whitelist of tags and
//! attributes, into the tree of a post as it stands before normalisation.
use vstd::prelude::*;
use crate::markup::{
    attribute_views, markup_views, Attribute, AttributeView, Markup, MarkupData, MarkupDataView,
    MarkupView,
};
use crate::reference::{
    deadlink, decompose, identify_span_deadlink, referenced, resolve_path, site_base, url_parts,
};
use crate::text::{
    chars_of, find_char, parse_u64_at, pieces, position, starts_with, str_eq, string_of,
    string_views,
};
use crate::{EncapKind, GlobalRef, GlobalRefView, LocalRef, NodeView};

verus! {

/// A node as classification produces it. Line breaks and word-break
/// opportunities are still kinds of their own here.
#[derive(Debug, PartialEq, Eq)]
pub enum Node {
    List(Vec<Node>),
    Encap(EncapKind, Box<Node>),
    LocalRef(LocalRef),
    GlobalRef(GlobalRef),
    Text(String),
    LineBreak,
    WordBreakOpportunity,
    Anchor(String, Box<Node>),
}

pub enum RawView {
    List(Seq<RawView>),
    Encap(EncapKind, Box<RawView>),
    LocalRef(u64),
    GlobalRef(GlobalRefView),
    Text(Seq<char>),
    LineBreak,
    WordBreakOpportunity,
    Anchor(Seq<char>, Box<RawView>),
}

/// The mathematical value of a classified tree.
pub open spec fn raw_view(node: Node) -> RawView
    decreases node,
{
    match node {
        Node::List(nodes) => RawView::List(raw_views(nodes@)),
        Node::Encap(kind, child) => RawView::Encap(kind, Box::new(raw_view(*child))),
        Node::LocalRef(local) => RawView::LocalRef(local.post),
        Node::GlobalRef(global) => RawView::GlobalRef(global@),
        Node::Text(text) => RawView::Text(text@),
        Node::LineBreak => RawView::LineBreak,
        Node::WordBreakOpportunity => RawView::WordBreakOpportunity,
        Node::Anchor(url, child) => RawView::Anchor(url@, Box::new(raw_view(*child))),
    }
}

/// The views of a sequence of classified trees, one for one.
pub open spec fn raw_views(nodes: Seq<Node>) -> Seq<RawView>
    decreases nodes,
{
    Seq::new(
        nodes.len(),
        |i: int|
            if 0 <= i < nodes.len() {
                raw_view(nodes[i])
            } else {
                arbitrary()
            },
    )
}

impl View for Node {
    type V = RawView;

    open spec fn view(&self) -> RawView {
        raw_view(*self)
    }
}

/// The stable tree that a classified tree stands for: a line break is the
/// text of one newline, a word-break opportunity the empty text, and
/// everything else is kept.
pub open spec fn lowered(node: RawView) -> NodeView
    decreases node,
{
    match node {
        RawView::List(nodes) => NodeView::List(lowered_all(nodes)),
        RawView::Encap(kind, child) => NodeView::Encap(kind, Box::new(lowered(*child))),
        RawView::LocalRef(post) => NodeView::LocalRef(post),
        RawView::GlobalRef(global) => NodeView::GlobalRef(global),
        RawView::Text(text) => NodeView::Text(text),
        RawView::LineBreak => NodeView::Text(seq!['\n']),
        RawView::WordBreakOpportunity => NodeView::Text(Seq::empty()),
        RawView::Anchor(url, child) => NodeView::Anchor(url, Box::new(lowered(*child))),
    }
}

/// The stable trees of `nodes`, one for one.
pub open spec fn lowered_all(nodes: Seq<RawView>) -> Seq<NodeView>
    decreases nodes,
{
    Seq::new(
        nodes.len(),
        |i: int|
            if 0 <= i < nodes.len() {
                lowered(nodes[i])
            } else {
                arbitrary()
            },
    )
}

impl Node {
    /// The stable tree that this classified tree stands for.
    pub fn to_super(&self) -> (r: crate::Node)
        ensures
            r@ == lowered(self@),
        decreases self,
    {
        match self {
            Node::List(nodes) => {
                let mut out: Vec<crate::Node> = Vec::new();
                let mut i: usize = 0;
                while i < nodes.len()
                    invariant
                        *self == Node::List(*nodes),
                        i <= nodes.len(),
                        out.len() == i,
                        forall|j: int| 0 <= j < i ==> out@[j]@ == lowered(nodes@[j]@),
                    decreases nodes.len() - i,
                {
                    assert(decreases_to!(self => self->List_0));
                    out.push(nodes[i].to_super());
                    i += 1;
                }
                assert(crate::node_views(out@) == lowered_all(raw_views(nodes@)));
                crate::Node::List(out)
            },
            Node::Encap(kind, child) => crate::Node::Encap(*kind, Box::new(child.to_super())),
            Node::LocalRef(local) => crate::Node::LocalRef(*local),
            Node::GlobalRef(global) => crate::Node::GlobalRef(global.clone()),
            Node::Text(text) => crate::Node::Text(text.clone()),
            Node::LineBreak => {
                let mut text = String::new();
                text.push('\n');
                crate::Node::Text(text)
            },
            Node::WordBreakOpportunity => crate::Node::Text(String::new()),
            Node::Anchor(url, child) => crate::Node::Anchor(
                url.clone(),
                Box::new(child.to_super()),
            ),
        }
    }
}

/// The class tokens of an element: a set, so a token that occurs twice is
/// held once.
#[derive(Debug)]
pub struct ClassSet {
    tokens: Vec<String>,
}

impl View for ClassSet {
    type V = Set<Seq<char>>;

    closed spec fn view(&self) -> Set<Seq<char>> {
        self.tokens().to_set()
    }
}

impl ClassSet {
    /// The held tokens in the order in which they first came.
    pub closed spec fn tokens(&self) -> Seq<Seq<char>> {
        string_views(self.tokens@)
    }

    /// No token is held twice.
    pub closed spec fn wf(&self) -> bool {
        self.tokens().no_duplicates()
    }

    /// The held tokens are exactly the members of the set, each once.
    pub proof fn lemma_tokens(&self)
        requires
            self.wf(),
        ensures
            self@ == self.tokens().to_set(),
            self.tokens().no_duplicates(),
            self@.finite(),
            self@.len() == self.tokens().len(),
    {
        self.tokens().unique_seq_to_set();
        vstd::seq_lib::seq_to_set_is_finite(self.tokens());
    }

    /// The empty set.
    pub fn new() -> (set: ClassSet)
        ensures
            set@ == Set::<Seq<char>>::empty(),
            set.wf(),
    {
        let set = ClassSet { tokens: Vec::new() };
        assert(set@ =~= Set::<Seq<char>>::empty());
        set
    }

    /// Whether `token` is in the set.
    pub fn contains(&self, token: &str) -> (r: bool)
        ensures
            r == self@.contains(token@),
    {
        let mut i: usize = 0;
        while i < self.tokens.len()
            invariant
                i <= self.tokens.len(),
                forall|j: int| 0 <= j < i ==> (#[trigger] self.tokens()[j]) != token@,
            decreases self.tokens.len() - i,
        {
            if str_eq(self.tokens[i].as_str(), token) {
                assert(self.tokens()[i as int] == token@);
                return true;
            }
            i += 1;
        }
        false
    }

    /// Puts `token` into the set.
    pub fn insert(&mut self, token: String)
        requires
            old(self).wf(),
        ensures
            final(self)@ == old(self)@.insert(token@),
            final(self).wf(),
    {
        if !self.contains(token.as_str()) {
            self.tokens.push(token);
            proof {
                assert(self.tokens() == old(self).tokens().push(token@));
                old(self).tokens().lemma_push_to_set_commute(token@);
            }
        } else {
            assert(self@ =~= old(self)@.insert(token@));
        }
    }

    /// How many tokens the set holds.
    pub fn len(&self) -> (n: usize)
        ensures
            n == self.tokens().len(),
            self.wf() ==> n == self@.len(),
    {
        proof {
            if self.wf() {
                self.lemma_tokens();
            }
        }
        self.tokens.len()
    }

    /// The `i`-th token in the order in which the tokens first came.
    pub fn get(&self, i: usize) -> (token: &String)
        requires
            i < self.tokens().len(),
        ensures
            token@ == self.tokens()[i as int],
    {
        &self.tokens[i]
    }
}

/// Why a document was refused. Each of these ends the whole conversion.
#[derive(Debug)]
pub enum Error {
    /// No `body` element among the children of the root element.
    NoBody,
    /// An anchor without an `href` attribute.
    BadAnchor,
    /// A reference whose target cannot be read.
    BadRef,
    /// A document without a root element.
    BadDocument,
    /// A dead link whose text does not follow the grammar; it holds the text.
    BadDeadlink(String),
    /// Markup outside the whitelist.
    Unhandled,
    /// A `span` whose classes name no known kind; it holds the classes.
    UnknownClassSet(ClassSet),
}

pub enum ErrorView {
    NoBody,
    BadAnchor,
    BadRef,
    BadDocument,
    BadDeadlink(Seq<char>),
    Unhandled,
    UnknownClassSet(Set<Seq<char>>),
}

impl View for Error {
    type V = ErrorView;

    open spec fn view(&self) -> ErrorView {
        match self {
            Error::NoBody => ErrorView::NoBody,
            Error::BadAnchor => ErrorView::BadAnchor,
            Error::BadRef => ErrorView::BadRef,
            Error::BadDocument => ErrorView::BadDocument,
            Error::BadDeadlink(text) => ErrorView::BadDeadlink(text@),
            Error::Unhandled => ErrorView::Unhandled,
            Error::UnknownClassSet(classes) => ErrorView::UnknownClassSet(classes@),
        }
    }
}

/// What a classification step gives, as mathematical values.
pub open spec fn result_view(r: Result<Node, Error>) -> Result<RawView, ErrorView> {
    match r {
        Ok(node) => Ok(node@),
        Err(error) => Err(error@),
    }
}

/// The class tokens that the attributes of an element give it: the pieces
/// between the spaces of every `class` attribute.
pub open spec fn class_set(attrs: Seq<AttributeView>) -> Set<Seq<char>>
    decreases attrs.len(),
{
    if attrs.len() == 0 {
        Set::empty()
    } else if attrs.last().name == "class"@ {
        class_set(attrs.drop_last()) + pieces(attrs.last().value, ' ').to_set()
    } else {
        class_set(attrs.drop_last())
    }
}

/// The value of the last `href` attribute, if there is one.
pub open spec fn href_of(attrs: Seq<AttributeView>) -> Option<Seq<char>>
    decreases attrs.len(),
{
    if attrs.len() == 0 {
        None
    } else if attrs.last().name == "href"@ {
        Some(attrs.last().value)
    } else {
        href_of(attrs.drop_last())
    }
}

/// Whether some `style` attribute has exactly the value `color: red;`.
pub open spec fn has_ban_style(attrs: Seq<AttributeView>) -> bool {
    exists|i: int|
        0 <= i < attrs.len() && (#[trigger] attrs[i]).name == "style"@ && attrs[i].value
            == "color: red;"@
}

/// Whether `node` is an element named `body`.
pub open spec fn is_body(node: MarkupView) -> bool {
    node.data matches MarkupDataView::Element(tag, _) && tag == "body"@
}

/// The place of the first `body` element among `nodes`, or their number if
/// there is none.
pub open spec fn first_body(nodes: Seq<MarkupView>) -> int
    decreases nodes.len(),
{
    if nodes.len() == 0 || is_body(nodes[0]) {
        0
    } else {
        1 + first_body(nodes.skip(1))
    }
}

/// `inner` put into an encapsulation of the given kind.
pub open spec fn wrapped(kind: EncapKind, inner: Result<RawView, ErrorView>) -> Result<
    RawView,
    ErrorView,
> {
    match inner {
        Ok(node) => Ok(RawView::Encap(kind, Box::new(node))),
        Err(error) => Err(error),
    }
}

/// A classified node as the outcome of a step that may also give nothing.
pub open spec fn present(inner: Result<RawView, ErrorView>) -> Result<Option<RawView>, ErrorView> {
    match inner {
        Ok(node) => Ok(Some(node)),
        Err(error) => Err(error),
    }
}

/// Classified nodes as one list node.
pub open spec fn listed(nodes: Result<Seq<RawView>, ErrorView>) -> Result<RawView, ErrorView> {
    match nodes {
        Ok(nodes) => Ok(RawView::List(nodes)),
        Err(error) => Err(error),
    }
}

/// What a `span` is. `inner` is the classification of its children.
///
/// With the class `quote` it is a quote around its children. Else with the
/// class `deadlink` its first child must be a text, which is read as a dead
/// link. Any other set of classes is refused.
pub open spec fn classify_span(
    attrs: Seq<AttributeView>,
    children: Seq<MarkupView>,
    inner: Result<RawView, ErrorView>,
) -> Result<RawView, ErrorView> {
    let classes = class_set(attrs);
    if classes.contains("quote"@) {
        wrapped(EncapKind::Quote, inner)
    } else if classes.contains("deadlink"@) {
        if children.len() > 0 && children[0].data is Text {
            deadlink(children[0].data->Text_0)
        } else {
            Err(ErrorView::Unhandled)
        }
    } else {
        Err(ErrorView::UnknownClassSet(classes))
    }
}

/// What an `a` is. `inner` is the classification of its children.
///
/// It must have an `href`. With the class `quotelink` the address is read as
/// a reference; without it the anchor is just its children.
pub open spec fn classify_anchor(attrs: Seq<AttributeView>, inner: Result<RawView, ErrorView>)
    -> Result<RawView, ErrorView> {
    match href_of(attrs) {
        Some(href) => if class_set(attrs).contains("quotelink"@) {
            referenced(href, url_parts(site_base(), href), inner)
        } else {
            inner
        },
        None => Err(ErrorView::BadAnchor),
    }
}

/// What a `strong` is: a ban notice around its children where it has the
/// ban style, else refused. `inner` is the classification of its children.
pub open spec fn classify_strong(attrs: Seq<AttributeView>, inner: Result<RawView, ErrorView>)
    -> Result<RawView, ErrorView> {
    if has_ban_style(attrs) {
        wrapped(EncapKind::Ban, inner)
    } else {
        Err(ErrorView::Unhandled)
    }
}

/// What an element is, by its tag. `inner` is the classification of its
/// children. A tag that is not listed here is refused.
pub open spec fn classify_element(
    tag: Seq<char>,
    attrs: Seq<AttributeView>,
    children: Seq<MarkupView>,
    inner: Result<RawView, ErrorView>,
) -> Result<Option<RawView>, ErrorView> {
    if tag == "body"@ {
        present(inner)
    } else if tag == "wbr"@ {
        Ok(Some(RawView::WordBreakOpportunity))
    } else if tag == "br"@ {
        Ok(Some(RawView::LineBreak))
    } else if tag == "span"@ {
        present(classify_span(attrs, children, inner))
    } else if tag == "s"@ {
        present(wrapped(EncapKind::Spoiler, inner))
    } else if tag == "a"@ {
        present(classify_anchor(attrs, inner))
    } else if tag == "strong"@ {
        present(classify_strong(attrs, inner))
    } else {
        Err(ErrorView::Unhandled)
    }
}

/// What one node of the markup tree is: a classified node, nothing (for a
/// doctype or a comment), or the reason why the document is refused.
///
/// A document is what the first `body` among the children of its first
/// child is.
pub open spec fn classify(node: MarkupView) -> Result<Option<RawView>, ErrorView>
    decreases node,
{
    match node.data {
        MarkupDataView::Document => {
            if node.children.len() == 0 {
                Err(ErrorView::BadDocument)
            } else {
                let root = node.children[0];
                let at = first_body(root.children);
                if 0 <= at < root.children.len() {
                    classify(root.children[at])
                } else {
                    Err(ErrorView::NoBody)
                }
            }
        },
        MarkupDataView::Doctype => Ok(None),
        MarkupDataView::Text(text) => Ok(Some(RawView::Text(text))),
        MarkupDataView::Comment => Ok(None),
        MarkupDataView::Element(tag, attrs) => classify_element(
            tag,
            attrs,
            node.children,
            listed(classify_seq(node.children)),
        ),
        MarkupDataView::ProcessingInstruction => Err(ErrorView::Unhandled),
    }
}

/// The classified nodes of `nodes` in order, without those that give
/// nothing; or the reason why the first node that is refused is refused.
pub open spec fn classify_seq(nodes: Seq<MarkupView>) -> Result<Seq<RawView>, ErrorView>
    decreases nodes,
{
    if nodes.len() == 0 {
        Ok(Seq::empty())
    } else {
        match classify_seq(nodes.drop_last()) {
            Ok(done) => match classify(nodes.last()) {
                Ok(Some(node)) => Ok(done.push(node)),
                Ok(None) => Ok(done),
                Err(error) => Err(error),
            },
            Err(error) => Err(error),
        }
    }
}

pub open spec fn option_result_view(r: Result<Option<Node>, Error>) -> Result<
    Option<RawView>,
    ErrorView,
> {
    match r {
        Ok(Some(node)) => Ok(Some(node@)),
        Ok(None) => Ok(None),
        Err(error) => Err(error@),
    }
}

proof fn lemma_first_body(nodes: Seq<MarkupView>, i: int)
    requires
        0 <= i <= nodes.len(),
        forall|j: int| 0 <= j < i ==> !is_body(#[trigger] nodes[j]),
        i < nodes.len() ==> is_body(nodes[i]),
    ensures
        first_body(nodes) == i,
    decreases i,
{
    if i > 0 {
        assert(!is_body(nodes[0]));
        assert forall|j: int| 0 <= j < i - 1 implies !is_body(#[trigger] nodes.skip(1)[j]) by {
            assert(!is_body(nodes[j + 1]));
        }
        lemma_first_body(nodes.skip(1), i - 1);
    }
}

/// The view of an element of a sequence of markup trees.
proof fn lemma_markup_views(nodes: Seq<Markup>)
    ensures
        markup_views(nodes).len() == nodes.len(),
        forall|i: int| 0 <= i < nodes.len() ==> (#[trigger] markup_views(nodes)[i]) == nodes[i]@,
{
}

fn is_body_element(handle: &Markup) -> (r: bool)
    ensures
        r == is_body(handle@),
{
    match &handle.data {
        MarkupData::Element(tag, _) => str_eq(tag.as_str(), "body"),
        _ => false,
    }
}

/// The first `body` element among `handles`.
pub fn find_body(handles: &[Markup]) -> (r: Option<&Markup>)
    ensures
        match r {
            Some(body) => {
                let at = first_body(markup_views(handles@));
                0 <= at < handles@.len() && *body == handles@[at]
            },
            None => first_body(markup_views(handles@)) == handles@.len(),
        },
{
    let mut i: usize = 0;
    proof {
        lemma_markup_views(handles@);
    }
    while i < handles.len()
        invariant
            i <= handles.len(),
            forall|j: int| 0 <= j < i ==> !is_body(#[trigger] markup_views(handles@)[j]),
        decreases handles.len() - i,
    {
        proof {
            lemma_markup_views(handles@);
        }
        if is_body_element(&handles[i]) {
            proof {
                lemma_first_body(markup_views(handles@), i as int);
            }
            return Some(&handles[i]);
        }
        i += 1;
    }
    proof {
        lemma_markup_views(handles@);
        lemma_first_body(markup_views(handles@), i as int);
    }
    None
}

proof fn lemma_to_set_push(head: Seq<char>, rest: Seq<Seq<char>>)
    ensures
        (seq![head] + rest).to_set() == rest.to_set().insert(head),
{
    let all = seq![head] + rest;
    assert forall|t: Seq<char>| all.to_set().contains(t) implies rest.to_set().insert(
        head,
    ).contains(t) by {
        let i = choose|i: int| 0 <= i < all.len() && all[i] == t;
        if i > 0 {
            assert(rest[i - 1] == t);
        }
    }
    assert forall|t: Seq<char>| rest.to_set().insert(head).contains(t) implies all.to_set().contains(
        t,
    ) by {
        if t == head {
            assert(all[0] == t);
        } else {
            let i = choose|i: int| 0 <= i < rest.len() && rest[i] == t;
            assert(all[i + 1] == t);
        }
    }
    assert(all.to_set() =~= rest.to_set().insert(head));
}

/// Puts the pieces between the spaces of `value` into `classes`.
fn add_tokens(classes: &mut ClassSet, value: &str)
    requires
        old(classes).wf(),
    ensures
        final(classes)@ == old(classes)@ + pieces(value@, ' ').to_set(),
        final(classes).wf(),
{
    let chars = chars_of(value);
    let mut start: usize = 0;
    let mut at: usize = find_char(&chars, ' ', 0);
    assert(chars@.skip(0) == chars@);
    while at < chars.len()
        invariant
            start <= at <= chars.len(),
            at - start == position(chars@.skip(start as int), ' '),
            classes.wf(),
            classes@ + pieces(chars@.skip(start as int), ' ').to_set() == old(classes)@ + pieces(
                chars@,
                ' ',
            ).to_set(),
        decreases chars.len() - start,
    {
        let ghost tail = chars@.skip(start as int);
        let ghost before = classes@;
        classes.insert(string_of(&chars, start, at));
        proof {
            assert(tail.take(at - start) == chars@.subrange(start as int, at as int));
            assert(tail.skip(at - start + 1) == chars@.skip(at + 1));
            lemma_to_set_push(tail.take(at - start), pieces(chars@.skip(at + 1), ' '));
            assert(before.insert(tail.take(at - start)) + pieces(chars@.skip(at + 1), ' ').to_set()
                =~= before + pieces(tail, ' ').to_set());
        }
        start = at + 1;
        at = find_char(&chars, ' ', start);
    }
    let ghost tail = chars@.skip(start as int);
    let ghost before = classes@;
    classes.insert(string_of(&chars, start, chars.len()));
    proof {
        assert(chars@.subrange(start as int, chars.len() as int) == tail);
        lemma_to_set_push(tail, Seq::empty());
        assert(seq![tail] + Seq::<Seq<char>>::empty() == seq![tail]);
        assert(before.insert(tail) =~= before + pieces(tail, ' ').to_set());
    }
}

/// The class tokens of a `span`.
pub struct Span {
    pub classes: ClassSet,
}

impl Span {
    /// Collects the class tokens from the attributes of an element.
    pub fn from_attrs(attrs: &[Attribute]) -> (span: Span)
        ensures
            span.classes@ == class_set(attribute_views(attrs@)),
            span.classes.wf(),
    {
        let mut classes = ClassSet::new();
        let mut i: usize = 0;
        assert(attribute_views(attrs@).take(0) == Seq::<AttributeView>::empty());
        while i < attrs.len()
            invariant
                i <= attrs.len(),
                classes.wf(),
                classes@ == class_set(attribute_views(attrs@).take(i as int)),
            decreases attrs.len() - i,
        {
            let ghost views = attribute_views(attrs@);
            assert(views.take(i + 1).drop_last() == views.take(i as int));
            if str_eq(attrs[i].name.as_str(), "class") {
                add_tokens(&mut classes, attrs[i].value.as_str());
            }
            i += 1;
        }
        assert(attribute_views(attrs@).take(i as int) == attribute_views(attrs@));
        Span { classes }
    }
}

/// What classification reads from the attributes of an `a`.
pub struct Anchor {
    pub classes: ClassSet,
    pub href: String,
}

impl Anchor {
    /// Collects the class tokens and the address from the attributes of an
    /// element. There is no anchor without an `href`.
    pub fn from_attrs(attrs: &[Attribute]) -> (anchor: Option<Anchor>)
        ensures
            match anchor {
                Some(anchor) => {
                    &&& href_of(attribute_views(attrs@)) == Some(anchor.href@)
                    &&& anchor.classes@ == class_set(attribute_views(attrs@))
                    &&& anchor.classes.wf()
                },
                None => href_of(attribute_views(attrs@)) is None,
            },
    {
        let mut classes = ClassSet::new();
        let mut href: Option<String> = None;
        let mut i: usize = 0;
        assert(attribute_views(attrs@).take(0) == Seq::<AttributeView>::empty());
        while i < attrs.len()
            invariant
                i <= attrs.len(),
                classes.wf(),
                classes@ == class_set(attribute_views(attrs@).take(i as int)),
                match href {
                    Some(href) => href_of(attribute_views(attrs@).take(i as int)) == Some(href@),
                    None => href_of(attribute_views(attrs@).take(i as int)) is None,
                },
            decreases attrs.len() - i,
        {
            let ghost views = attribute_views(attrs@);
            assert(views.take(i + 1).drop_last() == views.take(i as int));
            if str_eq(attrs[i].name.as_str(), "class") {
                add_tokens(&mut classes, attrs[i].value.as_str());
            }
            if str_eq(attrs[i].name.as_str(), "href") {
                href = Some(attrs[i].value.clone());
            }
            i += 1;
        }
        assert(attribute_views(attrs@).take(i as int) == attribute_views(attrs@));
        match href {
            Some(href) => Some(Anchor { classes, href }),
            None => None,
        }
    }
}

fn ban_style(attrs: &[Attribute]) -> (r: bool)
    ensures
        r == has_ban_style(attribute_views(attrs@)),
{
    let mut i: usize = 0;
    while i < attrs.len()
        invariant
            i <= attrs.len(),
            forall|j: int|
                0 <= j < i ==> !((#[trigger] attribute_views(attrs@)[j]).name == "style"@
                    && attribute_views(attrs@)[j].value == "color: red;"@),
        decreases attrs.len() - i,
    {
        if str_eq(attrs[i].name.as_str(), "style") && str_eq(
            attrs[i].value.as_str(),
            "color: red;",
        ) {
            assert(attribute_views(attrs@)[i as int].name == "style"@);
            return true;
        }
        i += 1;
    }
    false
}

/// Classifies `handles` in document order into one list. The first node
/// that is refused ends the walk.
pub fn identify(handles: &[Markup]) -> (r: Result<Node, Error>)
    ensures
        result_view(r) == listed(classify_seq(markup_views(handles@))),
    decreases handles@, 0nat,
{
    let mut output: Vec<Node> = Vec::new();
    let mut i: usize = 0;
    assert(markup_views(handles@).take(0) == Seq::<MarkupView>::empty());
    assert(raw_views(output@) == Seq::<RawView>::empty());
    while i < handles.len()
        invariant
            i <= handles.len(),
            classify_seq(markup_views(handles@).take(i as int)) == Ok::<Seq<RawView>, ErrorView>(
                raw_views(output@),
            ),
        decreases handles.len() - i,
    {
        let ghost views = markup_views(handles@);
        assert(views.take(i + 1).drop_last() == views.take(i as int));
        assert(views.take(i + 1).last() == handles@[i as int]@);
        let ghost done = raw_views(output@);
        match identify_handle(&handles[i]) {
            Ok(Some(node)) => {
                output.push(node);
                assert(raw_views(output@) == done.push(node@));
            },
            Ok(None) => {},
            Err(error) => {
                proof {
                    lemma_classify_seq_fails(views, i as int);
                }
                return Err(error);
            },
        }
        i += 1;
    }
    assert(markup_views(handles@).take(i as int) == markup_views(handles@));
    Ok(Node::List(output))
}

/// A walk that is refused at one node is refused as a whole, for the reason
/// given at the first such node.
pub proof fn lemma_classify_seq_fails(nodes: Seq<MarkupView>, i: int)
    requires
        0 <= i < nodes.len(),
        classify_seq(nodes.take(i)) is Ok,
        classify(nodes[i]) is Err,
    ensures
        classify_seq(nodes) == Err::<Seq<RawView>, ErrorView>(classify(nodes[i])->Err_0),
    decreases nodes.len() - i,
{
    assert(nodes.take(i + 1).drop_last() == nodes.take(i));
    assert(nodes.take(i + 1).last() == nodes[i]);
    lemma_classify_seq_stays_failed(nodes, i + 1);
}

proof fn lemma_classify_seq_stays_failed(nodes: Seq<MarkupView>, i: int)
    requires
        0 <= i <= nodes.len(),
        classify_seq(nodes.take(i)) is Err,
    ensures
        classify_seq(nodes) == classify_seq(nodes.take(i)),
    decreases nodes.len() - i,
{
    if i < nodes.len() {
        assert(nodes.take(i + 1).drop_last() == nodes.take(i));
        lemma_classify_seq_stays_failed(nodes, i + 1);
    } else {
        assert(nodes.take(i) == nodes);
    }
}

fn identify_span(attrs: &[Attribute], children: &[Markup]) -> (r: Result<Node, Error>)
    ensures
        result_view(r) == classify_span(
            attribute_views(attrs@),
            markup_views(children@),
            listed(classify_seq(markup_views(children@))),
        ),
    decreases children@, 1nat,
{
    let span = Span::from_attrs(attrs);
    if span.classes.contains("quote") {
        match identify(children) {
            Ok(node) => Ok(Node::Encap(EncapKind::Quote, Box::new(node))),
            Err(error) => Err(error),
        }
    } else if span.classes.contains("deadlink") {
        proof {
            lemma_markup_views(children@);
        }
        if children.len() == 0 {
            return Err(Error::Unhandled);
        }
        match &children[0].data {
            MarkupData::Text(text) => identify_span_deadlink(text.as_str()),
            _ => Err(Error::Unhandled),
        }
    } else {
        Err(Error::UnknownClassSet(span.classes))
    }
}

fn identify_ref(anchor: Anchor, children: &[Markup]) -> (r: Result<Node, Error>)
    ensures
        result_view(r) == referenced(
            anchor.href@,
            url_parts(site_base(), anchor.href@),
            listed(classify_seq(markup_views(children@))),
        ),
    decreases children@, 1nat,
{
    let chars = chars_of(anchor.href.as_str());
    if starts_with(&chars, "//") {
        match decompose(anchor.href.as_str()) {
            Some(_) => match identify(children) {
                Ok(label) => Ok(Node::Anchor(anchor.href, Box::new(label))),
                Err(error) => Err(error),
            },
            None => Err(Error::BadRef),
        }
    } else if starts_with(&chars, "#") {
        match parse_u64_at(&chars, 2) {
            Some(post) => Ok(Node::LocalRef(LocalRef { post })),
            None => Err(Error::BadRef),
        }
    } else {
        match decompose(anchor.href.as_str()) {
            Some(parts) => match parts.path {
                Some(path) => match resolve_path(&path, &parts.fragment) {
                    Ok(global) => Ok(Node::GlobalRef(global)),
                    Err(error) => Err(error),
                },
                None => Err(Error::BadRef),
            },
            None => Err(Error::BadRef),
        }
    }
}

fn identify_anchor(attrs: &[Attribute], children: &[Markup]) -> (r: Result<Node, Error>)
    ensures
        result_view(r) == classify_anchor(
            attribute_views(attrs@),
            listed(classify_seq(markup_views(children@))),
        ),
    decreases children@, 2nat,
{
    match Anchor::from_attrs(attrs) {
        Some(anchor) => {
            if anchor.classes.contains("quotelink") {
                identify_ref(anchor, children)
            } else {
                identify(children)
            }
        },
        None => Err(Error::BadAnchor),
    }
}

fn identify_strong(attrs: &[Attribute], children: &[Markup]) -> (r: Result<Node, Error>)
    ensures
        result_view(r) == classify_strong(
            attribute_views(attrs@),
            listed(classify_seq(markup_views(children@))),
        ),
    decreases children@, 1nat,
{
    if ban_style(attrs) {
        match identify(children) {
            Ok(node) => Ok(Node::Encap(EncapKind::Ban, Box::new(node))),
            Err(error) => Err(error),
        }
    } else {
        Err(Error::Unhandled)
    }
}

fn identify_document(handle: &Markup) -> (r: Result<Option<Node>, Error>)
    requires
        handle.data is Document,
    ensures
        option_result_view(r) == classify(handle@),
    decreases handle, 0nat,
{
    proof {
        lemma_markup_views(handle.children@);
    }
    if handle.children.len() == 0 {
        return Err(Error::BadDocument);
    }
    let root = &handle.children[0];
    proof {
        lemma_markup_views(root.children@);
    }
    match find_body(root.children.as_slice()) {
        Some(body) => {
            assert(decreases_to!(handle => handle.children));
            assert(decreases_to!(handle.children => handle.children[0]));
            assert(decreases_to!(root => root.children));
            let ghost at = first_body(markup_views(root.children@));
            assert(decreases_to!(root.children => root.children[at]));
            identify_handle(body)
        },
        None => Err(Error::NoBody),
    }
}

fn present_node(r: Result<Node, Error>) -> (out: Result<Option<Node>, Error>)
    ensures
        option_result_view(out) == present(result_view(r)),
{
    match r {
        Ok(node) => Ok(Some(node)),
        Err(error) => Err(error),
    }
}

/// Classifies one node of the markup tree.
pub fn identify_handle(handle: &Markup) -> (r: Result<Option<Node>, Error>)
    ensures
        option_result_view(r) == classify(handle@),
    decreases handle, 1nat,
{
    match &handle.data {
        MarkupData::Document => identify_document(handle),
        MarkupData::Doctype => Ok(None),
        MarkupData::Text(text) => Ok(Some(Node::Text(text.clone()))),
        MarkupData::Comment => Ok(None),
        MarkupData::Element(tag, attrs) => {
            let name = tag.as_str();
            assert(decreases_to!(handle => handle.children));
            assert(decreases_to!(handle.children => handle.children@));
            if str_eq(name, "body") {
                present_node(identify(handle.children.as_slice()))
            } else if str_eq(name, "wbr") {
                Ok(Some(Node::WordBreakOpportunity))
            } else if str_eq(name, "br") {
                Ok(Some(Node::LineBreak))
            } else if str_eq(name, "span") {
                present_node(identify_span(attrs.as_slice(), handle.children.as_slice()))
            } else if str_eq(name, "s") {
                match identify(handle.children.as_slice()) {
                    Ok(node) => Ok(Some(Node::Encap(EncapKind::Spoiler, Box::new(node)))),
                    Err(error) => Err(error),
                }
            } else if str_eq(name, "a") {
                present_node(identify_anchor(attrs.as_slice(), handle.children.as_slice()))
            } else if str_eq(name, "strong") {
                present_node(identify_strong(attrs.as_slice(), handle.children.as_slice()))
            } else {
                Err(Error::Unhandled)
            }
        },
        MarkupData::ProcessingInstruction => Err(Error::Unhandled),
    }
}

/// Classifies `node` and gives the stable tree of the result.
pub fn load_html(node: &[Markup]) -> (r: Result<crate::Node, Error>)
    ensures
        loaded_view(r) == loaded(markup_views(node@)),
{
    match identify(node) {
        Ok(raw) => Ok(raw.to_super()),
        Err(error) => Err(error),
    }
}

/// The stable tree that classifying `nodes` gives, or why they are refused.
pub open spec fn loaded(nodes: Seq<MarkupView>) -> Result<NodeView, ErrorView> {
    match listed(classify_seq(nodes)) {
        Ok(raw) => Ok(lowered(raw)),
        Err(error) => Err(error),
    }
}

pub open spec fn loaded_view(r: Result<crate::Node, Error>) -> Result<NodeView, ErrorView> {
    match r {
        Ok(node) => Ok(node@),
        Err(error) => Err(error@),
    }
}

/// Whether `tag` is one of the tags that classification knows.
pub open spec fn known_tag(tag: Seq<char>) -> bool {
    tag == "body"@ || tag == "wbr"@ || tag == "br"@ || tag == "span"@ || tag == "s"@ || tag
        == "a"@ || tag == "strong"@
}

/// Whether classification decides on `node` without looking at its children:
/// a break, a dead link, a reference that stays on the site, and whatever is
/// no element.
pub open spec fn skips_children(node: MarkupView) -> bool {
    match node.data {
        MarkupDataView::Document => false,
        MarkupDataView::Element(tag, attrs) => {
            ||| tag == "wbr"@
            ||| tag == "br"@
            ||| tag == "span"@ && !class_set(attrs).contains("quote"@) && class_set(attrs).contains(
                "deadlink"@,
            )
            ||| tag == "a"@ && class_set(attrs).contains("quotelink"@) && (match href_of(attrs) {
                Some(href) => !"//"@.is_prefix_of(href),
                None => false,
            })
        },
        _ => true,
    }
}

/// Whether the walk over `node` comes to an element with an unknown tag: at
/// `node` itself, or below it where the walk descends. In a document the
/// walk descends only into the first `body` of the root element.
pub open spec fn meets_unknown_tag(node: MarkupView) -> bool
    decreases node,
{
    match node.data {
        MarkupDataView::Document => {
            node.children.len() > 0 && {
                let root = node.children[0];
                let at = first_body(root.children);
                0 <= at < root.children.len() && meets_unknown_tag(root.children[at])
            }
        },
        MarkupDataView::Element(tag, _) => {
            ||| !known_tag(tag)
            ||| !skips_children(node) && exists|i: int|
                0 <= i < node.children.len() && meets_unknown_tag(#[trigger] node.children[i])
        },
        _ => false,
    }
}

/// A walk that holds a refused node is refused.
pub proof fn lemma_classify_seq_refuses(nodes: Seq<MarkupView>, i: int)
    requires
        0 <= i < nodes.len(),
        classify(nodes[i]) is Err,
    ensures
        classify_seq(nodes) is Err,
    decreases nodes.len(),
{
    if i < nodes.len() - 1 {
        lemma_classify_seq_refuses(nodes.drop_last(), i);
    }
}

/// An element with an unknown tag is never skipped: wherever the walk comes
/// to one, at any depth, the whole tree is refused.
pub proof fn lemma_unknown_tag_refused(node: MarkupView)
    requires
        meets_unknown_tag(node),
    ensures
        classify(node) is Err,
    decreases node,
{
    match node.data {
        MarkupDataView::Document => {
            let root = node.children[0];
            lemma_unknown_tag_refused(root.children[first_body(root.children)]);
        },
        MarkupDataView::Element(tag, attrs) => {
            if known_tag(tag) {
                let i = choose|i: int|
                    0 <= i < node.children.len() && meets_unknown_tag(#[trigger] node.children[i]);
                lemma_unknown_tag_refused(node.children[i]);
                lemma_classify_seq_refuses(node.children, i);
            }
        },
        _ => {},
    }
}

/// A document in which the walk comes to an element with an unknown tag has
/// no tree.
pub proof fn lemma_unknown_tag_fails_document(nodes: Seq<MarkupView>, i: int)
    requires
        0 <= i < nodes.len(),
        meets_unknown_tag(nodes[i]),
    ensures
        loaded(nodes) is Err,
        crate::converted(nodes) is Err,
{
    lemma_unknown_tag_refused(nodes[i]);
    lemma_classify_seq_refuses(nodes, i);
}

} // verus!
