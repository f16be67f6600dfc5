//! Reading of references: the text of a dead link, and the target of an
//! anchor once its address has been taken apart.
use vstd::prelude::*;
use crate::dehtml::{result_view, Error, ErrorView, Node, RawView};
use crate::text::{
    after, chars_of, find_char, parse_u64, parse_u64_at, position, starts_with, str_eq, string_of,
    string_views,
};
use crate::{GlobalRef, GlobalRefTarget, GlobalRefTargetView, GlobalRefView, LocalRef};

verus! {

/// An address taken apart: the segments of its path, if it has a path of
/// segments, and its fragment, if it has one.
#[derive(Debug, PartialEq, Eq)]
pub struct UrlParts {
    pub path: Option<Vec<String>>,
    pub fragment: Option<String>,
}

pub struct UrlPartsView {
    pub path: Option<Seq<Seq<char>>>,
    pub fragment: Option<Seq<char>>,
}

impl View for UrlParts {
    type V = UrlPartsView;

    open spec fn view(&self) -> UrlPartsView {
        UrlPartsView {
            path: match self.path {
                Some(segments) => Some(string_views(segments@)),
                None => None,
            },
            fragment: match self.fragment {
                Some(fragment) => Some(fragment@),
                None => None,
            },
        }
    }
}

/// What resolving `href` against the address `base` gives: nothing where
/// `base` is no valid address or `href` cannot be resolved against it, else
/// the parts of the resolved address.
pub uninterp spec fn url_parts(base: Seq<char>, href: Seq<char>) -> Option<UrlPartsView>;

pub open spec fn parts_view(parts: Option<UrlParts>) -> Option<UrlPartsView> {
    match parts {
        Some(parts) => Some(parts@),
        None => None,
    }
}

/// The address against which the addresses of a post are resolved. Only
/// its scheme matters: it makes an address without one valid.
pub open spec fn site_base() -> Seq<char> {
    "https://example.com"@
}

/// Parses `base` with `url::Url::parse` and resolves `href` against it with
/// `url::Url::join`. Where either fails the result is nothing. Else it holds
/// what `Url::path_segments` and `Url::fragment` give for the resolved
/// address. The result is a function of the two texts alone and goes by the
/// name `url_parts`.
#[verifier::external_body]
pub(crate) fn resolve_href(base: &str, href: &str) -> (parts: Option<UrlParts>)
    ensures
        parts_view(parts) == url_parts(base@, href@),
{
    let url = url::Url::parse(base).ok()?.join(href).ok()?;
    Some(
        UrlParts {
            path: url.path_segments().map(|segments| segments.map(String::from).collect()),
            fragment: url.fragment().map(String::from),
        },
    )
}

/// Takes `href` apart as an address of the site.
pub(crate) fn decompose(href: &str) -> (parts: Option<UrlParts>)
    ensures
        parts_view(parts) == url_parts(site_base(), href@),
{
    resolve_href("https://example.com", href)
}

/// The target that a catalog address names: the catalog itself without a
/// fragment, a search for the term after `s=`, nothing for another fragment.
pub open spec fn catalog_target(fragment: Option<Seq<char>>) -> Option<GlobalRefTargetView> {
    let fragment = match fragment {
        Some(fragment) => fragment,
        None => Seq::empty(),
    };
    if fragment.len() == 0 {
        Some(GlobalRefTargetView::Catalog)
    } else if "s="@.is_prefix_of(fragment) {
        Some(GlobalRefTargetView::Search(after(fragment, 2)))
    } else {
        None
    }
}

/// The thread number in a thread address: the third segment where there is
/// one and it is not empty. The outer value is nothing where that segment
/// is no number.
pub open spec fn thread_number(path: Seq<Seq<char>>) -> Option<Option<u64>> {
    if path.len() > 2 && path[2].len() > 0 {
        match parse_u64(path[2]) {
            Some(thread) => Some(Some(thread)),
            None => None,
        }
    } else {
        Some(None)
    }
}

/// The post number in a thread address: what follows the first character of
/// a fragment that is not empty. The outer value is nothing where that is no
/// number.
pub open spec fn post_number(fragment: Option<Seq<char>>) -> Option<Option<u64>> {
    match fragment {
        Some(fragment) => if fragment.len() > 0 {
            match parse_u64(after(fragment, 1)) {
                Some(post) => Some(Some(post)),
                None => None,
            }
        } else {
            Some(None)
        },
        None => Some(None),
    }
}

/// The target that a thread address names: a post where thread and post
/// number are there, a thread where only the thread number is, else nothing.
pub open spec fn thread_target(path: Seq<Seq<char>>, fragment: Option<Seq<char>>) -> Option<
    GlobalRefTargetView,
> {
    match (thread_number(path), post_number(fragment)) {
        (Some(Some(thread)), Some(None)) => Some(GlobalRefTargetView::Thread(thread)),
        (Some(Some(thread)), Some(Some(post))) => Some(GlobalRefTargetView::Post(thread, post)),
        _ => None,
    }
}

/// The reference that a site-relative address names. The first segment is
/// the board. The second decides the target: empty for the board itself,
/// `catalog`, or `thread`.
pub open spec fn resolved_path(path: Seq<Seq<char>>, fragment: Option<Seq<char>>) -> Result<
    GlobalRefView,
    ErrorView,
> {
    if path.len() < 2 {
        Err(ErrorView::BadRef)
    } else {
        let target = if path[1].len() == 0 {
            Some(GlobalRefTargetView::Board)
        } else if path[1] == "catalog"@ {
            catalog_target(fragment)
        } else if path[1] == "thread"@ {
            thread_target(path, fragment)
        } else {
            None
        };
        match target {
            Some(target) => Ok(GlobalRefView { board: path[0], target }),
            None => Err(ErrorView::BadRef),
        }
    }
}

pub open spec fn global_result_view(r: Result<GlobalRef, Error>) -> Result<
    GlobalRefView,
    ErrorView,
> {
    match r {
        Ok(global) => Ok(global@),
        Err(error) => Err(error@),
    }
}

fn catalog(fragment: &Option<String>) -> (target: Option<GlobalRefTarget>)
    ensures
        match target {
            Some(target) => catalog_target(parts_fragment(*fragment)) == Some(target@),
            None => catalog_target(parts_fragment(*fragment)) is None,
        },
{
    let chars: Vec<char> = match fragment {
        Some(fragment) => chars_of(fragment.as_str()),
        None => Vec::new(),
    };
    if chars.len() == 0 {
        Some(GlobalRefTarget::Catalog)
    } else if starts_with(&chars, "s=") {
        proof {
            reveal_strlit("s=");
        }
        Some(GlobalRefTarget::Search(string_of(&chars, 2, chars.len())))
    } else {
        None
    }
}

/// The view of an optional fragment.
pub open spec fn parts_fragment(fragment: Option<String>) -> Option<Seq<char>> {
    match fragment {
        Some(fragment) => Some(fragment@),
        None => None,
    }
}

fn thread(path: &Vec<String>, fragment: &Option<String>) -> (target: Option<GlobalRefTarget>)
    ensures
        match target {
            Some(target) => thread_target(string_views(path@), parts_fragment(*fragment)) == Some(
                target@,
            ),
            None => thread_target(string_views(path@), parts_fragment(*fragment)) is None,
        },
{
    let thread: Option<u64> = if path.len() > 2 && !path[2].as_str().is_empty() {
        let digits = chars_of(path[2].as_str());
        assert(digits@.skip(0) == digits@);
        assert(string_views(path@)[2] == digits@);
        match parse_u64_at(&digits, 0) {
            Some(thread) => Some(thread),
            None => {
                return None;
            },
        }
    } else {
        None
    };
    let post: Option<u64> = match fragment {
        Some(fragment) => {
            if !fragment.as_str().is_empty() {
                let digits = chars_of(fragment.as_str());
                match parse_u64_at(&digits, 1) {
                    Some(post) => Some(post),
                    None => {
                        return None;
                    },
                }
            } else {
                None
            }
        },
        None => None,
    };
    match (thread, post) {
        (Some(thread), None) => Some(GlobalRefTarget::Thread(thread)),
        (Some(thread), Some(post)) => Some(GlobalRefTarget::Post(thread, post)),
        _ => None,
    }
}

/// Reads the reference that the path segments and the fragment of a
/// site-relative address name.
pub fn resolve_path(path: &Vec<String>, fragment: &Option<String>) -> (r: Result<GlobalRef, Error>)
    ensures
        global_result_view(r) == resolved_path(string_views(path@), parts_fragment(*fragment)),
{
    if path.len() < 2 {
        return Err(Error::BadRef);
    }
    let second = path[1].as_str();
    let target = if second.is_empty() {
        Some(GlobalRefTarget::Board)
    } else if str_eq(second, "catalog") {
        catalog(fragment)
    } else if str_eq(second, "thread") {
        thread(path, fragment)
    } else {
        None
    };
    match target {
        Some(target) => Ok(GlobalRef { board: path[0].clone(), target }),
        None => Err(Error::BadRef),
    }
}

/// The reading of the text of a dead link.
///
/// Without a `/` the text is `>>` and a post number. With one or more, what
/// stands before the first must be `>>>` or `>>`; then follow either a post
/// number, or a board, a `/` and a thread number.
pub open spec fn deadlink(text: Seq<char>) -> Result<RawView, ErrorView> {
    let bad = Err(ErrorView::BadDeadlink(text));
    let first = position(text, '/');
    if !(0 <= first < text.len()) {
        match parse_u64(after(text, 2)) {
            Some(post) => Ok(RawView::LocalRef(post)),
            None => bad,
        }
    } else if text.take(first) != ">>>"@ && text.take(first) != ">>"@ {
        bad
    } else {
        let rest = text.skip(first + 1);
        let second = position(rest, '/');
        if !(0 <= second < rest.len()) {
            match parse_u64(rest) {
                Some(post) => Ok(RawView::LocalRef(post)),
                None => bad,
            }
        } else {
            match parse_u64(rest.skip(second + 1)) {
                Some(thread) => Ok(
                    RawView::GlobalRef(
                        GlobalRefView {
                            board: rest.take(second),
                            target: GlobalRefTargetView::Thread(thread),
                        },
                    ),
                ),
                None => bad,
            }
        }
    }
}

/// The reading of an anchor's address as a reference.
///
/// `parts` is the address taken apart, and `label` what the anchor shows,
/// classified. An address that begins with `//` leads off the site: it must
/// be valid, and gives an anchor around the label. One that begins with `#`
/// names a post of this thread by the number after its first two characters.
/// Any other is relative to the site and read from its path and fragment.
pub open spec fn referenced(
    href: Seq<char>,
    parts: Option<UrlPartsView>,
    label: Result<RawView, ErrorView>,
) -> Result<RawView, ErrorView> {
    if "//"@.is_prefix_of(href) {
        match parts {
            Some(_) => match label {
                Ok(label) => Ok(RawView::Anchor(href, Box::new(label))),
                Err(error) => Err(error),
            },
            None => Err(ErrorView::BadRef),
        }
    } else if "#"@.is_prefix_of(href) {
        match parse_u64(after(href, 2)) {
            Some(post) => Ok(RawView::LocalRef(post)),
            None => Err(ErrorView::BadRef),
        }
    } else {
        match parts {
            Some(parts) => match parts.path {
                Some(path) => match resolved_path(path, parts.fragment) {
                    Ok(global) => Ok(RawView::GlobalRef(global)),
                    Err(error) => Err(error),
                },
                None => Err(ErrorView::BadRef),
            },
            None => Err(ErrorView::BadRef),
        }
    }
}

/// Reads the text of a dead link.
pub fn identify_span_deadlink(text: &str) -> (r: Result<Node, Error>)
    ensures
        result_view(r) == deadlink(text@),
{
    let chars = chars_of(text);
    let first = find_char(&chars, '/', 0);
    assert(chars@.skip(0) == chars@);
    if first >= chars.len() {
        return match parse_u64_at(&chars, 2) {
            Some(post) => Ok(Node::LocalRef(LocalRef { post })),
            None => Err(Error::BadDeadlink(text.to_owned())),
        };
    }
    let head = string_of(&chars, 0, first);
    if !str_eq(head.as_str(), ">>>") && !str_eq(head.as_str(), ">>") {
        return Err(Error::BadDeadlink(text.to_owned()));
    }
    let ghost rest = chars@.skip(first + 1);
    let second = find_char(&chars, '/', first + 1);
    assert(after(chars@, (first + 1) as nat) == rest);
    if second >= chars.len() {
        return match parse_u64_at(&chars, first + 1) {
            Some(post) => Ok(Node::LocalRef(LocalRef { post })),
            None => Err(Error::BadDeadlink(text.to_owned())),
        };
    }
    let board = string_of(&chars, first + 1, second);
    assert(chars@.subrange(first + 1, second as int) == rest.take(second - (first + 1)));
    assert(after(chars@, (second + 1) as nat) == rest.skip(second - (first + 1) + 1));
    match parse_u64_at(&chars, second + 1) {
        Some(thread) => Ok(
            Node::GlobalRef(GlobalRef { board, target: GlobalRefTarget::Thread(thread) }),
        ),
        None => Err(Error::BadDeadlink(text.to_owned())),
    }
}

} // verus!
