use dehtml::normalize::{list_optimize, list_optimize_helper, merge_texts};
use dehtml::{EncapKind, GlobalRef, GlobalRefTarget, LocalRef, Node};

fn text(s: &str) -> Node {
    Node::Text(s.to_string())
}

fn list(nodes: Vec<Node>) -> Node {
    Node::List(nodes)
}

fn quote(node: Node) -> Node {
    Node::Encap(EncapKind::Quote, Box::new(node))
}

fn local(post: u64) -> Node {
    Node::LocalRef(LocalRef { post })
}

fn samples() -> Vec<Node> {
    vec![
        text("a"),
        list(vec![]),
        list(vec![text("a")]),
        list(vec![text("a"), text("b")]),
        list(vec![list(vec![list(vec![text("a")]), local(1)]), text("b"), text("c")]),
        quote(list(vec![text("x"), list(vec![text("y")])])),
        list(vec![quote(list(vec![local(3)])), text(""), text("\n"), local(4), text("z")]),
        Node::Anchor("//example.org".to_string(), Box::new(list(vec![list(vec![text("l")])]))),
        list(vec![list(vec![]), list(vec![list(vec![])])]),
        Node::GlobalRef(GlobalRef { board: "b".to_string(), target: GlobalRefTarget::Board }),
    ]
}

fn holds_list(nodes: &[Node]) -> bool {
    nodes.iter().any(|node| matches!(node, Node::List(_)))
}

fn holds_adjacent_texts(nodes: &[Node]) -> bool {
    nodes.windows(2).any(|pair| matches!(pair[0], Node::Text(_)) && matches!(pair[1], Node::Text(_)))
}

fn every_list(node: &Node, check: &dyn Fn(&[Node]) -> bool) -> bool {
    match node {
        Node::List(nodes) => check(nodes) && nodes.iter().all(|n| every_list(n, check)),
        Node::Encap(_, child) => every_list(child, check),
        Node::Anchor(_, child) => every_list(child, check),
        _ => true,
    }
}

#[test]
fn optimize_twice_is_optimize_once() {
    for node in samples() {
        let once = node.optimize();
        assert_eq!(once.optimize(), once);
    }
}

#[test]
fn optimize_leaves_no_list_in_a_list() {
    for node in samples() {
        assert!(every_list(&node.optimize(), &|nodes| !holds_list(nodes)));
    }
}

#[test]
fn optimize_leaves_no_adjacent_texts() {
    for node in samples() {
        assert!(every_list(&node.optimize(), &|nodes| !holds_adjacent_texts(nodes)));
    }
}

#[test]
fn optimize_leaves_no_list_of_one() {
    for node in samples() {
        assert!(every_list(&node.optimize(), &|nodes| nodes.len() != 1));
    }
}

#[test]
fn list_of_one_is_its_element() {
    for node in samples() {
        let alone = node.optimize();
        assert_eq!(list(vec![node]).optimize(), alone);
    }
}

#[test]
fn nested_lists_are_inlined_in_order() {
    let node = list(vec![list(vec![local(1), list(vec![local(2)])]), local(3)]);
    assert_eq!(node.optimize(), list(vec![local(1), local(2), local(3)]));
}

#[test]
fn neighbouring_texts_are_joined_without_separator() {
    let node = list(vec![text("a"), text("b"), local(1), text("c"), text(""), text("d")]);
    assert_eq!(node.optimize(), list(vec![text("ab"), local(1), text("cd")]));
}

#[test]
fn texts_of_inlined_lists_meet_and_are_joined() {
    let node = list(vec![text("a"), list(vec![text("b"), text("c")]), text("d")]);
    assert_eq!(node.optimize(), text("abcd"));
}

#[test]
fn empty_list_stays_an_empty_list() {
    assert_eq!(list(vec![]).optimize(), list(vec![]));
    assert_eq!(list(vec![list(vec![])]).optimize(), list(vec![]));
}

#[test]
fn children_of_encap_and_anchor_are_normalised() {
    let node = quote(list(vec![text("x"), text("y")]));
    assert_eq!(node.optimize(), quote(text("xy")));
    let anchor = Node::Anchor("u".to_string(), Box::new(list(vec![local(1)])));
    assert_eq!(anchor.optimize(), Node::Anchor("u".to_string(), Box::new(local(1))));
}

#[test]
fn leaves_are_kept() {
    assert_eq!(text("a").optimize(), text("a"));
    assert_eq!(local(7).optimize(), local(7));
    let global = Node::GlobalRef(GlobalRef {
        board: "b".to_string(),
        target: GlobalRefTarget::Search("q".to_string()),
    });
    assert_eq!(global.optimize(), global);
}

#[test]
fn helper_inlines_at_every_depth() {
    let nodes = vec![list(vec![list(vec![text("a")]), text("b")]), quote(list(vec![text("c")]))];
    assert_eq!(
        list_optimize_helper(&nodes),
        vec![text("a"), text("b"), quote(list(vec![text("c")]))]
    );
    assert_eq!(list_optimize_helper(&[]), vec![]);
}

#[test]
fn merge_joins_runs_and_keeps_the_rest() {
    let nodes = vec![text("a"), text("b"), local(1), local(2), text("c")];
    assert_eq!(merge_texts(&nodes), vec![text("ab"), local(1), local(2), text("c")]);
    assert_eq!(merge_texts(&[text("x")]), vec![text("x")]);
    assert_eq!(merge_texts(&[]), vec![]);
}

#[test]
fn list_optimize_collapses_a_single_result() {
    assert_eq!(list_optimize(&[text("a"), text("b")]), text("ab"));
    assert_eq!(list_optimize(&[local(1), local(2)]), list(vec![local(1), local(2)]));
    assert_eq!(list_optimize(&[]), list(vec![]));
}

#[test]
fn clone_gives_an_equal_tree() {
    for node in samples() {
        assert_eq!(node.clone(), node);
    }
}
