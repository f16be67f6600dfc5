use dehtml::dehtml::{Error, Node};
use dehtml::reference::{identify_span_deadlink, resolve_path};
use dehtml::{GlobalRef, GlobalRefTarget, LocalRef};

fn path(segments: &[&str]) -> Vec<String> {
    segments.iter().map(|s| s.to_string()).collect()
}

fn frag(fragment: &str) -> Option<String> {
    Some(fragment.to_string())
}

fn global(board: &str, target: GlobalRefTarget) -> GlobalRef {
    GlobalRef { board: board.to_string(), target }
}

fn bad_deadlink(text: &str) -> bool {
    matches!(identify_span_deadlink(text), Err(Error::BadDeadlink(held)) if held == text)
}

#[test]
fn deadlink_to_a_post_of_this_thread() {
    assert_eq!(identify_span_deadlink(">>1234").unwrap(), Node::LocalRef(LocalRef { post: 1234 }));
}

#[test]
fn deadlink_to_a_thread_on_a_board() {
    assert_eq!(
        identify_span_deadlink(">>>/vg/5678").unwrap(),
        Node::GlobalRef(global("vg", GlobalRefTarget::Thread(5678)))
    );
    assert_eq!(
        identify_span_deadlink(">>/vg/5678").unwrap(),
        Node::GlobalRef(global("vg", GlobalRefTarget::Thread(5678)))
    );
}

#[test]
fn deadlink_of_two_parts_reads_the_second_part() {
    assert_eq!(identify_span_deadlink(">>>/77").unwrap(), Node::LocalRef(LocalRef { post: 77 }));
    assert_eq!(identify_span_deadlink(">>/8").unwrap(), Node::LocalRef(LocalRef { post: 8 }));
}

#[test]
fn deadlink_that_is_refused_holds_its_text() {
    assert!(bad_deadlink(""));
    assert!(bad_deadlink(">"));
    assert!(bad_deadlink(">>"));
    assert!(bad_deadlink(">>abc"));
    assert!(bad_deadlink("x/vg/1"));
    assert!(bad_deadlink(">>>>/vg/1"));
    assert!(bad_deadlink(">>>/vg/"));
    assert!(bad_deadlink(">>>/vg/1/2"));
    assert!(bad_deadlink(">>>/"));
    assert!(bad_deadlink("/1"));
}

#[test]
fn deadlink_board_may_be_empty() {
    assert_eq!(
        identify_span_deadlink(">>>//5").unwrap(),
        Node::GlobalRef(global("", GlobalRefTarget::Thread(5)))
    );
}

#[test]
fn path_to_a_board() {
    assert_eq!(resolve_path(&path(&["b", ""]), &None).unwrap(), global("b", GlobalRefTarget::Board));
}

#[test]
fn path_to_a_catalog() {
    let catalog = global("b", GlobalRefTarget::Catalog);
    assert_eq!(resolve_path(&path(&["b", "catalog"]), &None).unwrap(), catalog);
    assert_eq!(resolve_path(&path(&["b", "catalog"]), &frag("")).unwrap(), catalog);
}

#[test]
fn path_to_a_search() {
    assert_eq!(
        resolve_path(&path(&["b", "catalog"]), &frag("s=foo")).unwrap(),
        global("b", GlobalRefTarget::Search("foo".to_string()))
    );
    assert_eq!(
        resolve_path(&path(&["b", "catalog"]), &frag("s=")).unwrap(),
        global("b", GlobalRefTarget::Search(String::new()))
    );
}

#[test]
fn path_to_a_thread_and_to_a_post() {
    assert_eq!(
        resolve_path(&path(&["b", "thread", "100"]), &None).unwrap(),
        global("b", GlobalRefTarget::Thread(100))
    );
    assert_eq!(
        resolve_path(&path(&["b", "thread", "100"]), &frag("")).unwrap(),
        global("b", GlobalRefTarget::Thread(100))
    );
    assert_eq!(
        resolve_path(&path(&["b", "thread", "100"]), &frag("p200")).unwrap(),
        global("b", GlobalRefTarget::Post(100, 200))
    );
    assert_eq!(
        resolve_path(&path(&["b", "thread", "5", "slug"]), &None).unwrap(),
        global("b", GlobalRefTarget::Thread(5))
    );
}

#[test]
fn path_that_names_nothing_is_a_bad_reference() {
    let refused = |segments: &[&str], fragment: Option<String>| {
        matches!(resolve_path(&path(segments), &fragment), Err(Error::BadRef))
    };
    assert!(refused(&[], None));
    assert!(refused(&["b"], None));
    assert!(refused(&["b", "other"], None));
    assert!(refused(&["b", "catalog"], frag("x=1")));
    assert!(refused(&["b", "thread"], None));
    assert!(refused(&["b", "thread", ""], None));
    assert!(refused(&["b", "thread", ""], frag("p15")));
    assert!(refused(&["b", "thread", "abc"], None));
    assert!(refused(&["b", "thread", "100"], frag("p")));
    assert!(refused(&["b", "thread", "100"], frag("pxyz")));
}
