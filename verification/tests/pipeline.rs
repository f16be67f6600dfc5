use dehtml::dehtml::Error;
use dehtml::markup::{parse_markup, Markup, MarkupData};
use dehtml::{parse_html, EncapKind, GlobalRef, GlobalRefTarget, LocalRef, Node};

/// Post bodies as the board's renderer writes them, one after another with a
/// pilcrow between each two.
const COMMENTS: &str = "\
<a href=\"#p1234\" class=\"quotelink\">&gt;&gt;1234</a><br>first line<br>second line\u{00B6}\
<span class=\"quote\">&gt;implying</span><br>plain <s>hidden</s> text\u{00B6}\
<span class=\"deadlink\">&gt;&gt;5678</span> and <span class=\"deadlink\">&gt;&gt;&gt;/vg/42</span>\u{00B6}\
<a href=\"/b/thread/100#p200\" class=\"quotelink\">&gt;&gt;&gt;/b/200</a> \
<a href=\"/g/catalog#s=rust\" class=\"quotelink\">&gt;&gt;&gt;/g/rust</a>\u{00B6}\
some<wbr>long<wbr>word <strong style=\"color: red;\">(USER WAS BANNED FOR THIS POST)</strong>\u{00B6}\
see <!-- note --><a href=\"http://example.org/\">http://example.org/</a>\u{00B6}";

fn text(s: &str) -> Node {
    Node::Text(s.to_string())
}

#[test]
fn it_works0() {
    for part in COMMENTS.split('\u{00B6}') {
        println!("-----");
        match parse_html(part) {
            Ok(ast) => println!("as_bbcode = [[[{}]]]", ast.optimize().to_bbcode()),
            Err(err) => panic!("err = {:?} for doc {:?}", err, part),
        };
        println!("\n\n");
    }
}

#[test]
fn it_works1() {
    for part in COMMENTS.split('\u{00B6}') {
        println!("-----");
        match parse_html(part) {
            Ok(ast) => {
                let optimised = ast.optimize();
                let buf = String::from_utf8(optimised.serialize()).unwrap();
                println!("as_bbcode = [[[{}]]]", buf);
            }
            Err(err) => panic!("err = {:?} for doc {:?}", err, part),
        };
        println!("\n\n");
    }
}

#[test]
fn parsed_tree_has_root_head_and_body() {
    let doc = parse_markup("a<br>b");
    assert_eq!(doc.data, MarkupData::Document);
    assert_eq!(doc.children.len(), 1);
    let root = &doc.children[0];
    assert_eq!(root.data, MarkupData::Element("html".to_string(), vec![]));
    assert_eq!(root.children.len(), 2);
    assert_eq!(root.children[0].data, MarkupData::Element("head".to_string(), vec![]));
    let body = &root.children[1];
    assert_eq!(body.data, MarkupData::Element("body".to_string(), vec![]));
    let kinds: Vec<&MarkupData> = body.children.iter().map(|c| &c.data).collect();
    assert_eq!(
        kinds,
        vec![
            &MarkupData::Text("a".to_string()),
            &MarkupData::Element("br".to_string(), vec![]),
            &MarkupData::Text("b".to_string()),
        ]
    );
}

#[test]
fn parsed_attributes_keep_name_value_and_order() {
    let doc = parse_markup("<a href=\"#p12\" class=\"quotelink\">x</a><!--c-->");
    let body: &Markup = &doc.children[0].children[1];
    match &body.children[0].data {
        MarkupData::Element(tag, attrs) => {
            assert_eq!(tag, "a");
            let pairs: Vec<(&str, &str)> =
                attrs.iter().map(|a| (a.name.as_str(), a.value.as_str())).collect();
            assert_eq!(pairs, vec![("href", "#p12"), ("class", "quotelink")]);
        }
        other => panic!("{:?}", other),
    }
    assert_eq!(body.children[0].children[0].data, MarkupData::Text("x".to_string()));
    assert_eq!(body.children[1].data, MarkupData::Comment);
}

#[test]
fn quote_and_lines() {
    let node = parse_html("<span class=\"quote\">&gt;implying</span><br>hello").unwrap();
    assert_eq!(
        node,
        Node::List(vec![
            Node::Encap(EncapKind::Quote, Box::new(text(">implying"))),
            text("\nhello"),
        ])
    );
    assert_eq!(node.to_bbcode(), "[quote]>implying[/quote]\nhello");
    assert_eq!(
        String::from_utf8(node.serialize()).unwrap(),
        r#"["list",[["quote",["text",">implying"]],["text","\nhello"]]]"#
    );
}

#[test]
fn references_of_all_kinds() {
    let node = parse_html(
        "<a href=\"#p1234\" class=\"quotelink\">&gt;&gt;1234</a>\
         <a href=\"/b/thread/100#p200\" class=\"quotelink\">x</a>\
         <a href=\"/b/\" class=\"quotelink\">x</a>\
         <span class=\"deadlink\">&gt;&gt;&gt;/vg/5678</span>",
    )
    .unwrap();
    let global = |board: &str, target| Node::GlobalRef(GlobalRef { board: board.to_string(), target });
    assert_eq!(
        node,
        Node::List(vec![
            Node::LocalRef(LocalRef { post: 1234 }),
            global("b", GlobalRefTarget::Post(100, 200)),
            global("b", GlobalRefTarget::Board),
            global("vg", GlobalRefTarget::Thread(5678)),
        ])
    );
    assert_eq!(node.to_bbcode(), ">>1234>>>/b/200>>>/b/>>>/vg/5678");
}

#[test]
fn word_breaks_vanish_into_the_text() {
    assert_eq!(parse_html("some<wbr>long<wbr>word").unwrap(), text("somelongword"));
}

#[test]
fn single_node_is_not_wrapped() {
    assert_eq!(parse_html("just text").unwrap(), text("just text"));
    assert_eq!(
        parse_html("<s>x</s>").unwrap(),
        Node::Encap(EncapKind::Spoiler, Box::new(text("x")))
    );
}

#[test]
fn empty_body_is_an_empty_list() {
    assert_eq!(parse_html("").unwrap(), Node::List(vec![]));
    assert_eq!(parse_html("<br><!-- a comment -->").unwrap(), text("\n"));
}

#[test]
fn external_quotelink_keeps_address_and_label() {
    let node = parse_html("<a class=\"quotelink\" href=\"//example.org/x\">the <s>label</s></a>").unwrap();
    assert_eq!(
        node,
        Node::Anchor(
            "//example.org/x".to_string(),
            Box::new(Node::List(vec![
                text("the "),
                Node::Encap(EncapKind::Spoiler, Box::new(text("label"))),
            ]))
        )
    );
    assert_eq!(node.to_bbcode(), "the [spoiler]label[/spoiler]");
}

#[test]
fn unknown_markup_fails_the_whole_document() {
    assert!(matches!(parse_html("fine <b>bold</b>"), Err(Error::Unhandled)));
    assert!(matches!(
        parse_html("<span class=\"quote\">a<s>b<i>c</i></s></span>"),
        Err(Error::Unhandled)
    ));
    assert!(matches!(parse_html("<strong>x</strong>"), Err(Error::Unhandled)));
}

#[test]
fn document_whose_first_node_is_not_the_root_has_no_body() {
    assert!(matches!(parse_html("<!DOCTYPE html><html><body>x</body></html>"), Err(Error::NoBody)));
    assert!(matches!(parse_html("<!-- leading comment -->x"), Err(Error::NoBody)));
}

#[test]
fn errors_from_inside_the_document() {
    assert!(matches!(parse_html("<a class=\"quotelink\">x</a>"), Err(Error::BadAnchor)));
    assert!(matches!(
        parse_html("<a class=\"quotelink\" href=\"/b/nowhere\">x</a>"),
        Err(Error::BadRef)
    ));
    assert!(matches!(
        parse_html("<span class=\"deadlink\">gone</span>"),
        Err(Error::BadDeadlink(t)) if t == "gone"
    ));
    assert!(matches!(
        parse_html("<span class=\"other\">x</span>"),
        Err(Error::UnknownClassSet(set)) if set.contains("other") && set.len() == 1
    ));
}

#[test]
fn result_is_already_normal() {
    for part in COMMENTS.split('\u{00B6}') {
        let node = parse_html(part).unwrap();
        assert_eq!(node.optimize(), node);
    }
}
