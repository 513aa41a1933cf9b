use scrapbox_converter_core::ast::BlockQuate;
use scrapbox_converter_core::ast::Emphasis;
use scrapbox_converter_core::ast::ExternalLink;
use scrapbox_converter_core::ast::HashTag;
use scrapbox_converter_core::ast::Heading;
use scrapbox_converter_core::ast::InternalLink;
use scrapbox_converter_core::ast::List;
use scrapbox_converter_core::ast::ListItem;
use scrapbox_converter_core::ast::ListKind;
use scrapbox_converter_core::ast::Node;
use scrapbox_converter_core::ast::NodeKind;
use scrapbox_converter_core::ast::Page;
use scrapbox_converter_core::ast::Text;

#[test]
fn ast_test() {
    let page = Page {
        nodes: vec![
            Node::new(NodeKind::List(List::new(vec![ListItem::new(
                ListKind::Disc,
                1,
                vec![
                    Node::new(NodeKind::Text(Text::new("abc"))),
                    Node::new(NodeKind::HashTag(HashTag::new("tag"))),
                    Node::new(NodeKind::Text(Text::new(" "))),
                    Node::new(NodeKind::ExternalLink(ExternalLink::new(
                        Some("Rust"),
                        "https://www.rust-lang.org/",
                    ))),
                ],
            )]))),
            Node::new(NodeKind::BlockQuate(BlockQuate::new("git"))),
        ],
    };

    println!("{:?}", page);
}

#[test]
fn constructors_test() {
    assert_eq!(HashTag::new("tag").value, "tag");
    assert_eq!(Text::new("abc").value, "abc");
    assert_eq!(InternalLink::new("title").title, "title");
    let link = ExternalLink::new(Some("Rust"), "https://www.rust-lang.org/");
    assert_eq!(link.title, Some("Rust".to_string()));
    assert_eq!(link.url, "https://www.rust-lang.org/");
    let bare = ExternalLink::new(None, "https://example.com/");
    assert_eq!(bare.title, None);
    let h = Heading::new("heading", 2);
    assert_eq!(h.text, "heading");
    assert_eq!(h.level, 2);
    let e = Emphasis::new("text", 3, 1, 1);
    assert_eq!((e.bold, e.italic, e.strikethrough), (3, 1, 1));
    assert_eq!(Emphasis::bold("b").bold, 1);
    assert_eq!(Emphasis::bold_level("b", 5).bold, 5);
    assert_eq!(Emphasis::italic("i").italic, 1);
    assert_eq!(Emphasis::strikethrough("s").strikethrough, 1);
    let disc = ListItem::disc(2, vec![]);
    assert_eq!(disc.kind, ListKind::Disc);
    assert_eq!(disc.level, 2);
    assert_eq!(ListItem::decimal(1, vec![]).kind, ListKind::Decimal);
    assert_eq!(ListItem::alphabet(1, vec![]).kind, ListKind::Alphabet);
}
