use scrapbox_converter_core::ast::BlockQuate;
use scrapbox_converter_core::ast::ExternalLink;
use scrapbox_converter_core::ast::HashTag;
use scrapbox_converter_core::ast::List;
use scrapbox_converter_core::ast::ListItem;
use scrapbox_converter_core::ast::ListKind;
use scrapbox_converter_core::ast::Node;
use scrapbox_converter_core::ast::NodeKind;
use scrapbox_converter_core::ast::Page;
use scrapbox_converter_core::ast::Paragraph;
use scrapbox_converter_core::ast::Text;
use scrapbox_converter_core::visitor::walk_node;
use scrapbox_converter_core::visitor::walk_page;
use scrapbox_converter_core::visitor::walk_paragraph;
use scrapbox_converter_core::visitor::TransformCommand;
use scrapbox_converter_core::visitor::Visitor;

/// A minimal visitor built on the generic walk: it prints the hashtags and
/// text runs it meets.
struct CodeGen {
    out: String,
}

impl Visitor for CodeGen {
    fn visit(&mut self, value: &mut Page) {
        self.visit_page(value);
    }

    fn visit_page(&mut self, value: &mut Page) {
        walk_page(self, value);
    }

    fn visit_node(&mut self, value: &mut Node) {
        walk_node(self, value)
    }

    fn visit_paragraph(&mut self, value: &mut Paragraph) -> Option<TransformCommand> {
        walk_paragraph(self, value)
    }

    fn visit_hashtag(&mut self, value: &HashTag) -> Option<TransformCommand> {
        self.out.push('#');
        self.out.push_str(&value.value);
        None
    }

    fn visit_text(&mut self, value: &Text) -> Option<TransformCommand> {
        self.out.push_str(&value.value);
        None
    }
}

#[test]
fn visitor_codegen_test() {
    let mut visitor = CodeGen { out: String::new() };

    let mut page = Page {
        nodes: vec![Node::new(NodeKind::Paragraph(Paragraph::new(vec![
            Node::new(NodeKind::Text(Text::new("abc"))),
            Node::new(NodeKind::HashTag(HashTag::new("tag"))),
        ])))],
    };

    visitor.visit(&mut page);
    println!("{}", visitor.out);
}

/// A visitor that deletes every hashtag leaves a tombstone in place.
struct TagEraser {}

impl Visitor for TagEraser {
    fn visit(&mut self, value: &mut Page) {
        self.visit_page(value);
    }

    fn visit_page(&mut self, value: &mut Page) {
        walk_page(self, value);
    }

    fn visit_node(&mut self, value: &mut Node) {
        walk_node(self, value)
    }

    fn visit_paragraph(&mut self, value: &mut Paragraph) -> Option<TransformCommand> {
        walk_paragraph(self, value)
    }

    fn visit_hashtag(&mut self, _value: &HashTag) -> Option<TransformCommand> {
        Some(TransformCommand::Delete)
    }
}

#[test]
fn visitor_delete_tombstone_test() {
    let mut visitor = TagEraser {};
    let mut page = Page {
        nodes: vec![Node::new(NodeKind::Paragraph(Paragraph::new(vec![
            Node::new(NodeKind::Text(Text::new("abc"))),
            Node::new(NodeKind::HashTag(HashTag::new("tag"))),
        ])))],
    };
    visitor.visit(&mut page);
    match &page.nodes[0].kind {
        NodeKind::Paragraph(p) => {
            // the node count is stable: the hashtag became a tombstone
            assert_eq!(p.children.len(), 2);
            assert_eq!(p.children[0].kind, NodeKind::Text(Text::new("abc")));
            assert_eq!(p.children[1].kind, NodeKind::Nop);
        }
        other => panic!("{:?}", other),
    }
}

#[test]
fn ast_ast_test() {
    let page = Page {
        nodes: vec![
            Node::new(NodeKind::Paragraph(Paragraph::new(vec![
                Node::new(NodeKind::Text(Text::new("abc"))),
                Node::new(NodeKind::HashTag(HashTag::new("tag"))),
                Node::new(NodeKind::Text(Text::new(" "))),
                Node::new(NodeKind::ExternalLink(ExternalLink::new(
                    Some("Rust"),
                    "https://www.rust-lang.org/",
                ))),
            ]))),
            Node::new(NodeKind::List(List::new(vec![ListItem::new(
                ListKind::Disc,
                1,
                vec![Node::new(NodeKind::BlockQuate(BlockQuate::new("git")))],
            )]))),
        ],
    };

    println!("{:?}", page);
}
