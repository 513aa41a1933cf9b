use scrapbox_converter_core::ast::CodeBlock;
use scrapbox_converter_core::ast::Emphasis;
use scrapbox_converter_core::ast::Heading;
use scrapbox_converter_core::ast::List;
use scrapbox_converter_core::ast::ListItem;
use scrapbox_converter_core::ast::ListKind;
use scrapbox_converter_core::ast::Node;
use scrapbox_converter_core::ast::NodeKind;
use scrapbox_converter_core::ast::Page;
use scrapbox_converter_core::ast::Paragraph;
use scrapbox_converter_core::markdown_printer::MarkdownPass;
use scrapbox_converter_core::visitor::TransformCommand;

#[test]
fn pass_test() {
    let mut pass = MarkdownPass::default();

    assert_eq!(
        pass.visit_emphasis(&Emphasis::bold_level("text", 3)),
        Some(TransformCommand::Replace(NodeKind::Heading(Heading::new(
            "text", 1
        ))))
    );
}

#[test]
fn pass_bold_to_h_test() {
    let mut pass = MarkdownPass {
        h1_level: 3,
        bold_to_h: true,
    };

    assert_eq!(
        pass.visit_emphasis(&Emphasis::bold_level("text", 1)),
        Some(TransformCommand::Replace(NodeKind::Heading(Heading::new(
            "text", 3
        ))))
    );
}

fn hello_code_block() -> Node {
    Node::new(NodeKind::CodeBlock(CodeBlock::new(
        "hello.rs",
        vec!["fn main() {", r#"    println("Hello, World!");"#, "}"],
    )))
}

#[test]
fn pass_flatten_code_block_in_list() {
    let mut pass = MarkdownPass::default();

    let mut input = List::new(vec![ListItem::new(
        ListKind::Disc,
        1,
        vec![hello_code_block()],
    )]);

    assert_eq!(
        pass.visit_list(&mut input),
        Some(TransformCommand::Replace(hello_code_block().kind))
    )
}

#[test]
fn markdown_pass_test() {
    let mut pass = MarkdownPass::default();

    let mut page = Page {
        nodes: vec![Node::new(NodeKind::Paragraph(Paragraph::new(vec![
            Node::new(NodeKind::Emphasis(Emphasis::bold_level("text", 3))),
        ])))],
    };

    pass.visit(&mut page);

    assert_eq!(
        page.nodes[0].kind,
        NodeKind::Paragraph(Paragraph::new(vec![Node::new(NodeKind::Heading(
            Heading::new("text", 1)
        ))]))
    );
}

#[test]
fn pass_fallback_test() {
    let mut pass = MarkdownPass::default();

    let mut page = Page {
        nodes: vec![Node::new(NodeKind::Paragraph(Paragraph::new(vec![
            Node::new(NodeKind::Emphasis(Emphasis::bold_level("text", 10))),
        ])))],
    };

    pass.visit(&mut page);

    assert_eq!(
        page.nodes[0].kind,
        NodeKind::Paragraph(Paragraph::new(vec![Node::new(NodeKind::Emphasis(
            Emphasis::bold_level("text", 10)
        ))]))
    );
}

#[test]
fn markdown_pass_bold_to_h_test() {
    let mut pass = MarkdownPass {
        h1_level: 3,
        bold_to_h: true,
    };

    let mut page = Page {
        nodes: vec![Node::new(NodeKind::Paragraph(Paragraph::new(vec![
            Node::new(NodeKind::Emphasis(Emphasis::bold_level("text", 1))),
        ])))],
    };

    pass.visit(&mut page);

    assert_eq!(
        page.nodes[0].kind,
        NodeKind::Paragraph(Paragraph::new(vec![Node::new(NodeKind::Heading(
            Heading::new("text", 3)
        ))]))
    );
}

// With h1_level = 3 and promotion off: bold level 1 stays emphasis, level 2
// becomes a level-2 heading, level 3 a level-1 heading, level 10 is out of
// range and stays.
#[test]
fn pass_heading_boundary_test() {
    let mut pass = MarkdownPass {
        h1_level: 3,
        bold_to_h: false,
    };

    assert_eq!(pass.visit_emphasis(&Emphasis::bold_level("text", 1)), None);
    assert_eq!(
        pass.visit_emphasis(&Emphasis::bold_level("text", 2)),
        Some(TransformCommand::Replace(NodeKind::Heading(Heading::new(
            "text", 2
        ))))
    );
    assert_eq!(
        pass.visit_emphasis(&Emphasis::bold_level("text", 3)),
        Some(TransformCommand::Replace(NodeKind::Heading(Heading::new(
            "text", 1
        ))))
    );
    assert_eq!(pass.visit_emphasis(&Emphasis::bold_level("text", 10)), None);
}

// A list mixing a leading code block with ordinary items splits into a
// grouping paragraph of standalone code blocks and singleton lists.
#[test]
fn pass_flatten_mixed_list_test() {
    let mut pass = MarkdownPass::default();

    let mut input = List::new(vec![
        ListItem::new(ListKind::Disc, 1, vec![hello_code_block()]),
        ListItem::new(
            ListKind::Disc,
            1,
            vec![Node::new(NodeKind::Text(
                scrapbox_converter_core::ast::Text::new("abc"),
            ))],
        ),
    ]);

    let result = pass.visit_list(&mut input);
    match result {
        Some(TransformCommand::Replace(NodeKind::Paragraph(p))) => {
            assert_eq!(p.children.len(), 2);
            assert!(matches!(p.children[0].kind, NodeKind::CodeBlock(_)));
            assert!(matches!(p.children[1].kind, NodeKind::List(_)));
        }
        other => panic!("{:?}", other),
    }
}
