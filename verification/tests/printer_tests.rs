use scrapbox_converter_core::ast::CodeBlock;
use scrapbox_converter_core::ast::ExternalLink;
use scrapbox_converter_core::ast::HashTag;
use scrapbox_converter_core::ast::Heading;
use scrapbox_converter_core::ast::Image;
use scrapbox_converter_core::ast::List;
use scrapbox_converter_core::ast::ListItem;
use scrapbox_converter_core::ast::ListKind;
use scrapbox_converter_core::ast::Math;
use scrapbox_converter_core::ast::Node;
use scrapbox_converter_core::ast::NodeKind;
use scrapbox_converter_core::ast::Page;
use scrapbox_converter_core::ast::Paragraph;
use scrapbox_converter_core::ast::Table;
use scrapbox_converter_core::ast::Text;
use scrapbox_converter_core::markdown_printer::MarkdownPrinter;
use scrapbox_converter_core::markdown_printer::MarkdownPrinterConfig;
use scrapbox_converter_core::scrapbox_printer::ScrapboxPrinter;
use scrapbox_converter_core::scrapbox_printer::ScrapboxPrinterConfig;

#[test]
fn markdown_printer_codegen_test() {
    let mut visitor = MarkdownPrinter::new(MarkdownPrinterConfig::default());

    let mut page = Page {
        nodes: vec![
            Node::new(NodeKind::Paragraph(Paragraph::new(vec![Node::new(
                NodeKind::Heading(Heading::new("heading", 1)),
            )]))),
            Node::new(NodeKind::Paragraph(Paragraph::new(vec![
                Node::new(NodeKind::Text(Text::new("abc "))),
                Node::new(NodeKind::HashTag(HashTag::new("tag"))),
                Node::new(NodeKind::Text(Text::new(" "))),
                Node::new(NodeKind::ExternalLink(ExternalLink::new(
                    Some("Rust"),
                    "https://www.rust-lang.org/",
                ))),
            ]))),
            Node::new(NodeKind::List(List::new(vec![ListItem::new(
                ListKind::Disc,
                2,
                vec![Node::new(NodeKind::Text(Text::new("abc")))],
            )]))),
            Node::new(NodeKind::Paragraph(Paragraph::new(vec![Node::new(
                NodeKind::CodeBlock(CodeBlock::new(
                    "hello.rs",
                    vec!["fn main() {", r#"    println("Hello, World!");"#, "}"],
                )),
            )]))),
            Node::new(NodeKind::Paragraph(Paragraph::new(vec![Node::new(
                NodeKind::Image(Image::new(
                    "https://www.rust-lang.org/static/images/rust-logo-blk.svg",
                )),
            )]))),
            Node::new(NodeKind::Paragraph(Paragraph::new(vec![Node::new(
                NodeKind::Table(Table::new(
                    "table",
                    vec!["a".into(), "b".into(), "c".into()],
                    vec![vec!["d".into(), "e".into(), "f".into()]],
                )),
            )]))),
            Node::new(NodeKind::Paragraph(Paragraph::new(vec![Node::new(
                NodeKind::Table(Table::new(
                    "table",
                    vec!["a".into(), "b".into(), "c".into()],
                    vec![vec![]],
                )),
            )]))),
            Node::new(NodeKind::Paragraph(Paragraph::new(vec![Node::new(
                NodeKind::Table(Table::new("table", vec![], vec![vec![]])),
            )]))),
            Node::new(NodeKind::Paragraph(Paragraph::new(vec![Node::new(
                NodeKind::Math(Math::new(r"\frac{-b \pm \sqrt{b^2-4ac}}{2a}")),
            )]))),
            Node::new(NodeKind::Paragraph(Paragraph::new(vec![Node::new(
                NodeKind::ExternalLink(ExternalLink::new(
                    None,
                    "https://gyazo.com/5f93e65a3b979ae5333aca4f32600611",
                )),
            )]))),
        ],
    };

    let markdown = visitor.generate(&mut page);

    let expected = "# heading\nabc #tag [Rust](https://www.rust-lang.org/)\n  * abc\n```hello.rs\nfn main() {\n    println(\"Hello, World!\");\n}\n```\n\n![](https://www.rust-lang.org/static/images/rust-logo-blk.svg)\n| a | b | c |\n| --- | --- | --- |\n| d | e | f |\n\n| a | b | c |\n| --- | --- | --- |\n\n\n$$\\frac{-b \\pm \\sqrt{b^2-4ac}}{2a}$$\n![](https://gyazo.com/5f93e65a3b979ae5333aca4f32600611/max_size/400)\n";

    assert_eq!(markdown, expected)
}

#[test]
fn scrapbox_printer_codegen_test() {
    let mut visitor = ScrapboxPrinter::new(ScrapboxPrinterConfig::default());

    let mut page = Page {
        nodes: vec![
            Node::new(NodeKind::Paragraph(Paragraph::new(vec![
                Node::new(NodeKind::Heading(Heading::new("heading", 1))),
                Node::new(NodeKind::Text(Text::new("abc "))),
                Node::new(NodeKind::HashTag(HashTag::new("tag"))),
                Node::new(NodeKind::Text(Text::new(" "))),
                Node::new(NodeKind::ExternalLink(ExternalLink::new(
                    Some("Rust"),
                    "https://www.rust-lang.org/",
                ))),
            ]))),
            Node::new(NodeKind::List(List::new(vec![ListItem::new(
                ListKind::Disc,
                2,
                vec![Node::new(NodeKind::Text(Text::new("abc")))],
            )]))),
            Node::new(NodeKind::Paragraph(Paragraph::new(vec![Node::new(
                NodeKind::CodeBlock(CodeBlock::new(
                    "hello.rs",
                    vec!["fn main() {", r#"    println("Hello, World!");"#, "}"],
                )),
            )]))),
            Node::new(NodeKind::Paragraph(Paragraph::new(vec![Node::new(
                NodeKind::Image(Image::new(
                    "https://www.rust-lang.org/static/images/rust-logo-blk.svg",
                )),
            )]))),
            Node::new(NodeKind::Paragraph(Paragraph::new(vec![Node::new(
                NodeKind::Table(Table::new(
                    "table",
                    vec!["a".into(), "b".into(), "c".into()],
                    vec![vec!["d".into(), "e".into(), "f".into()]],
                )),
            )]))),
            Node::new(NodeKind::Paragraph(Paragraph::new(vec![Node::new(
                NodeKind::Table(Table::new(
                    "table",
                    vec!["a".into(), "b".into(), "c".into()],
                    vec![vec![]],
                )),
            )]))),
            Node::new(NodeKind::Paragraph(Paragraph::new(vec![Node::new(
                NodeKind::Table(Table::new("table", vec![], vec![vec![]])),
            )]))),
            Node::new(NodeKind::Paragraph(Paragraph::new(vec![Node::new(
                NodeKind::Math(Math::new(r"\frac{-b \pm \sqrt{b^2-4ac}}{2a}")),
            )]))),
        ],
    };

    let scrapbox = visitor.generate(&mut page);

    let expected = "[**** heading]\nabc #tag [Rust https://www.rust-lang.org/]\n\t\t\tabc\ncode:hello.rs\n fn main() {\n     println(\"Hello, World!\");\n }\n\n[https://www.rust-lang.org/static/images/rust-logo-blk.svg]\ntable:table\n a\tb\tc\n d\te\tf\n\ntable:table\n a\tb\tc\n\n\n[$\\frac{-b \\pm \\sqrt{b^2-4ac}}{2a}]\n";

    assert_eq!(scrapbox, expected)
}

// A table with a non-empty header and one empty row prints the header and
// the separator but no data row; the enclosing paragraph then adds its
// trailing blank line.
#[test]
fn table_no_rows_test() {
    let mut visitor = MarkdownPrinter::new(MarkdownPrinterConfig::default());
    let mut page = Page {
        nodes: vec![Node::new(NodeKind::Paragraph(Paragraph::new(vec![
            Node::new(NodeKind::Table(Table::new(
                "table",
                vec!["a".into(), "b".into(), "c".into()],
                vec![vec![]],
            ))),
        ])))],
    };
    let out = visitor.generate(&mut page);
    assert_eq!(out, "| a | b | c |\n| --- | --- | --- |\n\n");
}

// An empty row also stops the data rows that would follow it.
#[test]
fn table_row_stop_test() {
    let mut visitor = MarkdownPrinter::new(MarkdownPrinterConfig::default());
    let mut page = Page {
        nodes: vec![Node::new(NodeKind::Table(Table::new(
            "table",
            vec!["a".into()],
            vec![vec!["x".into()], vec![], vec!["y".into()]],
        )))],
    };
    let out = visitor.generate(&mut page);
    assert_eq!(out, "| a |\n| --- |\n| x |\n");
}

// A decimal run is numbered from one and resets after a non-decimal item.
#[test]
fn scrapbox_list_numbering_test() {
    let mut visitor = ScrapboxPrinter::new(ScrapboxPrinterConfig::default());
    let mut page = Page {
        nodes: vec![Node::new(NodeKind::List(List::new(vec![
            ListItem::decimal(0, vec![Node::new(NodeKind::Text(Text::new("a")))]),
            ListItem::decimal(0, vec![Node::new(NodeKind::Text(Text::new("b")))]),
            ListItem::disc(0, vec![Node::new(NodeKind::Text(Text::new("c")))]),
            ListItem::decimal(0, vec![Node::new(NodeKind::Text(Text::new("d")))]),
        ])))],
    };
    let out = visitor.generate(&mut page);
    assert_eq!(out, "\t1. a\n\t2. b\n\tc\n\t1. d\n");
}

// The Markdown printer emits the configured indent unit per level.
#[test]
fn markdown_list_indent_test() {
    let mut visitor = MarkdownPrinter::new(MarkdownPrinterConfig {
        indent: "\t".to_string(),
    });
    let mut page = Page {
        nodes: vec![Node::new(NodeKind::List(List::new(vec![
            ListItem::disc(1, vec![Node::new(NodeKind::Text(Text::new("a")))]),
            ListItem::decimal(2, vec![Node::new(NodeKind::Text(Text::new("b")))]),
        ])))],
    };
    let out = visitor.generate(&mut page);
    assert_eq!(out, "* a\n\t1. b\n");
}
