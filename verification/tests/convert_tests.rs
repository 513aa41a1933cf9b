use scrapbox_converter_core::Config;
use scrapbox_converter_core::ast::HashTag;
use scrapbox_converter_core::ast::InternalLink;
use scrapbox_converter_core::ast::Node;
use scrapbox_converter_core::ast::NodeKind;
use scrapbox_converter_core::ast::Paragraph;
use scrapbox_converter_core::ast::Text;
use scrapbox_converter_core::error::ParseErrorKind;
use scrapbox_converter_core::markdown::IndentKind;
use scrapbox_converter_core::markdown_printer::MarkdownPrinter;
use scrapbox_converter_core::markdown_printer::MarkdownPrinterConfig;
use scrapbox_converter_core::parse_markdown;
use scrapbox_converter_core::parse_scrapbox;
use scrapbox_converter_core::scrapbox_to_markdown;
use scrapbox_converter_core::markdown_to_scrapbox;

fn config() -> Config {
    Config {
        heading1_mapping: 3,
        bold_to_heading: false,
        indent: IndentKind::Space { size: 2 },
    }
}

// The end-to-end scenario: a Scrapbox paragraph of two hashtags and an
// internal link parses into the expected node list and prints as Markdown.
#[test]
fn end_to_end_test() {
    let input = "#tag #tag [internal link]\n";
    let mut page = parse_scrapbox(input).unwrap();
    assert_eq!(page.nodes.len(), 1);
    assert_eq!(
        page.nodes[0].kind,
        NodeKind::Paragraph(Paragraph::new(vec![
            Node::new(NodeKind::HashTag(HashTag::new("tag"))),
            Node::new(NodeKind::Text(Text::new(" "))),
            Node::new(NodeKind::HashTag(HashTag::new("tag"))),
            Node::new(NodeKind::Text(Text::new(" "))),
            Node::new(NodeKind::InternalLink(InternalLink::new("internal link"))),
        ]))
    );
    let mut printer = MarkdownPrinter::new(MarkdownPrinterConfig::default());
    let out = printer.generate(&mut page);
    assert_eq!(out, "#tag #tag [[internal link]]\n");

    assert_eq!(
        scrapbox_to_markdown(input, &config()).unwrap(),
        "#tag #tag [[internal link]]\n"
    );
}

#[test]
fn scrapbox_to_markdown_heading_test() {
    // bold level 2 maps to a level-2 heading under h1_level = 3
    assert_eq!(
        scrapbox_to_markdown("[** chapter]\n", &config()).unwrap(),
        "## chapter\n"
    );
    // a single bold stays emphasis unless promotion is on
    assert_eq!(
        scrapbox_to_markdown("[* word]\n", &config()).unwrap(),
        "**word**\n"
    );
    let permissive = Config {
        heading1_mapping: 3,
        bold_to_heading: true,
        indent: IndentKind::Space { size: 2 },
    };
    assert_eq!(
        scrapbox_to_markdown("[* word]\n", &permissive).unwrap(),
        "### word\n"
    );
}

#[test]
fn scrapbox_to_markdown_list_test() {
    assert_eq!(
        scrapbox_to_markdown("\tabc\n\t\tdef\n", &config()).unwrap(),
        "* abc\n  * def\n"
    );
    // the configured indent unit drives the Markdown printer
    let tabbed = Config {
        heading1_mapping: 3,
        bold_to_heading: false,
        indent: IndentKind::Tab,
    };
    assert_eq!(
        scrapbox_to_markdown("\tabc\n\t\tdef\n", &tabbed).unwrap(),
        "* abc\n\t* def\n"
    );
}

#[test]
fn markdown_to_scrapbox_test() {
    assert_eq!(
        markdown_to_scrapbox("# heading\n", &config()).unwrap(),
        "[**** heading]\n\n"
    );
    assert_eq!(
        markdown_to_scrapbox("* a\n  * b\n", &config()).unwrap(),
        "\ta\n\t\tb\n"
    );
    assert_eq!(
        markdown_to_scrapbox("abc #tag [[internal link]]\n", &config()).unwrap(),
        "abc #tag [internal link]\n"
    );
}

// A Markdown line that no inline rule can finish aborts the parse with the
// internal-error kind instead of panicking.
#[test]
fn markdown_internal_error_test() {
    let err = parse_markdown("`abc\n").unwrap_err();
    assert_eq!(err.kind(), ParseErrorKind::Internal);
    let msg = err.message();
    assert!(msg.contains("parse error"));
}

// A Scrapbox document whose rest no rule can consume is rejected as a
// located syntax error; the parse is all-or-nothing.
#[test]
fn scrapbox_leftover_error_test() {
    let err = parse_scrapbox("`abc\n").unwrap_err();
    assert_eq!(err.kind(), ParseErrorKind::Syntax);
    assert_eq!(err.offset(), 0);
    assert_eq!(err.line(), 1);
}

#[test]
fn error_location_test() {
    let err = parse_scrapbox("abc\ndef\n`x\n").unwrap_err();
    assert_eq!(err.kind(), ParseErrorKind::Syntax);
    assert_eq!(err.offset(), 8);
    assert_eq!(err.line(), 3);
}

// Printing a parsed page with the same dialect's printer and re-parsing
// reproduces the page, for the structurally stable kinds.
#[test]
fn markdown_round_trip_test() {
    let cases = [
        "# heading\n",
        "#tag\n",
        "[[internal link]]\n",
        "[Rust](https://www.rust-lang.org/)\n",
        "https://www.rust-lang.org/\n",
        "```hello.rs\nfn main() {}\n```\n",
    ];
    for input in cases.iter() {
        let mut page = parse_markdown(input).unwrap();
        let mut printer = MarkdownPrinter::new(MarkdownPrinterConfig::default());
        let out = printer.generate(&mut page);
        let again = parse_markdown(&out).unwrap();
        assert_eq!(page, again, "{}", input);
    }
}

#[test]
fn scrapbox_round_trip_test() {
    let cases = [
        "#tag\n",
        "[internal link]\n",
        "`code`\n",
        "[$ x+y]\n",
        "[https://www.rust-lang.org/]\n",
        "[Rust https://www.rust-lang.org/]\n",
        "code:hello.rs\n fn main() {}\n",
    ];
    for input in cases.iter() {
        let mut page = parse_scrapbox(input).unwrap();
        let mut printer = scrapbox_converter_core::scrapbox_printer::ScrapboxPrinter::new(
            scrapbox_converter_core::scrapbox_printer::ScrapboxPrinterConfig::default(),
        );
        let out = printer.generate(&mut page);
        let again = parse_scrapbox(&out).unwrap();
        assert_eq!(page, again, "{}", input);
    }
}

// Printing an already-settled tree twice gives the same output twice.
#[test]
fn printer_idempotence_test() {
    let mut page = parse_scrapbox("#tag [link]\n").unwrap();
    let mut first = MarkdownPrinter::new(MarkdownPrinterConfig::default());
    let out1 = first.generate(&mut page);
    let mut second = MarkdownPrinter::new(MarkdownPrinterConfig::default());
    let out2 = second.generate(&mut page);
    assert_eq!(out1, out2);
}

// Consecutive blank lines become empty paragraphs, which the Markdown
// printer round-trips as blank output lines.
#[test]
fn blank_lines_test() {
    let mut page = parse_scrapbox("a\n\nb\n").unwrap();
    assert_eq!(page.nodes.len(), 3);
    assert_eq!(page.nodes[1].kind, NodeKind::Paragraph(Paragraph::new(vec![])));
    let mut printer = MarkdownPrinter::new(MarkdownPrinterConfig::default());
    assert_eq!(printer.generate(&mut page), "a\n\nb\n");
}

#[test]
fn parse_error_message_test() {
    let err = parse_scrapbox("`abc\n").unwrap_err();
    assert_eq!(err.message(), "1:0: parse error: unexpected input");
}
