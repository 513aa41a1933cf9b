use scrapbox_converter_core::ast::ExternalLink;
use scrapbox_converter_core::ast::HashTag;
use scrapbox_converter_core::ast::InternalLink;
use scrapbox_converter_core::ast::List;
use scrapbox_converter_core::ast::ListItem;
use scrapbox_converter_core::ast::ListKind;
use scrapbox_converter_core::ast::Node;
use scrapbox_converter_core::ast::NodeKind;
use scrapbox_converter_core::ast::Page;
use scrapbox_converter_core::ast::Paragraph;
use scrapbox_converter_core::ast::Text;
use scrapbox_converter_core::markdown;
use scrapbox_converter_core::markdown::MarkdownParserContext;
use scrapbox_converter_core::scrapbox;
use scrapbox_converter_core::scrapbox::ScrapboxParserContext;
use scrapbox_converter_core::utils;

fn chars(s: &str) -> usize {
    s.chars().count()
}

#[test]
fn hashtag_test() {
    assert_eq!(utils::hashtag("#tag", 0), Ok((4, HashTag::new("tag"))));
    assert_eq!(utils::hashtag("#tag\n", 0), Ok((4, HashTag::new("tag"))));
    assert_eq!(utils::hashtag("#tag ", 0), Ok((4, HashTag::new("tag"))));
    assert_eq!(utils::hashtag("#tag\u{3000}", 0), Ok((4, HashTag::new("tag"))));
    assert_eq!(utils::hashtag("####tag", 0), Ok((7, HashTag::new("###tag"))));
    assert_eq!(utils::hashtag("#[tag", 0), Ok((5, HashTag::new("[tag"))));
    assert!(utils::hashtag("tag", 0).is_err());
}

#[test]
fn text_test() {
    assert!(utils::text("", 0).is_err());
    assert!(utils::text("#tag", 0).is_err());
    assert_eq!(utils::text(" #tag", 0), Ok((1, Text::new(" "))));
    assert_eq!(utils::text(" #tag[", 0), Ok((1, Text::new(" "))));
    assert_eq!(utils::text(" [#tag", 0), Ok((1, Text::new(" "))));
    assert_eq!(utils::text(" [ #tag", 0), Ok((1, Text::new(" "))));
    assert_eq!(utils::text(" [url]", 0), Ok((1, Text::new(" "))));
    assert_eq!(utils::text(" \n", 0), Ok((1, Text::new(" "))));
    assert_eq!(utils::text("abc`aaa`", 0), Ok((3, Text::new("abc"))));
    assert_eq!(utils::text("abc#tag", 0), Ok((7, Text::new("abc#tag"))));
    assert_eq!(utils::text("abc #tag", 0), Ok((4, Text::new("abc "))));
    assert_eq!(utils::text("あいう", 0), Ok((3, Text::new("あいう"))));
    assert_eq!(utils::text("[", 0), Ok((1, Text::new("["))));
}

// The shortest-match resolver takes the prefix up to the following hashtag:
// neither nothing nor everything.
#[test]
fn shortest_match_test() {
    let (next, t) = utils::text("abc #tag", 0).unwrap();
    assert_eq!(t, Text::new("abc "));
    assert_eq!(next, 4);
}

#[test]
fn internal_link_test() {
    assert_eq!(
        scrapbox::internal_link("[title]", 0),
        Ok((7, InternalLink::new("title")))
    );
}

#[test]
fn external_link_test() {
    let (next, node) = scrapbox::external_link_or_image("[https://google.com]", 0).unwrap();
    assert_eq!(next, chars("[https://google.com]"));
    assert_eq!(
        node.kind,
        NodeKind::ExternalLink(ExternalLink::new(None, "https://google.com"))
    );

    let (_, node) = scrapbox::external_link_or_image("[Google https://google.com]", 0).unwrap();
    assert_eq!(
        node.kind,
        NodeKind::ExternalLink(ExternalLink::new(Some("Google"), "https://google.com"))
    );

    let (_, node) = scrapbox::external_link_or_image("[https://google.com Google]", 0).unwrap();
    assert_eq!(
        node.kind,
        NodeKind::ExternalLink(ExternalLink::new(Some("Google"), "https://google.com"))
    );
}

#[test]
fn bracketing_test() {
    let ctx = ScrapboxParserContext::default();
    let (_, node) = scrapbox::node("[title]", 0, ctx).unwrap();
    assert_eq!(
        node.kind,
        NodeKind::InternalLink(InternalLink::new("title"))
    );
    let (_, node) = scrapbox::node("[https://google.com]", 0, ctx).unwrap();
    assert_eq!(
        node.kind,
        NodeKind::ExternalLink(ExternalLink::new(None, "https://google.com"))
    );
}

#[test]
fn syntax_test() {
    let ctx = ScrapboxParserContext::default();
    assert!(scrapbox::node("", 0, ctx).is_err());
    assert!(scrapbox::node("\n", 0, ctx).is_err());
    let (next, node) = scrapbox::node("abc #tag ", 0, ctx).unwrap();
    assert_eq!(next, 4);
    assert_eq!(node.kind, NodeKind::Text(Text::new("abc ")));
    let (next, node) = scrapbox::node("#tag abc", 0, ctx).unwrap();
    assert_eq!(next, 4);
    assert_eq!(node.kind, NodeKind::HashTag(HashTag::new("tag")));
    let (next, node) = scrapbox::node("[title]abc", 0, ctx).unwrap();
    assert_eq!(next, 7);
    assert_eq!(
        node.kind,
        NodeKind::InternalLink(InternalLink::new("title"))
    );
}

#[test]
fn line_test() {
    let ctx = ScrapboxParserContext::default();
    assert!(scrapbox::paragraph("", 0, ctx).is_err());
    let (next, p) = scrapbox::paragraph(" ", 0, ctx).unwrap();
    assert_eq!(next, 1);
    assert_eq!(p, Paragraph::new(vec![Node::new(NodeKind::Text(Text::new(" ")))]));
    let input = "#tag #tag [internal link]\n";
    let (next, p) = scrapbox::paragraph(input, 0, ctx).unwrap();
    assert_eq!(next, chars(input));
    assert_eq!(
        p,
        Paragraph::new(vec![
            Node::new(NodeKind::HashTag(HashTag::new("tag"))),
            Node::new(NodeKind::Text(Text::new(" "))),
            Node::new(NodeKind::HashTag(HashTag::new("tag"))),
            Node::new(NodeKind::Text(Text::new(" "))),
            Node::new(NodeKind::InternalLink(InternalLink::new("internal link"))),
        ])
    );
}

#[test]
fn page_test() {
    let ctx = ScrapboxParserContext::default();
    let input = "abc\n#efg [internal link][https://google.com]\n";
    let (next, page) = scrapbox::page(input, 0, ctx).unwrap();
    assert_eq!(next, chars(input));
    let expected = Page {
        nodes: vec![
            Node::new(NodeKind::Paragraph(Paragraph::new(vec![Node::new(
                NodeKind::Text(Text::new("abc")),
            )]))),
            Node::new(NodeKind::Paragraph(Paragraph::new(vec![
                Node::new(NodeKind::HashTag(HashTag::new("efg"))),
                Node::new(NodeKind::Text(Text::new(" "))),
                Node::new(NodeKind::InternalLink(InternalLink::new("internal link"))),
                Node::new(NodeKind::ExternalLink(ExternalLink::new(
                    None,
                    "https://google.com",
                ))),
            ]))),
        ],
    };
    assert_eq!(page, expected);
}

// Scrapbox list items measure their own leading run, mixing indent kinds.
#[test]
fn scrapbox_list_test() {
    let expect_disc2 = |input: &str| {
        let (_, l) = scrapbox::list(input, 0).unwrap();
        assert_eq!(
            l,
            List::new(vec![ListItem::new(
                ListKind::Disc,
                2,
                vec![Node::new(NodeKind::Text(Text::new("123abc")))]
            )])
        );
    };
    expect_disc2("\t\t123abc\n");
    expect_disc2(" \t123abc\n");
    expect_disc2("\t 123abc\n");
    expect_disc2("  123abc\n");
    expect_disc2("  123abc");
    expect_disc2("\u{3000}\u{3000}123abc");

    let (_, l) = scrapbox::list("\t123. abc\n", 0).unwrap();
    assert_eq!(
        l,
        List::new(vec![ListItem::new(
            ListKind::Decimal,
            1,
            vec![Node::new(NodeKind::Text(Text::new("abc")))]
        )])
    );
}

// The first indented Markdown item locks the indent convention for its
// whole list; a later list in the document may lock another one.
#[test]
fn markdown_indent_lock_test() {
    let ctx = MarkdownParserContext::default();
    let input = "* a\n  * b\n";
    let (next, page) = markdown::page(input, 0, ctx).unwrap();
    assert_eq!(next, chars(input));
    assert_eq!(page.nodes.len(), 1);
    match &page.nodes[0].kind {
        NodeKind::List(l) => {
            assert_eq!(l.children.len(), 2);
            assert_eq!(l.children[0].level, 0);
            assert_eq!(l.children[1].level, 1);
        }
        other => panic!("{:?}", other),
    }

    // four spaces under a two-space lock count as two levels
    let input = "* a\n  * b\n    * c\n";
    let (_, page) = markdown::page(input, 0, ctx).unwrap();
    match &page.nodes[0].kind {
        NodeKind::List(l) => {
            assert_eq!(l.children[2].level, 2);
        }
        other => panic!("{:?}", other),
    }

    // a later list may lock tabs instead
    let input = "* a\n  * b\nx\n* c\n\t* d\n";
    let (next, page) = markdown::page(input, 0, ctx).unwrap();
    assert_eq!(next, chars(input));
    assert_eq!(page.nodes.len(), 3);
    match &page.nodes[2].kind {
        NodeKind::List(l) => {
            assert_eq!(l.children.len(), 2);
            assert_eq!(l.children[0].level, 0);
            assert_eq!(l.children[1].level, 1);
        }
        other => panic!("{:?}", other),
    }
}

// Bracketed link or image: an image-suffixed URL wins, a trailing word
// becomes the title, and an other-project path maps to a same-origin URL.
#[test]
fn link_image_disambiguation_test() {
    let ctx = ScrapboxParserContext::default();
    let (_, node) = scrapbox::node("[https://x/a.png]", 0, ctx).unwrap();
    assert_eq!(
        node.kind,
        NodeKind::Image(scrapbox_converter_core::ast::Image::new("https://x/a.png"))
    );
    let (_, node) = scrapbox::node("[https://x/ Rust]", 0, ctx).unwrap();
    assert_eq!(
        node.kind,
        NodeKind::ExternalLink(ExternalLink::new(Some("Rust"), "https://x/"))
    );
    let (_, node) = scrapbox::node("[/help/Page]", 0, ctx).unwrap();
    assert_eq!(
        node.kind,
        NodeKind::ExternalLink(ExternalLink::new(
            Some("/help/Page"),
            "https://scrapbox.io/help/Page"
        ))
    );
}

#[test]
fn markdown_inline_test() {
    assert_eq!(
        markdown::heading("# heading", 0),
        Ok((9, scrapbox_converter_core::ast::Heading::new("heading", 1)))
    );
    assert_eq!(
        markdown::heading("## heading", 0),
        Ok((10, scrapbox_converter_core::ast::Heading::new("heading", 2)))
    );
    assert_eq!(
        markdown::internal_link("[[title]]", 0),
        Ok((9, InternalLink::new("title")))
    );
    assert_eq!(
        markdown::external_link("[Rust](https://www.rust-lang.org/)", 0),
        Ok((
            34,
            ExternalLink::new(Some("Rust"), "https://www.rust-lang.org/")
        ))
    );
    let e = markdown::emphasis("**text**", 0).unwrap().1;
    assert_eq!(e, scrapbox_converter_core::ast::Emphasis::bold_level("text", 1));
    let e = markdown::emphasis("*text*", 0).unwrap().1;
    assert_eq!(e, scrapbox_converter_core::ast::Emphasis::italic("text"));
    let e = markdown::emphasis("~~text~~", 0).unwrap().1;
    assert_eq!(e, scrapbox_converter_core::ast::Emphasis::strikethrough("text"));
    let (next, m) = markdown::math("$$ x $$", 0).unwrap();
    assert_eq!(next, 7);
    assert_eq!(m, scrapbox_converter_core::ast::Math::new(" x "));
    let (_, img) = markdown::image("![](https://x/logo.svg)", 0).unwrap();
    assert_eq!(img, scrapbox_converter_core::ast::Image::new("https://x/logo.svg"));
    assert!(markdown::image("![](https://x/page)", 0).is_err());
    let (_, img) = markdown::image_internal_link("![[test.png]]", 0).unwrap();
    assert_eq!(img, scrapbox_converter_core::ast::Image::new("test.png"));
}

#[test]
fn markdown_code_block_test() {
    let input = "```hello.rs\n    panic!()\n    panic!()\n```\n";
    let (next, cb) = markdown::code_block(input, 0).unwrap();
    assert_eq!(next, chars(input));
    assert_eq!(
        cb,
        scrapbox_converter_core::ast::CodeBlock::new(
            "hello.rs",
            vec!["    panic!()", "    panic!()"]
        )
    );
}

#[test]
fn markdown_table_test() {
    let input = "| a | b | c |\n| --- | --- | --- |\n| d | e | f |\n";
    let (next, t) = markdown::table(input, 0).unwrap();
    assert_eq!(next, chars(input));
    assert_eq!(
        t,
        scrapbox_converter_core::ast::Table::new(
            "table",
            vec!["a".into(), "b".into(), "c".into()],
            vec![vec!["d".into(), "e".into(), "f".into()]]
        )
    );
}

#[test]
fn scrapbox_code_block_test() {
    let ctx = ScrapboxParserContext::default();
    let input = "code:hello.rs\n     panic!()\n     panic!()\n";
    let (next, cb) = scrapbox::code_block(input, 0, ctx).unwrap();
    assert_eq!(next, chars(input));
    assert_eq!(
        cb,
        scrapbox_converter_core::ast::CodeBlock::new(
            "hello.rs",
            vec!["    panic!()", "    panic!()"]
        )
    );

    // inside a list item, one more leading space is expected per level
    let ctx = ScrapboxParserContext { indent: 1 };
    let input = "code:hello.rs\n      panic!()\n      panic!()\n abc\n";
    let (next, cb) = scrapbox::code_block(input, 0, ctx).unwrap();
    assert_eq!(next, chars(input) - chars(" abc\n"));
    assert_eq!(
        cb,
        scrapbox_converter_core::ast::CodeBlock::new(
            "hello.rs",
            vec!["    panic!()", "    panic!()"]
        )
    );
}

#[test]
fn scrapbox_table_test() {
    let ctx = ScrapboxParserContext::default();
    let input = "table:table\n a\tb\tc\n d\te\tf\n";
    let (next, t) = scrapbox::table(input, 0, ctx).unwrap();
    assert_eq!(next, chars(input));
    assert_eq!(
        t,
        scrapbox_converter_core::ast::Table::new(
            "table",
            vec!["a".into(), "b".into(), "c".into()],
            vec![vec!["d".into(), "e".into(), "f".into()]]
        )
    );

    let (next, t) = scrapbox::table("table:table\n", 0, ctx).unwrap();
    assert_eq!(next, chars("table:table\n"));
    assert_eq!(
        t,
        scrapbox_converter_core::ast::Table::new("table", vec![], vec![])
    );
}

#[test]
fn scrapbox_emphasis_test() {
    let (_, e) = scrapbox::emphasis("[* text]", 0).unwrap();
    assert_eq!(e, scrapbox_converter_core::ast::Emphasis::bold_level("text", 1));
    let (_, e) = scrapbox::emphasis("[***** text]", 0).unwrap();
    assert_eq!(e, scrapbox_converter_core::ast::Emphasis::bold_level("text", 5));
    let (_, e) = scrapbox::emphasis("[/ text]", 0).unwrap();
    assert_eq!(e, scrapbox_converter_core::ast::Emphasis::italic("text"));
    let (_, e) = scrapbox::emphasis("[*/*-* text]", 0).unwrap();
    assert_eq!(e, scrapbox_converter_core::ast::Emphasis::new("text", 3, 1, 1));
    let (_, e) = scrapbox::emphasis("[*/*-*  text\u{3000}]", 0).unwrap();
    assert_eq!(e, scrapbox_converter_core::ast::Emphasis::new("text", 3, 1, 1));
    let (_, e) = scrapbox::bold("[[text]]", 0).unwrap();
    assert_eq!(e, scrapbox_converter_core::ast::Emphasis::bold_level("text", 1));
    let (_, e) = scrapbox::bold("[[ text\u{3000}]]", 0).unwrap();
    assert_eq!(e, scrapbox_converter_core::ast::Emphasis::bold_level("text", 1));
}

#[test]
fn scrapbox_math_commandline_test() {
    let input = r"[$ \frac{-b \pm \sqrt{b^2-4ac}}{2a} ]";
    let (next, m) = scrapbox::math(input, 0).unwrap();
    assert_eq!(next, chars(input));
    assert_eq!(
        m,
        scrapbox_converter_core::ast::Math::new(r"\frac{-b \pm \sqrt{b^2-4ac}}{2a}")
    );

    let (next, b) = scrapbox::commandline("$ code   ", 0).unwrap();
    assert_eq!(next, 9);
    assert_eq!(b, scrapbox_converter_core::ast::BlockQuate::new("$ code   "));
}

#[test]
fn block_quate_test() {
    assert_eq!(
        utils::block_quate("`code`", 0),
        Ok((6, scrapbox_converter_core::ast::BlockQuate::new("code")))
    );
    assert_eq!(
        utils::block_quate("`code` test", 0),
        Ok((6, scrapbox_converter_core::ast::BlockQuate::new("code")))
    );
    assert!(utils::block_quate("123abc", 0).is_err());
    assert!(utils::block_quate("`123abc", 0).is_err());
}
