//! Converter between two lightweight markup dialects (a Markdown-like and a
//! Scrapbox-like wiki format).  Either dialect is parsed into a shared
//! abstract syntax tree, the tree may be rewritten by semantic passes, and a
//! printer serializes it back into the other dialect.
//!
//! A whole-document parse is all-or-nothing: either the full input becomes a
//! page, or a located error comes back and no partial tree is returned.
pub mod ast;
pub mod error;
pub mod laws;
pub mod markdown;
pub mod markdown_printer;
pub mod strutil;
pub mod scrapbox;
pub mod scrapbox_printer;
pub mod utils;
pub mod visitor;

use vstd::prelude::*;

use crate::ast::Page;
use crate::error::PFail;
use crate::error::PRes;
use crate::error::ParseError;
use crate::error::ParseErrorKind;
use crate::error::line_at;
use crate::error::line_of;
use crate::markdown::IndentKind;
use crate::markdown::MarkdownParserContext;
use crate::markdown_printer::MarkdownPass;
use crate::markdown_printer::MarkdownPrinter;
use crate::markdown_printer::MarkdownPrinterConfig;
use crate::scrapbox::ScrapboxParserContext;
use crate::scrapbox_printer::ScrapboxPrinter;
use crate::scrapbox_printer::ScrapboxPrinterConfig;

verus! {

/// The configuration record consumed at the boundary: how bold levels map
/// to headings, and the indent unit the Markdown printer emits.
pub struct Config {
    pub heading1_mapping: usize,
    pub bold_to_heading: bool,
    pub indent: IndentKind,
}

/// What the whole-document Scrapbox parse returns: the page models exactly
/// when the grammar consumes all of the input.
pub open spec fn scrapbox_parse_ok(input: Seq<char>) -> bool {
    crate::scrapbox::sp_page(input, 0, 0) matches PRes::Found { next, .. } && next == input.len()
}

pub open spec fn scrapbox_parsed(input: Seq<char>) -> Seq<crate::ast::NodeRep> {
    match crate::scrapbox::sp_page(input, 0, 0) {
        PRes::Found { val, .. } => val,
        _ => Seq::empty(),
    }
}

/// The error that a failed whole-document parse reports, for either
/// grammar: a syntax error locates the unconsumed rest, an internal error
/// locates the inconsistency that aborted the parse.
pub open spec fn parse_err_ok(
    input: Seq<char>,
    sp: PRes<Seq<crate::ast::NodeRep>>,
    e: ParseError,
) -> bool {
    match sp {
        PRes::Found { next, .. } => next < input.len() && e.kind == ParseErrorKind::Syntax
            && e.offset == next && e.line == line_at(input, next),
        PRes::Abort(p) => e.kind == ParseErrorKind::Internal && e.offset == p,
        PRes::Miss => e.kind == ParseErrorKind::Syntax,
    }
}

/// Parses a whole Scrapbox document, all-or-nothing.
pub fn parse_scrapbox(input: &str) -> (r: Result<Page, ParseError>)
    requires
        input@.len() < usize::MAX,
    ensures
        match r {
            Ok(page) => scrapbox_parse_ok(input@) && page@ == scrapbox_parsed(input@)
                && crate::ast::levels_ok_nodes(page@),
            Err(e) => !scrapbox_parse_ok(input@) && parse_err_ok(
                input@,
                crate::scrapbox::sp_page(input@, 0, 0),
                e,
            ),
        },
{
    let n = input.unicode_len();
    proof {
        crate::scrapbox::lemma_page_levels(input@, 0, 0);
    }
    match crate::scrapbox::page(input, 0, ScrapboxParserContext { indent: 0 }) {
        Ok((next, page)) => {
            if next == n {
                Ok(page)
            } else {
                let line = line_of(input, next);
                Err(
                    ParseError::new(
                        ParseErrorKind::Syntax,
                        line,
                        next,
                        String::from_str("unexpected input"),
                    ),
                )
            }
        },
        Err(PFail::Internal(p)) => {
            let at = if p <= n {
                p
            } else {
                n
            };
            let line = line_of(input, at);
            Err(
                ParseError::new(
                    ParseErrorKind::Internal,
                    line,
                    p,
                    String::from_str("a sub-parse did not consume its whole slice"),
                ),
            )
        },
        Err(PFail::Mismatch) => Err(
            ParseError::new(ParseErrorKind::Syntax, 1, 0, String::from_str("no parse")),
        ),
    }
}

/// What the whole-document Markdown parse returns.
pub open spec fn markdown_parse_ok(input: Seq<char>) -> bool {
    crate::markdown::sp_page(input, 0, None) matches PRes::Found { next, .. } && next
        == input.len()
}

pub open spec fn markdown_parsed(input: Seq<char>) -> Seq<crate::ast::NodeRep> {
    match crate::markdown::sp_page(input, 0, None) {
        PRes::Found { val, .. } => val,
        _ => Seq::empty(),
    }
}

/// Parses a whole Markdown document, all-or-nothing.
pub fn parse_markdown(input: &str) -> (r: Result<Page, ParseError>)
    requires
        input@.len() < usize::MAX,
    ensures
        match r {
            Ok(page) => markdown_parse_ok(input@) && page@ == markdown_parsed(input@),
            Err(e) => !markdown_parse_ok(input@) && parse_err_ok(
                input@,
                crate::markdown::sp_page(input@, 0, None),
                e,
            ),
        },
{
    let n = input.unicode_len();
    match crate::markdown::page(input, 0, MarkdownParserContext::default()) {
        Ok((next, page)) => {
            if next == n {
                Ok(page)
            } else {
                let line = line_of(input, next);
                Err(
                    ParseError::new(
                        ParseErrorKind::Syntax,
                        line,
                        next,
                        String::from_str("unexpected input"),
                    ),
                )
            }
        },
        Err(PFail::Internal(p)) => {
            let at = if p <= n {
                p
            } else {
                n
            };
            let line = line_of(input, at);
            Err(
                ParseError::new(
                    ParseErrorKind::Internal,
                    line,
                    p,
                    String::from_str("a sub-parse did not consume its whole slice"),
                ),
            )
        },
        Err(PFail::Mismatch) => Err(
            ParseError::new(ParseErrorKind::Syntax, 1, 0, String::from_str("no parse")),
        ),
    }
}

/// Parses a Scrapbox document, maps bold levels to headings and hoists code
/// blocks out of lists, and prints the tree as Markdown with the configured
/// indent unit.
pub fn scrapbox_to_markdown(input: &str, config: &Config) -> (r: Result<String, ParseError>)
    requires
        input@.len() < usize::MAX,
        config.heading1_mapping < usize::MAX,
    ensures
        match r {
            Ok(out) => scrapbox_parse_ok(input@) && out@
                == crate::markdown_printer::md_nodes_out(
                crate::markdown_printer::sp_pass_nodes(
                    config.heading1_mapping as nat,
                    config.bold_to_heading,
                    scrapbox_parsed(input@),
                ),
                crate::markdown::sp_indent_unit(config.indent),
            ),
            Err(e) => !scrapbox_parse_ok(input@) && parse_err_ok(
                input@,
                crate::scrapbox::sp_page(input@, 0, 0),
                e,
            ),
        },
{
    match parse_scrapbox(input) {
        Err(e) => Err(e),
        Ok(mut page) => {
            let mut pass = MarkdownPass {
                h1_level: config.heading1_mapping,
                bold_to_h: config.bold_to_heading,
            };
            pass.visit(&mut page);
            let mut printer = MarkdownPrinter::new(
                MarkdownPrinterConfig { indent: config.indent.to_string() },
            );
            let out = printer.generate(&mut page);
            Ok(out)
        },
    }
}

/// Parses a Markdown document and prints the tree as Scrapbox text with the
/// printer's standard tab indent and heading mapping.
pub fn markdown_to_scrapbox(input: &str, config: &Config) -> (r: Result<String, ParseError>)
    requires
        input@.len() < usize::MAX,
    ensures
        match r {
            Ok(out) => markdown_parse_ok(input@) && out@
                == crate::scrapbox_printer::sb_nodes_out(markdown_parsed(input@), "\t"@, 4),
            Err(e) => !markdown_parse_ok(input@) && parse_err_ok(
                input@,
                crate::markdown::sp_page(input@, 0, None),
                e,
            ),
        },
{
    match parse_markdown(input) {
        Err(e) => Err(e),
        Ok(mut page) => {
            let mut printer = ScrapboxPrinter::new(ScrapboxPrinterConfig::default());
            let out = printer.generate(&mut page);
            Ok(out)
        },
    }
}

} // verus!
