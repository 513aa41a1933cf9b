//! Structural stability of printing: a page holding a heading, a hashtag,
//! an internal link, an external link or a code block, printed with its own
//! dialect's printer and re-parsed with the same dialect's grammar, is
//! reproduced exactly.  Each law names the inputs on which the dialect can
//! represent the node at all (no line break inside a heading, no closing
//! bracket inside a link title, and so on).
//!
//! The laws are stated per node kind, over the page that holds just that
//! node: these kinds are exactly the stable ones, while a page's other
//! inline content can legally merge with a neighbour when re-parsed (a text
//! run printed directly before a hashtag reads back as one longer text
//! run), so no exact equality holds of whole pages in general.
use vstd::prelude::*;

use crate::ast::KindRep;
use crate::ast::NodeRep;
use crate::error::PRes;
use crate::markdown::IndentKind;
use crate::markdown::sp_indent_unit;
use crate::markdown_printer::md_node_out;
use crate::markdown_printer::md_nodes_out;
use crate::scrapbox::nrep;
use crate::strutil::repeat_str;
use crate::utils;

verus! {

broadcast use vstd::seq::group_seq_axioms;

/// A page that holds one inline node inside one paragraph.
pub open spec fn one_para(nd: NodeRep) -> Seq<NodeRep> {
    seq![nrep(KindRep::Paragraph(seq![nd]))]
}

proof fn lemma_repeat_char(c: char, n: nat)
    ensures
        repeat_str(seq![c], n).len() == n,
        forall|k: int| 0 <= k < n ==> repeat_str(seq![c], n)[k] == c,
    decreases n,
{
    if n > 0 {
        lemma_repeat_char(c, (n - 1) as nat);
    }
}

/// No Markdown rule matches at the end of the input.
proof fn lemma_md_node_end(s: Seq<char>)
    ensures
        crate::markdown::sp_node(s, s.len() as int) is Miss,
{
}

/// At the end of the input the page production stops with nothing.
proof fn lemma_md_page_end(s: Seq<char>, lock: Option<IndentKind>)
    ensures
        crate::markdown::sp_page(s, s.len() as int, lock) == (PRes::Found {
            next: s.len() as int,
            val: Seq::<NodeRep>::empty(),
        }),
{
    let n = s.len() as int;
    lemma_md_node_end(s);
    match lock {
        Some(k) => {
            let u = sp_indent_unit(k);
            if u.len() > 0 {
                assert(!utils::sp_prefix_at(s, n, u));
            }
        },
        None => {},
    }
}

/// A single node that consumes the whole slice is the slice's whole node
/// sequence.
proof fn lemma_md_nodes_single(content: Seq<char>, nd: NodeRep)
    requires
        crate::markdown::sp_node(content, 0) == (PRes::Found {
            next: content.len() as int,
            val: nd,
        }),
        content.len() > 0,
    ensures
        crate::markdown::sp_nodes(content, 0) == (PRes::Found {
            next: content.len() as int,
            val: seq![nd],
        }),
{
    lemma_md_node_end(content);
    assert(crate::markdown::sp_nodes(content, content.len() as int) == (PRes::Found {
        next: content.len() as int,
        val: Seq::<NodeRep>::empty(),
    }));
    assert(seq![nd] + Seq::<NodeRep>::empty() =~= seq![nd]);
}

/// None of the block rules applies to a line that starts with an ordinary
/// inline character.
proof fn lemma_md_blocks_miss(s: Seq<char>, lock: Option<IndentKind>)
    requires
        s.len() >= 1,
        s[0] != '`',
        s[0] != '|',
        !utils::sp_is_md_indent(s[0]),
        !utils::sp_is_digit(s[0]),
        s[0] != '*',
        s[0] != '-',
    ensures
        crate::markdown::sp_code_block(s, 0) is Miss,
        crate::markdown::sp_table(s, 0) is Miss,
        crate::markdown::sp_list(s, 0, lock) is Miss,
{
    let n = s.len() as int;
    // the table's first row needs an opening pipe
    utils::lemma_scan_to(s, 0, '\n');
    let e = utils::sp_scan_to(s, 0, '\n');
    if e < n && 0 < e {
        assert(s[0] != '|');
    }
    // a list item can take no indentation here, and no marker follows
    utils::lemma_scan_md_indent_is(s, 0, 0);
    utils::lemma_scan_digits(s, 0);
    assert(utils::sp_scan_digits(s, 0) == 0) by {
        if utils::sp_is_digit(s[0]) {
            assert(false);
        }
    }
    match lock {
        Some(k) => {
            let u = sp_indent_unit(k);
            if u.len() > 0 {
                assert(!utils::sp_prefix_at(s, 0, u)) by {
                    if utils::sp_prefix_at(s, 0, u) {
                        assert(s.subrange(0, u.len() as int)[0] == u[0]);
                        match k {
                            IndentKind::Tab => {
                                assert(u[0] == '\t');
                            },
                            IndentKind::Space { size } => {
                                lemma_repeat_char(' ', size as nat);
                                assert(u[0] == ' ');
                            },
                        }
                    }
                }
                assert(crate::markdown::sp_item_indent(s, 0, lock) == Some(
                    (utils::sp_count_prefix(s, 0, u), lock, utils::sp_after_prefix(s, 0, u)),
                ));
                assert(utils::sp_count_prefix(s, 0, u) == 0);
                assert(utils::sp_after_prefix(s, 0, u) == 0);
            }
        },
        None => {},
    }
}

/// A page of one paragraph around one inline node whose printed form is one
/// line re-parses to exactly that page, once the inline rule is known to
/// take the whole line and no block rule applies.
proof fn lemma_md_single_inline_page(
    out: Seq<char>,
    content: Seq<char>,
    nd: NodeRep,
    lock: Option<IndentKind>,
)
    requires
        out == content + "\n"@,
        forall|k: int| 0 <= k < content.len() ==> content[k] != '\n',
        content.len() > 0,
        crate::markdown::sp_node(content, 0) == (PRes::Found {
            next: content.len() as int,
            val: nd,
        }),
        crate::markdown::sp_code_block(out, 0) is Miss,
        crate::markdown::sp_table(out, 0) is Miss,
        crate::markdown::sp_list(out, 0, lock) is Miss,
    ensures
        crate::markdown::sp_page(out, 0, lock) == (PRes::Found {
            next: out.len() as int,
            val: one_para(nd),
        }),
{
    reveal_strlit("\n");
    let n = out.len() as int;
    assert(n == content.len() + 1);
    assert(out[n - 1] == '\n');
    assert(forall|k: int| 0 <= k < n - 1 ==> out[k] == content[k]);
    utils::lemma_scan_to_is(out, 0, '\n', n - 1);
    assert(out.subrange(0, n - 1) =~= content);
    lemma_md_nodes_single(content, nd);
    assert(crate::markdown::sp_paragraph(out, 0) == (PRes::Found { next: n, val: seq![nd] }));
    lemma_md_page_end(out, lock);
    assert(seq![nrep(KindRep::Paragraph(seq![nd]))] + Seq::<NodeRep>::empty() =~= one_para(nd));
}

// ---------------------------------------------------------------------------
// Round trip: hashtag
// ---------------------------------------------------------------------------
/// Law: a hashtag whose value holds no space, full-width space or line
/// break, printed as Markdown inside its paragraph and re-parsed, is
/// reproduced exactly.
pub proof fn lemma_md_round_trip_hashtag(
    v: Seq<char>,
    ind: Seq<char>,
    lock: Option<IndentKind>,
)
    requires
        forall|k: int| 0 <= k < v.len() ==> !utils::sp_is_tag_end(v[k]),
    ensures
        ({
            let page = one_para(nrep(KindRep::HashTag(v)));
            let out = md_nodes_out(page, ind);
            crate::markdown::sp_page(out, 0, lock) == (PRes::Found {
                next: out.len() as int,
                val: page,
            })
        }),
{
    let page = one_para(nrep(KindRep::HashTag(v)));
    let out = md_nodes_out(page, ind);
    let content = "#"@ + v;
    reveal_strlit("#");
    reveal_strlit("\n");
    assert(md_node_out(nrep(KindRep::HashTag(v)), ind) == "#"@ + v);
    assert(seq![nrep(KindRep::HashTag(v))].subrange(1, 1) =~= Seq::<NodeRep>::empty());
    assert(page.subrange(1, 1) =~= Seq::<NodeRep>::empty());
    assert(md_nodes_out(Seq::<NodeRep>::empty(), ind) == Seq::<char>::empty());
    assert(md_nodes_out(seq![nrep(KindRep::HashTag(v))], ind) =~= content);
    assert(md_node_out(page[0], ind) =~= content + "\n"@);
    assert(out =~= content + "\n"@);
    let n = out.len() as int;
    assert(n == content.len() + 1);
    assert(out[0] == '#');
    assert(forall|k: int| 0 <= k < v.len() ==> out[1 + k] == v[k]);
    assert(out[n - 1] == '\n');
    // no block rule applies
    lemma_md_blocks_miss(out, lock);
    // the paragraph takes the whole line
    utils::lemma_scan_to_is(out, 0, '\n', n - 1);
    assert(out.subrange(0, n - 1) =~= content);
    // inside the line, the hashtag rule matches the whole content
    let c = content;
    let cn = c.len() as int;
    assert(c[0] == '#');
    utils::lemma_scan_run(c, 0, '#');
    let t = utils::sp_scan_run(c, 0, '#');
    assert(crate::markdown::sp_heading(c, 0) is Miss) by {
        if t < cn && t > 0 {
            assert(c[t] == v[t - 1]);
            assert(!utils::sp_is_tag_end(c[t]));
            assert(c[t] != ' ');
        }
    }
    utils::lemma_scan_tag_value_is(c, 1, cn);
    assert(crate::markdown::sp_node(c, 0) == (PRes::Found {
        next: cn,
        val: nrep(KindRep::HashTag(c.subrange(1, cn))),
    }));
    assert(c.subrange(1, cn) =~= v);
    lemma_md_nodes_single(c, nrep(KindRep::HashTag(v)));
    assert(crate::markdown::sp_paragraph(out, 0) == (PRes::Found {
        next: n,
        val: seq![nrep(KindRep::HashTag(v))],
    }));
    lemma_md_page_end(out, lock);
    assert(crate::markdown::sp_page(out, 0, lock) == (PRes::Found {
        next: n,
        val: seq![nrep(KindRep::Paragraph(seq![nrep(KindRep::HashTag(v))]))] + Seq::<
            NodeRep,
        >::empty(),
    }));
    assert(seq![nrep(KindRep::Paragraph(seq![nrep(KindRep::HashTag(v))]))] + Seq::<
        NodeRep,
    >::empty() =~= page);
}

// ---------------------------------------------------------------------------
// Round trip: internal link
// ---------------------------------------------------------------------------
/// Law: an internal link whose title holds no closing bracket and no line
/// break, printed as Markdown inside its paragraph and re-parsed, is
/// reproduced exactly.
pub proof fn lemma_md_round_trip_internal_link(
    t: Seq<char>,
    ind: Seq<char>,
    lock: Option<IndentKind>,
)
    requires
        forall|k: int| 0 <= k < t.len() ==> t[k] != ']' && t[k] != '\n',
    ensures
        ({
            let page = one_para(nrep(KindRep::InternalLink(t)));
            let out = md_nodes_out(page, ind);
            crate::markdown::sp_page(out, 0, lock) == (PRes::Found {
                next: out.len() as int,
                val: page,
            })
        }),
{
    let nd = nrep(KindRep::InternalLink(t));
    let page = one_para(nd);
    let out = md_nodes_out(page, ind);
    let content = "[["@ + t + "]]"@;
    reveal_strlit("[[");
    reveal_strlit("]]");
    reveal_strlit("\n");
    assert(md_node_out(nd, ind) == content);
    assert(seq![nd].subrange(1, 1) =~= Seq::<NodeRep>::empty());
    assert(page.subrange(1, 1) =~= Seq::<NodeRep>::empty());
    assert(md_nodes_out(Seq::<NodeRep>::empty(), ind) == Seq::<char>::empty());
    assert(md_nodes_out(seq![nd], ind) =~= content);
    assert(md_node_out(page[0], ind) =~= content + "\n"@);
    assert(out =~= content + "\n"@);
    let c = content;
    let cn = c.len() as int;
    assert(cn == t.len() + 4);
    assert(c[0] == '[');
    assert(c[1] == '[');
    assert(forall|k: int| 0 <= k < t.len() ==> c[2 + k] == t[k]);
    assert(c[cn - 2] == ']');
    assert(c[cn - 1] == ']');
    assert(forall|k: int| 0 <= k < cn ==> c[k] != '\n');
    // the earlier inline rules all miss
    utils::lemma_scan_run_is(c, 0, '#', 0);
    assert(crate::markdown::sp_heading(c, 0) is Miss);
    // the bracket rule finds the title, then no parenthesis follows
    utils::lemma_scan_to_is(c, 1, ']', cn - 2);
    assert(utils::sp_brackets(c, 0) == (PRes::Found {
        next: cn - 1,
        val: c.subrange(1, cn - 2),
    }));
    assert(c[cn - 1] != '(');
    assert(crate::markdown::sp_external_link(c, 0) is Miss);
    // the internal link rule takes the whole content
    utils::lemma_scan_to_is(c, 2, ']', cn - 2);
    assert(crate::markdown::sp_internal_link(c, 0) == (PRes::Found {
        next: cn,
        val: c.subrange(2, cn - 2),
    }));
    assert(c.subrange(2, cn - 2) =~= t);
    assert(crate::markdown::sp_node(c, 0) == (PRes::Found { next: cn, val: nd }));
    lemma_md_blocks_miss(out, lock);
    lemma_md_single_inline_page(out, c, nd, lock);
}

// ---------------------------------------------------------------------------
// Round trip: heading
// ---------------------------------------------------------------------------
/// Law: a heading of level at least one whose text holds no line break,
/// printed as Markdown inside its paragraph and re-parsed, is reproduced
/// exactly.
pub proof fn lemma_md_round_trip_heading(
    text: Seq<char>,
    level: nat,
    ind: Seq<char>,
    lock: Option<IndentKind>,
)
    requires
        level >= 1,
        forall|k: int| 0 <= k < text.len() ==> text[k] != '\n',
    ensures
        ({
            let page = one_para(nrep(KindRep::Heading(text, level)));
            let out = md_nodes_out(page, ind);
            crate::markdown::sp_page(out, 0, lock) == (PRes::Found {
                next: out.len() as int,
                val: page,
            })
        }),
{
    let nd = nrep(KindRep::Heading(text, level));
    let page = one_para(nd);
    let out = md_nodes_out(page, ind);
    let content = repeat_str("#"@, level) + " "@ + text;
    reveal_strlit("#");
    reveal_strlit(" ");
    reveal_strlit("\n");
    assert("#"@ =~= seq!['#']);
    lemma_repeat_char('#', level);
    assert(md_node_out(nd, ind) == content);
    assert(seq![nd].subrange(1, 1) =~= Seq::<NodeRep>::empty());
    assert(page.subrange(1, 1) =~= Seq::<NodeRep>::empty());
    assert(md_nodes_out(Seq::<NodeRep>::empty(), ind) == Seq::<char>::empty());
    assert(md_nodes_out(seq![nd], ind) =~= content);
    assert(md_node_out(page[0], ind) =~= content + "\n"@);
    assert(out =~= content + "\n"@);
    let c = content;
    let cn = c.len() as int;
    assert(cn == level + 1 + text.len());
    assert(forall|k: int| 0 <= k < level ==> c[k] == '#');
    assert(c[level as int] == ' ');
    assert(forall|k: int| 0 <= k < text.len() ==> c[level + 1 + k] == text[k]);
    assert(forall|k: int| 0 <= k < cn ==> c[k] != '\n');
    // the heading rule takes the whole content
    utils::lemma_scan_run_is(c, 0, '#', level as int);
    utils::lemma_scan_to_is(c, level as int + 1, '\n', cn);
    assert(crate::markdown::sp_heading(c, 0) == (PRes::Found {
        next: cn,
        val: (c.subrange(level as int + 1, cn), level),
    }));
    assert(c.subrange(level as int + 1, cn) =~= text);
    assert(crate::markdown::sp_node(c, 0) == (PRes::Found { next: cn, val: nd }));
    lemma_md_blocks_miss(out, lock);
    lemma_md_single_inline_page(out, c, nd, lock);
}

// ---------------------------------------------------------------------------
// Round trip: external link
// ---------------------------------------------------------------------------
/// Law: a titled external link whose title holds no closing bracket and no
/// line break and whose URL holds no closing parenthesis and no line break,
/// printed as Markdown inside its paragraph and re-parsed, is reproduced
/// exactly.
pub proof fn lemma_md_round_trip_external_link(
    t: Seq<char>,
    u: Seq<char>,
    ind: Seq<char>,
    lock: Option<IndentKind>,
)
    requires
        forall|k: int| 0 <= k < t.len() ==> t[k] != ']' && t[k] != '\n',
        forall|k: int| 0 <= k < u.len() ==> u[k] != ')' && u[k] != '\n',
    ensures
        ({
            let page = one_para(nrep(KindRep::ExternalLink(Some(t), u)));
            let out = md_nodes_out(page, ind);
            crate::markdown::sp_page(out, 0, lock) == (PRes::Found {
                next: out.len() as int,
                val: page,
            })
        }),
{
    let nd = nrep(KindRep::ExternalLink(Some(t), u));
    let page = one_para(nd);
    let out = md_nodes_out(page, ind);
    let content = "["@ + t + "]("@ + u + ")"@;
    reveal_strlit("[");
    reveal_strlit("](");
    reveal_strlit(")");
    reveal_strlit("\n");
    assert(md_node_out(nd, ind) == content);
    assert(seq![nd].subrange(1, 1) =~= Seq::<NodeRep>::empty());
    assert(page.subrange(1, 1) =~= Seq::<NodeRep>::empty());
    assert(md_nodes_out(Seq::<NodeRep>::empty(), ind) == Seq::<char>::empty());
    assert(md_nodes_out(seq![nd], ind) =~= content);
    assert(md_node_out(page[0], ind) =~= content + "\n"@);
    assert(out =~= content + "\n"@);
    let c = content;
    let cn = c.len() as int;
    let tl = t.len() as int;
    assert(cn == t.len() + u.len() + 4);
    assert(c[0] == '[');
    assert(forall|k: int| 0 <= k < t.len() ==> c[1 + k] == t[k]);
    assert(c[tl + 1] == ']');
    assert(c[tl + 2] == '(');
    assert(forall|k: int| 0 <= k < u.len() ==> c[tl + 3 + k] == u[k]);
    assert(c[cn - 1] == ')');
    assert(forall|k: int| 0 <= k < cn ==> c[k] != '\n');
    // heading and the emphasis family miss on the opening bracket
    utils::lemma_scan_run_is(c, 0, '#', 0);
    assert(crate::markdown::sp_heading(c, 0) is Miss);
    // the bracket rule finds the title, then the parenthesis rule the URL
    utils::lemma_scan_to_is(c, 1, ']', tl + 1);
    assert(utils::sp_brackets(c, 0) == (PRes::Found {
        next: tl + 2,
        val: c.subrange(1, tl + 1),
    }));
    assert(c.subrange(1, tl + 1) =~= t);
    utils::lemma_scan_to_is(c, tl + 3, ')', cn - 1);
    assert(utils::sp_parentheses(c, tl + 2) == (PRes::Found {
        next: cn,
        val: c.subrange(tl + 3, cn - 1),
    }));
    assert(c.subrange(tl + 3, cn - 1) =~= u);
    assert(crate::markdown::sp_external_link(c, 0) == (PRes::Found {
        next: cn,
        val: (Some(t), u),
    }));
    assert(crate::markdown::sp_node(c, 0) == (PRes::Found { next: cn, val: nd }));
    lemma_md_blocks_miss(out, lock);
    lemma_md_single_inline_page(out, c, nd, lock);
}

/// Law: a bare external link whose URL starts with a web protocol, holds
/// printable token characters only, and does not name the image-hosting
/// page that the printer special-cases, printed as Markdown inside its
/// paragraph and re-parsed, is reproduced exactly.
pub proof fn lemma_md_round_trip_bare_link(u: Seq<char>, ind: Seq<char>, lock: Option<IndentKind>)
    requires
        utils::sp_url_protocol(u, 0) is Some,
        forall|k: int| 0 <= k < u.len() ==> utils::sp_is_token(u[k]),
        !utils::sp_prefix_at(u, 0, "https://gyazo.com/"@),
    ensures
        ({
            let page = one_para(nrep(KindRep::ExternalLink(None, u)));
            let out = md_nodes_out(page, ind);
            crate::markdown::sp_page(out, 0, lock) == (PRes::Found {
                next: out.len() as int,
                val: page,
            })
        }),
{
    let nd = nrep(KindRep::ExternalLink(None, u));
    let page = one_para(nd);
    let out = md_nodes_out(page, ind);
    let c = u;
    let cn = c.len() as int;
    reveal_strlit("\n");
    assert(md_node_out(nd, ind) == u);
    assert(seq![nd].subrange(1, 1) =~= Seq::<NodeRep>::empty());
    assert(page.subrange(1, 1) =~= Seq::<NodeRep>::empty());
    assert(md_nodes_out(Seq::<NodeRep>::empty(), ind) == Seq::<char>::empty());
    assert(md_nodes_out(seq![nd], ind) =~= u);
    assert(md_node_out(page[0], ind) =~= u + "\n"@);
    assert(out =~= u + "\n"@);
    assert(c[0] == 'h');
    assert(forall|k: int| 0 <= k < cn ==> c[k] != '\n') by {
        assert forall|k: int| 0 <= k < cn implies c[k] != '\n' by {
            assert(utils::sp_is_token(c[k]));
            if c[k] == '\n' {
                assert(('\n' as u32) == 10);
            }
        }
    }
    // the rules before the plain-URL rule all miss on `h`
    utils::lemma_scan_run_is(c, 0, '#', 0);
    assert(crate::markdown::sp_heading(c, 0) is Miss);
    utils::lemma_scan_tokens_is(c, match utils::sp_url_protocol(c, 0) {
        Some(p) => p,
        None => 0,
    }, cn);
    assert(utils::sp_url(c, 0) == (PRes::Found { next: cn, val: c.subrange(0, cn) }));
    assert(c.subrange(0, cn) =~= u);
    assert(crate::markdown::sp_node(c, 0) == (PRes::Found { next: cn, val: nd }));
    lemma_md_blocks_miss(out, lock);
    lemma_md_single_inline_page(out, c, nd, lock);
}

// ---------------------------------------------------------------------------
// Round trip: code block
// ---------------------------------------------------------------------------
/// The printed fence body re-splits into exactly the lines it came from.
proof fn lemma_fence_lines_round(block: Seq<char>, k: int, lines: Seq<Seq<char>>)
    requires
        0 <= k <= block.len(),
        block.subrange(k, block.len() as int)
            == crate::markdown_printer::md_lines_out(lines),
        forall|i: int, j: int|
            0 <= i < lines.len() && 0 <= j < lines[i].len() ==> #[trigger] lines[i][j] != '\n',
    ensures
        crate::markdown::sp_fence_lines(block, k) == Some(lines),
    decreases lines.len(),
{
    reveal_strlit("\n");
    let suffix = block.subrange(k, block.len() as int);
    if lines.len() == 0 {
        assert(suffix.len() == 0);
        assert(k == block.len());
    } else {
        let l0 = lines[0];
        let rest = lines.subrange(1, lines.len() as int);
        let ln = l0.len() as int;
        assert(suffix =~= l0 + "\n"@ + crate::markdown_printer::md_lines_out(rest));
        assert forall|x: int| 0 <= x < ln implies block[k + x] == l0[x] by {
            assert(block[k + x] == suffix[x]);
            assert(suffix[x] == l0[x]);
        }
        assert(block[k + ln] == suffix[ln]);
        assert(suffix[ln] == '\n');
        assert forall|m: int| k <= m < k + ln implies block[m] != '\n' by {
            assert(block[m] == suffix[m - k]);
            assert(suffix[m - k] == l0[m - k]);
            assert(l0[m - k] == lines[0][m - k]);
        }
        utils::lemma_scan_to_is(block, k, '\n', k + ln);
        assert(block.subrange(k + ln + 1, block.len() as int) =~= suffix.subrange(
            ln + 1,
            suffix.len() as int,
        ));
        assert(suffix.subrange(ln + 1, suffix.len() as int)
            =~= crate::markdown_printer::md_lines_out(rest));
        assert(forall|i: int, j: int|
            0 <= i < rest.len() && 0 <= j < rest[i].len() ==> #[trigger] rest[i][j] != '\n')
            by {
            assert(forall|i: int|
                0 <= i < rest.len() ==> #[trigger] rest[i] == lines[i + 1]);
        }
        lemma_fence_lines_round(block, k + ln + 1, rest);
        assert(block.subrange(k, k + ln) =~= l0);
        assert(seq![block.subrange(k, k + ln)] + rest =~= lines);
    }
}

/// Law: a code block whose name and lines hold no line break and whose body
/// holds no fence delimiter, printed as Markdown as a top-level node and
/// re-parsed, is reproduced exactly.
#[verifier::rlimit(100)]
pub proof fn lemma_md_round_trip_code_block(
    f: Seq<char>,
    lines: Seq<Seq<char>>,
    ind: Seq<char>,
    lock: Option<IndentKind>,
)
    requires
        forall|k: int| 0 <= k < f.len() ==> f[k] != '\n',
        forall|i: int, j: int|
            0 <= i < lines.len() && 0 <= j < lines[i].len() ==> #[trigger] lines[i][j] != '\n',
        ({
            let block = crate::markdown_printer::md_lines_out(lines);
            forall|k: int|
                0 <= k < block.len() && k + 2 < block.len() ==> !(#[trigger] block[k] == '`'
                    && block[k + 1] == '`' && block[k + 2] == '`')
        }),
    ensures
        ({
            let page = seq![nrep(KindRep::CodeBlock(f, lines))];
            let out = md_nodes_out(page, ind);
            crate::markdown::sp_page(out, 0, lock) == (PRes::Found {
                next: out.len() as int,
                val: page,
            })
        }),
{
    let nd = nrep(KindRep::CodeBlock(f, lines));
    let page = seq![nd];
    let out = md_nodes_out(page, ind);
    let block = crate::markdown_printer::md_lines_out(lines);
    reveal_strlit("```");
    reveal_strlit("```\n");
    reveal_strlit("\n");
    assert(md_node_out(nd, ind) == "```"@ + f + "\n"@ + block + "```\n"@);
    assert(page.subrange(1, 1) =~= Seq::<NodeRep>::empty());
    assert(md_nodes_out(Seq::<NodeRep>::empty(), ind) == Seq::<char>::empty());
    assert(out =~= "```"@ + f + "\n"@ + block + "```\n"@);
    let n = out.len() as int;
    let fl = f.len() as int;
    let bl = block.len() as int;
    assert(n == fl + bl + 8);
    assert(out[0] == '`' && out[1] == '`' && out[2] == '`');
    assert(forall|k: int| 0 <= k < fl ==> out[3 + k] == f[k]);
    assert(out[3 + fl] == '\n');
    let b = 4 + fl;
    assert(forall|k: int| 0 <= k < bl ==> out[b + k] == block[k]);
    assert(out[b + bl] == '`' && out[b + bl + 1] == '`' && out[b + bl + 2] == '`');
    assert(out[b + bl + 3] == '\n');
    // the name line runs to its break
    utils::lemma_scan_to_is(out, 3, '\n', 3 + fl);
    // the body holds no line break inside a line, so the fence is found at
    // the body's end: each body line ends in a break, which interrupts any
    // candidate backtick run near the boundary
    assert(bl > 0 ==> block[bl - 1] == '\n') by {
        if lines.len() > 0 {
            lemma_lines_out_last_break(lines);
        }
    }
    assert forall|k: int|
        b <= k < b + bl && k + 2 < n implies !(#[trigger] out[k] == '`' && out[k + 1] == '`'
        && out[k + 2] == '`') by {
        let x = k - b;
        if x + 2 < bl {
            assert(out[k] == block[x]);
            assert(out[k + 1] == block[x + 1]);
            assert(out[k + 2] == block[x + 2]);
        } else if x + 2 == bl {
            assert(out[k + 1] == block[bl - 1]);
        } else if x + 1 == bl {
            assert(out[k] == block[bl - 1]);
        }
    }
    utils::lemma_scan_triple_is(out, b, '`', '`', '`', b + bl);
    assert(out.subrange(b, b + bl) =~= block);
    assert(out.subrange(b, b + bl).subrange(0, bl) =~= block);
    lemma_fence_lines_round(out.subrange(b, b + bl), 0, lines);
    assert(out.subrange(3, 3 + fl) =~= f);
    assert(crate::markdown::sp_code_block(out, 0) == (PRes::Found { next: n, val: (f, lines) }));
    lemma_md_page_end(out, lock);
    assert(seq![nd] + Seq::<NodeRep>::empty() =~= page);
}

// ---------------------------------------------------------------------------
// Round trips in the Scrapbox dialect
// ---------------------------------------------------------------------------
/// No Scrapbox rule matches right at a line break.
proof fn lemma_sb_node_at_break(s: Seq<char>, i: int, ind: int)
    requires
        0 <= i < s.len(),
        s[i] == '\n',
    ensures
        crate::scrapbox::sp_node(s, i, ind) is Miss,
{
    utils::lemma_scan_to(s, i, '#');
    utils::lemma_scan_to(s, i, '[');
    utils::lemma_scan_to(s, i, '`');
    utils::lemma_scan_pair(s, i, ' ', '#');
}

/// At the end of the input the Scrapbox page production stops with nothing.
proof fn lemma_sb_page_end(s: Seq<char>, ind: int)
    ensures
        crate::scrapbox::sp_page(s, s.len() as int, ind) == (PRes::Found {
            next: s.len() as int,
            val: Seq::<NodeRep>::empty(),
        }),
{
}

/// A Scrapbox page of one paragraph around one inline node whose printed
/// form is one line re-parses to exactly that page.
proof fn lemma_sb_single_inline_page(out: Seq<char>, nd: NodeRep)
    requires
        out.len() >= 2,
        out[out.len() - 1] == '\n',
        !utils::sp_is_sb_indent(out[0]),
        crate::scrapbox::sp_node(out, 0, 0) == (PRes::Found {
            next: out.len() - 1,
            val: nd,
        }),
    ensures
        crate::scrapbox::sp_page(out, 0, 0) == (PRes::Found {
            next: out.len() as int,
            val: one_para(nd),
        }),
{
    let n = out.len() as int;
    // no list can start here
    utils::lemma_scan_sb_indent_is(out, 0, 0);
    // the one node, then nothing more before the line break
    lemma_sb_node_at_break(out, n - 1, 0);
    assert(crate::scrapbox::sp_nodes(out, n - 1, 0) == (PRes::Found {
        next: n - 1,
        val: Seq::<NodeRep>::empty(),
    }));
    assert(crate::scrapbox::sp_nodes(out, 0, 0) == (PRes::Found {
        next: n - 1,
        val: seq![nd] + Seq::<NodeRep>::empty(),
    }));
    assert(seq![nd] + Seq::<NodeRep>::empty() =~= seq![nd]);
    assert(crate::scrapbox::sp_paragraph(out, 0, 0) == (PRes::Found { next: n, val: seq![nd] }));
    lemma_sb_page_end(out, 0);
    assert(seq![nrep(KindRep::Paragraph(seq![nd]))] + Seq::<NodeRep>::empty() =~= one_para(nd));
}

/// Law: a hashtag whose value holds no space, full-width space or line
/// break, printed as Scrapbox inside its paragraph and re-parsed with the
/// Scrapbox grammar, is reproduced exactly.
pub proof fn lemma_sb_round_trip_hashtag(v: Seq<char>, ind: Seq<char>, h1: nat)
    requires
        forall|k: int| 0 <= k < v.len() ==> !utils::sp_is_tag_end(v[k]),
    ensures
        ({
            let page = one_para(nrep(KindRep::HashTag(v)));
            let out = crate::scrapbox_printer::sb_nodes_out(page, ind, h1);
            crate::scrapbox::sp_page(out, 0, 0) == (PRes::Found {
                next: out.len() as int,
                val: page,
            })
        }),
{
    let page = one_para(nrep(KindRep::HashTag(v)));
    let out = crate::scrapbox_printer::sb_nodes_out(page, ind, h1);
    reveal_strlit("#");
    reveal_strlit("\n");
    assert(seq![nrep(KindRep::HashTag(v))].subrange(1, 1) =~= Seq::<NodeRep>::empty());
    assert(page.subrange(1, 1) =~= Seq::<NodeRep>::empty());
    assert(crate::scrapbox_printer::sb_nodes_out(Seq::<NodeRep>::empty(), ind, h1) == Seq::<
        char,
    >::empty());
    assert(crate::scrapbox_printer::sb_node_out(nrep(KindRep::HashTag(v)), ind, h1) == "#"@
        + v);
    assert(crate::scrapbox_printer::sb_nodes_out(seq![nrep(KindRep::HashTag(v))], ind, h1)
        =~= "#"@ + v);
    assert(crate::scrapbox_printer::sb_node_out(page[0], ind, h1) =~= ("#"@ + v) + "\n"@);
    assert(out =~= ("#"@ + v) + "\n"@);
    let n = out.len() as int;
    assert(out[0] == '#');
    assert(forall|k: int| 0 <= k < v.len() ==> out[1 + k] == v[k]);
    assert(out[n - 1] == '\n');
    utils::lemma_scan_tag_value_is(out, 1, n - 1);
    assert(crate::scrapbox::sp_node(out, 0, 0) == (PRes::Found {
        next: n - 1,
        val: nrep(KindRep::HashTag(out.subrange(1, n - 1))),
    }));
    assert(out.subrange(1, n - 1) =~= v);
    lemma_sb_single_inline_page(out, nrep(KindRep::HashTag(v)));
}

/// Law: an internal link whose title holds no closing bracket and no line
/// break, does not open like another bracket construct (a second bracket, a
/// decoration prefix, a math or other-project marker) and is no link body,
/// printed as Scrapbox inside its paragraph and re-parsed with the Scrapbox
/// grammar, is reproduced exactly.
pub proof fn lemma_sb_round_trip_internal_link(t: Seq<char>, ind: Seq<char>, h1: nat)
    requires
        t.len() > 0,
        forall|k: int| 0 <= k < t.len() ==> t[k] != ']' && t[k] != '\n',
        t[0] != '[',
        t[0] != '$',
        t[0] != '/',
        !(utils::sp_scan_marks(t, 0) < t.len() && t[utils::sp_scan_marks(t, 0)] == ' '),
        crate::scrapbox::sp_url_title(t) is None,
        crate::scrapbox::sp_title_url(t) is Miss,
    ensures
        ({
            let page = one_para(nrep(KindRep::InternalLink(t)));
            let out = crate::scrapbox_printer::sb_nodes_out(page, ind, h1);
            crate::scrapbox::sp_page(out, 0, 0) == (PRes::Found {
                next: out.len() as int,
                val: page,
            })
        }),
{
    let nd = nrep(KindRep::InternalLink(t));
    let page = one_para(nd);
    let out = crate::scrapbox_printer::sb_nodes_out(page, ind, h1);
    reveal_strlit("[");
    reveal_strlit("]");
    reveal_strlit("\n");
    assert(seq![nd].subrange(1, 1) =~= Seq::<NodeRep>::empty());
    assert(page.subrange(1, 1) =~= Seq::<NodeRep>::empty());
    assert(crate::scrapbox_printer::sb_nodes_out(Seq::<NodeRep>::empty(), ind, h1) == Seq::<
        char,
    >::empty());
    assert(crate::scrapbox_printer::sb_node_out(nd, ind, h1) == "["@ + t + "]"@);
    assert(crate::scrapbox_printer::sb_nodes_out(seq![nd], ind, h1) =~= "["@ + t + "]"@);
    assert(crate::scrapbox_printer::sb_node_out(page[0], ind, h1) =~= ("["@ + t + "]"@)
        + "\n"@);
    assert(out =~= ("["@ + t + "]"@) + "\n"@);
    let n = out.len() as int;
    let tl = t.len() as int;
    assert(n == tl + 3);
    assert(out[0] == '[');
    assert(forall|k: int| 0 <= k < tl ==> out[1 + k] == t[k]);
    assert(out[tl + 1] == ']');
    assert(out[n - 1] == '\n');
    // the bracket content is the title
    utils::lemma_scan_to_is(out, 1, ']', tl + 1);
    assert(utils::sp_brackets(out, 0) == (PRes::Found { next: tl + 2, val: out.subrange(1, tl + 1) }));
    assert(out.subrange(1, tl + 1) =~= t);
    // no bracket construct of higher priority applies to this content
    utils::lemma_scan_marks(t, 0);
    assert(crate::scrapbox::sp_emphasis(out, 0) is Miss);
    assert(out[1] == t[0]);
    assert(crate::scrapbox::sp_bold(out, 0) is Miss);
    assert(crate::scrapbox::sp_external_link_or_image(out, 0) is Miss);
    assert(crate::scrapbox::sp_math(out, 0) is Miss);
    assert(crate::scrapbox::sp_external_link_other_project(out, 0) is Miss);
    assert(crate::scrapbox::sp_node(out, 0, 0) == (PRes::Found { next: tl + 2, val: nd }));
    lemma_sb_single_inline_page(out, nd);
}

/// Law: a bare external link whose URL starts with a web protocol, holds
/// printable token characters only and no closing bracket, and does not
/// name an image file, printed as Scrapbox inside its paragraph and
/// re-parsed with the Scrapbox grammar, is reproduced exactly.
pub proof fn lemma_sb_round_trip_bare_link(u: Seq<char>, ind: Seq<char>, h1: nat)
    requires
        utils::sp_url_protocol(u, 0) is Some,
        forall|k: int| 0 <= k < u.len() ==> utils::sp_is_token(u[k]),
        forall|k: int| 0 <= k < u.len() ==> u[k] != ']',
        !utils::sp_is_image_url(u),
    ensures
        ({
            let page = one_para(nrep(KindRep::ExternalLink(None, u)));
            let out = crate::scrapbox_printer::sb_nodes_out(page, ind, h1);
            crate::scrapbox::sp_page(out, 0, 0) == (PRes::Found {
                next: out.len() as int,
                val: page,
            })
        }),
{
    let nd = nrep(KindRep::ExternalLink(None, u));
    let page = one_para(nd);
    let out = crate::scrapbox_printer::sb_nodes_out(page, ind, h1);
    reveal_strlit("[");
    reveal_strlit("]");
    reveal_strlit("\n");
    assert(seq![nd].subrange(1, 1) =~= Seq::<NodeRep>::empty());
    assert(page.subrange(1, 1) =~= Seq::<NodeRep>::empty());
    assert(crate::scrapbox_printer::sb_nodes_out(Seq::<NodeRep>::empty(), ind, h1) == Seq::<
        char,
    >::empty());
    assert(crate::scrapbox_printer::sb_node_out(nd, ind, h1) == "["@ + u + "]"@);
    assert(crate::scrapbox_printer::sb_nodes_out(seq![nd], ind, h1) =~= "["@ + u + "]"@);
    assert(crate::scrapbox_printer::sb_node_out(page[0], ind, h1) =~= ("["@ + u + "]"@)
        + "\n"@);
    assert(out =~= ("["@ + u + "]"@) + "\n"@);
    let n = out.len() as int;
    let ul = u.len() as int;
    assert(n == ul + 3);
    assert(out[0] == '[');
    assert(forall|k: int| 0 <= k < ul ==> out[1 + k] == u[k]);
    assert(out[ul + 1] == ']');
    assert(out[n - 1] == '\n');
    // the bracket content is the URL itself
    utils::lemma_scan_to_is(out, 1, ']', ul + 1);
    assert(utils::sp_brackets(out, 0) == (PRes::Found {
        next: ul + 2,
        val: out.subrange(1, ul + 1),
    }));
    assert(out.subrange(1, ul + 1) =~= u);
    assert(u[0] == 'h');
    // not a decoration, not a double bracket
    utils::lemma_scan_marks(u, 0);
    assert(utils::sp_scan_marks(u, 0) == 0);
    assert(crate::scrapbox::sp_emphasis(out, 0) is Miss);
    assert(out[1] == 'h');
    assert(crate::scrapbox::sp_bold(out, 0) is Miss);
    // the link body is the whole URL with no title
    utils::lemma_scan_tokens_is(u, match utils::sp_url_protocol(u, 0) {
        Some(p) => p,
        None => 0,
    }, ul);
    assert(utils::sp_url(u, 0) == (PRes::Found { next: ul, val: u.subrange(0, ul) }));
    assert(u.subrange(0, ul) =~= u);
    assert(crate::scrapbox::sp_url_title(u) == Some((Option::<Seq<char>>::None, u)));
    assert(crate::scrapbox::sp_external_link_or_image(out, 0) == (PRes::Found {
        next: ul + 2,
        val: nd,
    }));
    assert(crate::scrapbox::sp_node(out, 0, 0) == (PRes::Found { next: ul + 2, val: nd }));
    lemma_sb_single_inline_page(out, nd);
}

/// The bracket content `title`, a space, `url` reads back as a
/// title-then-URL link body: it is no URL-first body, and the part before
/// the last space is the title.
#[verifier::rlimit(60)]
proof fn lemma_sb_titled_link_body(t: Seq<char>, u: Seq<char>)
    requires
        t.len() > 0,
        utils::sp_scan_spaces(t, 0) < t.len(),
        utils::sp_url_protocol(t, utils::sp_scan_spaces(t, 0)) is None,
        utils::sp_url_protocol(u, 0) is Some,
        forall|k: int| 0 <= k < u.len() ==> utils::sp_is_token(u[k]),
    ensures
        crate::scrapbox::sp_url_title(t + " "@ + u) is None,
        crate::scrapbox::sp_title_url(t + " "@ + u) == (PRes::Found {
            next: (t + " "@ + u).len() as int,
            val: (Some(t), u),
        }),
{
    reveal_strlit(" ");
    let c = t + " "@ + u;
    let tl = t.len() as int;
    let ul = u.len() as int;
    assert(c.len() == tl + 1 + ul);
    assert(forall|k: int| 0 <= k < tl ==> c[k] == t[k]);
    assert(c[tl] == ' ');
    assert(forall|k: int| 0 <= k < ul ==> c[tl + 1 + k] == u[k]);
    // a URL token is printable ASCII, hence never a space
    assert forall|k: int| 0 <= k < ul implies !utils::sp_is_space(u[k]) by {
        assert(utils::sp_is_token(u[k]));
        if u[k] == ' ' {
            assert((' ' as u32) == 32);
        }
        if u[k] == '\u{3000}' {
            assert(('\u{3000}' as u32) == 12288);
        }
    }
    // no URL-first reading: after the title's leading spaces stands a
    // non-space character that opens no protocol
    let a0 = utils::sp_scan_spaces(t, 0);
    utils::lemma_scan_spaces(t, 0);
    assert forall|k: int| 0 <= k < a0 implies utils::sp_is_space(c[k]) by {
        assert(c[k] == t[k]);
    }
    assert(c[a0] == t[a0]);
    utils::lemma_scan_spaces_is(c, 0, a0);
    assert(utils::sp_url_protocol(c, a0) is None) by {
        if utils::sp_url_protocol(c, a0) is Some {
            // a protocol fitting before the separator would stand in the
            // title, against the premise; one crossing it would put a
            // protocol character on the separating space
            if a0 + 8 <= tl && c[a0 + 4] == 's' {
                assert(forall|o: int| 0 <= o < 8 ==> #[trigger] c[a0 + o] == t[a0 + o]);
                assert(utils::sp_url_protocol(t, a0) is Some);
            } else if a0 + 7 <= tl {
                assert(forall|o: int| 0 <= o < 7 ==> #[trigger] c[a0 + o] == t[a0 + o]);
                assert(utils::sp_url_protocol(t, a0) is Some);
            } else {
                assert(a0 <= tl < a0 + 7 || (c[a0 + 4] == 's' && a0 <= tl < a0 + 8));
                assert(c[tl] == ' ');
                assert(false);
            }
        }
    }
    assert(crate::scrapbox::sp_url_title(c) is None);
    // the last space of the content is the separator, and the URL behind
    // it consumes the rest
    crate::scrapbox::lemma_last_space(c);
    assert(crate::scrapbox::sp_last_space(c) == tl) by {
        let r = crate::scrapbox::sp_last_space(c);
        assert(utils::sp_is_space(c[tl as int]));
        if r > tl {
            assert(utils::sp_is_space(c[r]));
            assert(c[r] == u[r - tl - 1]);
        }
    }
    assert(c[tl + 1] == u[0]);
    assert(u[0] == 'h');
    utils::lemma_scan_spaces_is(c, tl, tl + 1);
    assert(utils::sp_url_protocol(c, tl + 1) is Some) by {
        if u.len() >= 8 && u[4] == 's' {
            assert(forall|o: int| 0 <= o < 8 ==> #[trigger] c[tl + 1 + o] == u[o]);
        } else {
            assert(forall|o: int| 0 <= o < 7 ==> #[trigger] c[tl + 1 + o] == u[o]);
        }
    }
    let p = match utils::sp_url_protocol(c, tl + 1) {
        Some(p) => p,
        None => 0,
    };
    assert forall|k: int| p <= k < c.len() implies utils::sp_is_token(c[k]) by {
        assert(c[k] == u[k - tl - 1]);
    }
    utils::lemma_scan_tokens_is(c, p, c.len() as int);
    assert(utils::sp_url(c, tl + 1) == (PRes::Found {
        next: c.len() as int,
        val: c.subrange(tl + 1, c.len() as int),
    }));
    assert(c.subrange(tl + 1, c.len() as int) =~= u);
    assert(c.subrange(0, tl) =~= t);
}

/// Law: a titled external link, printed as Scrapbox inside its paragraph
/// and re-parsed with the Scrapbox grammar, is reproduced exactly — for a
/// title that holds no closing bracket and no line break, does not open
/// like another bracket construct, is not made of spaces or of decoration
/// markers alone, and does not itself begin with a URL, and for a URL of
/// printable ASCII tokens behind a web protocol, free of closing brackets,
/// where neither side names an image file.
#[verifier::rlimit(100)]
pub proof fn lemma_sb_round_trip_titled_link(
    t: Seq<char>,
    u: Seq<char>,
    ind: Seq<char>,
    h1: nat,
)
    requires
        t.len() > 0,
        forall|k: int| 0 <= k < t.len() ==> t[k] != ']' && t[k] != '\n',
        t[0] != '[',
        t[0] != '$',
        t[0] != '/',
        utils::sp_scan_marks(t, 0) < t.len(),
        t[utils::sp_scan_marks(t, 0)] != ' ',
        utils::sp_scan_spaces(t, 0) < t.len(),
        utils::sp_url_protocol(t, utils::sp_scan_spaces(t, 0)) is None,
        utils::sp_url_protocol(u, 0) is Some,
        forall|k: int| 0 <= k < u.len() ==> utils::sp_is_token(u[k]),
        forall|k: int| 0 <= k < u.len() ==> u[k] != ']',
        !utils::sp_is_image_url(u),
        !utils::sp_is_image_url(t),
    ensures
        ({
            let page = one_para(nrep(KindRep::ExternalLink(Some(t), u)));
            let out = crate::scrapbox_printer::sb_nodes_out(page, ind, h1);
            crate::scrapbox::sp_page(out, 0, 0) == (PRes::Found {
                next: out.len() as int,
                val: page,
            })
        }),
{
    let nd = nrep(KindRep::ExternalLink(Some(t), u));
    let page = one_para(nd);
    let out = crate::scrapbox_printer::sb_nodes_out(page, ind, h1);
    reveal_strlit("[");
    reveal_strlit(" ");
    reveal_strlit("]");
    reveal_strlit("\n");
    assert(seq![nd].subrange(1, 1) =~= Seq::<NodeRep>::empty());
    assert(page.subrange(1, 1) =~= Seq::<NodeRep>::empty());
    assert(crate::scrapbox_printer::sb_nodes_out(Seq::<NodeRep>::empty(), ind, h1) == Seq::<
        char,
    >::empty());
    assert(crate::scrapbox_printer::sb_node_out(nd, ind, h1) == "["@ + t + " "@ + u + "]"@);
    assert(crate::scrapbox_printer::sb_nodes_out(seq![nd], ind, h1) =~= "["@ + t + " "@ + u
        + "]"@);
    assert(crate::scrapbox_printer::sb_node_out(page[0], ind, h1) =~= ("["@ + t + " "@ + u
        + "]"@) + "\n"@);
    assert(out =~= ("["@ + t + " "@ + u + "]"@) + "\n"@);
    let n = out.len() as int;
    let tl = t.len() as int;
    let ul = u.len() as int;
    assert(n == tl + ul + 4);
    assert(out[0] == '[');
    assert(forall|k: int| 0 <= k < tl ==> out[1 + k] == t[k]);
    assert(out[tl + 1] == ' ');
    assert(forall|k: int| 0 <= k < ul ==> out[tl + 2 + k] == u[k]);
    assert(out[n - 2] == ']');
    assert(out[n - 1] == '\n');
    // a URL token is printable ASCII, so never a line break
    assert forall|k: int| 0 <= k < ul implies u[k] != '\n' by {
        assert(utils::sp_is_token(u[k]));
        if u[k] == '\n' {
            assert(('\n' as u32) == 10);
        }
    }
    // the bracket content is the title, the separating space and the URL
    assert forall|k: int| 1 <= k < n - 2 implies out[k] != ']' by {
        if k <= tl {
            assert(out[k] == t[k - 1]);
        } else if k >= tl + 2 {
            assert(out[k] == u[k - tl - 2]);
        }
    }
    utils::lemma_scan_to_is(out, 1, ']', n - 2);
    let c = t + " "@ + u;
    assert(utils::sp_brackets(out, 0) == (PRes::Found {
        next: n - 1,
        val: out.subrange(1, n - 2),
    }));
    assert(out.subrange(1, n - 2) =~= c);
    assert(c.len() == tl + 1 + ul);
    assert(forall|k: int| 0 <= k < tl ==> c[k] == t[k]);
    assert(c[tl] == ' ');
    // not a decoration bracket: the title's marker run ends on a non-space
    let m = utils::sp_scan_marks(t, 0);
    utils::lemma_scan_marks(t, 0);
    assert forall|k: int| 0 <= k < m implies utils::sp_is_mark(c[k]) by {
        assert(c[k] == t[k]);
    }
    assert(c[m] == t[m]);
    utils::lemma_scan_marks_is(c, 0, m);
    assert(crate::scrapbox::sp_emphasis(out, 0) is Miss);
    // not a double bracket
    assert(out[1] == t[0]);
    assert(crate::scrapbox::sp_bold(out, 0) is Miss);
    // the content reads back as title, then URL
    lemma_sb_titled_link_body(t, u);
    assert(crate::scrapbox::sp_external_link_or_image(out, 0) == (PRes::Found {
        next: n - 1,
        val: nd,
    }));
    assert(crate::scrapbox::sp_node(out, 0, 0) == (PRes::Found { next: n - 1, val: nd }));
    assert(!utils::sp_is_sb_indent(out[0]));
    lemma_sb_single_inline_page(out, nd);
}

/// The printed code lines re-split into exactly the lines they came from:
/// each sits behind its one-space prefix and runs to its line break, and
/// the paragraph's final break ends the block.
proof fn lemma_sb_code_lines_round(s: Seq<char>, i: int, lines: Seq<Seq<char>>)
    requires
        0 <= i,
        i + 1 <= s.len(),
        s.subrange(i, s.len() as int) == crate::scrapbox_printer::sb_lines_out(lines) + "\n"@,
        forall|x: int, j: int|
            0 <= x < lines.len() && 0 <= j < lines[x].len() ==> #[trigger] lines[x][j] != '\n',
    ensures
        crate::scrapbox::sp_code_lines(s, i, 1) == ((i + crate::scrapbox_printer::sb_lines_out(
            lines,
        ).len()) as int, lines),
    decreases lines.len(),
{
    reveal_strlit(" ");
    reveal_strlit("\n");
    let suffix = s.subrange(i, s.len() as int);
    if lines.len() == 0 {
        assert(crate::scrapbox_printer::sb_lines_out(lines) == Seq::<char>::empty());
        assert(suffix =~= "\n"@);
        assert(s[i] == suffix[0]);
        assert(s[i] == '\n');
        assert(!utils::sp_spaces_at(s, i, 1)) by {
            if utils::sp_spaces_at(s, i, 1) {
                assert(s[i] == ' ');
            }
        }
        assert(crate::scrapbox::sp_code_lines(s, i, 1) == (i, Seq::<Seq<char>>::empty()));
        assert(lines =~= Seq::<Seq<char>>::empty());
    } else {
        let l0 = lines[0];
        let rest = lines.subrange(1, lines.len() as int);
        let ln = l0.len() as int;
        assert(suffix =~= " "@ + l0 + "\n"@ + crate::scrapbox_printer::sb_lines_out(rest)
            + "\n"@);
        assert(s[i] == suffix[0]);
        assert(s[i] == ' ');
        assert(utils::sp_spaces_at(s, i, 1));
        assert forall|m: int| i + 1 <= m < i + 1 + ln implies s[m] != '\n' by {
            assert(s[m] == suffix[m - i]);
            assert(suffix[m - i] == l0[m - i - 1]);
            assert(l0[m - i - 1] == lines[0][m - i - 1]);
        }
        assert(s[i + 1 + ln] == suffix[1 + ln]);
        assert(s[i + 1 + ln] == '\n');
        utils::lemma_scan_to_is(s, i + 1, '\n', i + 1 + ln);
        assert(s.subrange(i + 1 + ln + 1, s.len() as int) =~= suffix.subrange(
            ln + 2,
            suffix.len() as int,
        ));
        assert(suffix.subrange(ln + 2, suffix.len() as int)
            =~= crate::scrapbox_printer::sb_lines_out(rest) + "\n"@);
        assert(forall|x: int, j: int|
            0 <= x < rest.len() && 0 <= j < rest[x].len() ==> #[trigger] rest[x][j] != '\n')
            by {
            assert(forall|x: int| 0 <= x < rest.len() ==> #[trigger] rest[x] == lines[x + 1]);
        }
        lemma_sb_code_lines_round(s, i + 1 + ln + 1, rest);
        assert forall|x: int| 0 <= x < ln implies s.subrange(i + 1, i + 1 + ln)[x]
            == l0[x] by {
            assert(s[i + 1 + x] == suffix[x + 1]);
            assert(suffix[x + 1] == l0[x]);
        }
        assert(s.subrange(i + 1, i + 1 + ln) =~= l0);
        assert(seq![s.subrange(i + 1, i + 1 + ln)] + rest =~= lines);
    }
}

/// Law: a code block whose name and lines hold no line break, printed as
/// Scrapbox inside its paragraph and re-parsed with the Scrapbox grammar,
/// is reproduced exactly.
#[verifier::rlimit(100)]
pub proof fn lemma_sb_round_trip_code_block(
    f: Seq<char>,
    lines: Seq<Seq<char>>,
    ind: Seq<char>,
    h1: nat,
)
    requires
        forall|k: int| 0 <= k < f.len() ==> f[k] != '\n',
        forall|x: int, j: int|
            0 <= x < lines.len() && 0 <= j < lines[x].len() ==> #[trigger] lines[x][j] != '\n',
    ensures
        ({
            let page = one_para(nrep(KindRep::CodeBlock(f, lines)));
            let out = crate::scrapbox_printer::sb_nodes_out(page, ind, h1);
            crate::scrapbox::sp_page(out, 0, 0) == (PRes::Found {
                next: out.len() as int,
                val: page,
            })
        }),
{
    let nd = nrep(KindRep::CodeBlock(f, lines));
    let page = one_para(nd);
    let out = crate::scrapbox_printer::sb_nodes_out(page, ind, h1);
    let body = crate::scrapbox_printer::sb_lines_out(lines);
    reveal_strlit("code:");
    reveal_strlit("\n");
    assert(seq![nd].subrange(1, 1) =~= Seq::<NodeRep>::empty());
    assert(page.subrange(1, 1) =~= Seq::<NodeRep>::empty());
    assert(crate::scrapbox_printer::sb_nodes_out(Seq::<NodeRep>::empty(), ind, h1) == Seq::<
        char,
    >::empty());
    assert(crate::scrapbox_printer::sb_node_out(nd, ind, h1) == "code:"@ + f + "\n"@ + body);
    assert(crate::scrapbox_printer::sb_nodes_out(seq![nd], ind, h1) =~= "code:"@ + f + "\n"@
        + body);
    assert(crate::scrapbox_printer::sb_node_out(page[0], ind, h1) =~= ("code:"@ + f + "\n"@
        + body) + "\n"@);
    assert(out =~= ("code:"@ + f + "\n"@ + body) + "\n"@);
    let n = out.len() as int;
    let fl = f.len() as int;
    assert(n == fl + body.len() + 7);
    assert(out[0] == 'c' && out[1] == 'o' && out[2] == 'd' && out[3] == 'e' && out[4] == ':');
    assert(forall|k: int| 0 <= k < fl ==> out[5 + k] == f[k]);
    assert(out[5 + fl] == '\n');
    utils::lemma_scan_to_is(out, 5, '\n', 5 + fl);
    assert(out.subrange(5, 5 + fl) =~= f);
    let b = 6 + fl;
    assert(out.subrange(b, n) =~= body + "\n"@);
    lemma_sb_code_lines_round(out, b, lines);
    assert(crate::scrapbox::sp_code_block(out, 0, 0) == (PRes::Found {
        next: n - 1,
        val: (f, lines),
    }));
    assert(crate::scrapbox::sp_node(out, 0, 0) == (PRes::Found { next: n - 1, val: nd }));
    assert(out[n - 1] == '\n');
    assert(!utils::sp_is_sb_indent(out[0]));
    lemma_sb_single_inline_page(out, nd);
}

/// A non-empty printed body ends with a line break.
proof fn lemma_lines_out_last_break(lines: Seq<Seq<char>>)
    requires
        lines.len() > 0,
    ensures
        crate::markdown_printer::md_lines_out(lines).len() > 0,
        crate::markdown_printer::md_lines_out(lines).last() == '\n',
    decreases lines.len(),
{
    reveal_strlit("\n");
    let rest = lines.subrange(1, lines.len() as int);
    if rest.len() == 0 {
        assert(crate::markdown_printer::md_lines_out(rest) == Seq::<char>::empty());
    } else {
        lemma_lines_out_last_break(rest);
    }
}

} // verus!
