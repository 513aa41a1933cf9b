//! The Scrapbox printer: serializes a page in the Scrapbox dialect, with
//! indent repetition by level, decimal list numbering that resets at every
//! non-decimal item, tab-separated table rows, and bracket-based inline
//! markup.
use vstd::prelude::*;

use crate::ast::BlockQuate;
use crate::ast::CodeBlock;
use crate::ast::Emphasis;
use crate::ast::ExternalLink;
use crate::ast::HashTag;
use crate::ast::Heading;
use crate::ast::Image;
use crate::ast::InternalLink;
use crate::ast::ItemRep;
use crate::ast::KindRep;
use crate::ast::List;
use crate::ast::Math;
use crate::ast::Node;
use crate::ast::NodeKind;
use crate::ast::NodeRep;
use crate::ast::Page;
use crate::ast::Paragraph;
use crate::ast::Table;
use crate::ast::Text;
use crate::ast::item_rep;
use crate::ast::lemma_items_rep;
use crate::ast::lemma_nodes_rep;
use crate::ast::node_rep;
use crate::strutil;

verus! {

broadcast use vstd::seq::group_seq_axioms, vstd::std_specs::vec::group_vec_axioms;

/// The opening bracket, the decoration markers, a space, the text, and the
/// closing bracket.
pub open spec fn sb_emphasis_out(t: Seq<char>, b: nat, it: nat, st: nat) -> Seq<char> {
    "["@ + (if b > 0 {
        "*"@
    } else {
        Seq::empty()
    }) + (if it > 0 {
        "/"@
    } else {
        Seq::empty()
    }) + (if st > 0 {
        "-"@
    } else {
        Seq::empty()
    }) + " "@ + t + "]"@
}

/// A heading maps back to a bold bracket: level 1 gets `h1_mapping` stars,
/// deeper levels fewer, never fewer than one.
pub open spec fn sb_heading_out(t: Seq<char>, level: nat, h1: nat) -> Seq<char> {
    let stars: nat = if h1 + 1 > level {
        (h1 - level + 1) as nat
    } else {
        1
    };
    "["@ + strutil::repeat_str("*"@, stars) + " "@ + t + "]\n"@
}

/// The code lines, each behind one leading space.
pub open spec fn sb_lines_out(lines: Seq<Seq<char>>) -> Seq<char>
    decreases lines.len(),
{
    if lines.len() == 0 {
        Seq::empty()
    } else {
        " "@ + lines[0] + "\n"@ + sb_lines_out(lines.subrange(1, lines.len() as int))
    }
}

/// One table row line: a leading space, then the cells joined by tabs.
pub open spec fn sb_row_out(cells: Seq<Seq<char>>) -> Seq<char> {
    " "@ + strutil::join_strs(cells, "\t"@) + "\n"@
}

/// The data rows from `k` on; an empty row ends the output.
pub open spec fn sb_rows_from(rows: Seq<Seq<Seq<char>>>, k: int) -> Seq<char>
    decreases rows.len() - k when 0 <= k <= rows.len()
{
    if k >= rows.len() {
        Seq::empty()
    } else if rows[k].len() == 0 {
        Seq::empty()
    } else {
        sb_row_out(rows[k]) + sb_rows_from(rows, k + 1)
    }
}

/// A table with an empty header prints nothing; otherwise its name line,
/// the header row, and the data rows up to the first empty one.
pub open spec fn sb_table_out(name: Seq<char>, header: Seq<Seq<char>>, rows: Seq<Seq<Seq<char>>>) -> Seq<char> {
    if header.len() == 0 {
        Seq::empty()
    } else {
        "table:"@ + name + "\n"@ + sb_row_out(header) + sb_rows_from(rows, 0)
    }
}

/// The Scrapbox text of one node.
pub open spec fn sb_node_out(n: NodeRep, ind: Seq<char>, h1: nat) -> Seq<char>
    decreases n,
{
    match n.kind {
        KindRep::Paragraph(ch) => sb_nodes_out(ch, ind, h1) + "\n"@,
        KindRep::List(items) => sb_items_out(items, 1, ind, h1),
        KindRep::HashTag(v) => "#"@ + v,
        KindRep::InternalLink(t) => "["@ + t + "]"@,
        KindRep::ExternalLink(t, u) => match t {
            Some(title) => "["@ + title + " "@ + u + "]"@,
            None => "["@ + u + "]"@,
        },
        KindRep::Emphasis(t, b, it, st) => sb_emphasis_out(t, b, it, st),
        KindRep::Heading(t, level) => sb_heading_out(t, level, h1),
        KindRep::BlockQuate(v) => "`"@ + v + "`"@,
        KindRep::CodeBlock(f, lines) => "code:"@ + f + "\n"@ + sb_lines_out(lines),
        KindRep::Table(name, header, rows) => sb_table_out(name, header, rows),
        KindRep::Image(u) => "["@ + u + "]"@,
        KindRep::Math(v) => "[$"@ + v + "]"@,
        KindRep::Text(v) => v,
        KindRep::Nop => Seq::empty(),
    }
}

/// The Scrapbox text of a node sequence.
pub open spec fn sb_nodes_out(v: Seq<NodeRep>, ind: Seq<char>, h1: nat) -> Seq<char>
    decreases v,
{
    if v.len() == 0 {
        Seq::empty()
    } else {
        sb_node_out(v[0], ind, h1) + sb_nodes_out(v.subrange(1, v.len() as int), ind, h1)
    }
}

/// The items of a list, with the running number of the current decimal run:
/// a decimal item prints its number and advances it, any other item resets
/// it to one.
pub open spec fn sb_items_out(items: Seq<ItemRep>, number: nat, ind: Seq<char>, h1: nat) -> Seq<
    char,
>
    decreases items,
{
    if items.len() == 0 {
        Seq::empty()
    } else {
        let it = items[0];
        let head = match it.kind {
            crate::ast::ListKind::Disc => strutil::repeat_str(ind, (it.level + 1) as nat),
            crate::ast::ListKind::Decimal => strutil::repeat_str(ind, (it.level + 1) as nat)
                + strutil::dec_str(number) + ". "@,
            crate::ast::ListKind::Alphabet => Seq::<char>::empty(),
        };
        let next_number: nat = if it.kind is Decimal {
            number + 1
        } else {
            1
        };
        head + sb_nodes_out(it.children, ind, h1) + "\n"@ + sb_items_out(
            items.subrange(1, items.len() as int),
            next_number,
            ind,
            h1,
        )
    }
}

pub struct ScrapboxPrinterConfig {
    /// The indent unit emitted per list level.
    pub indent: String,
    /// Which heading level maps back to the highest bold level.
    pub h1_mapping: usize,
}

impl Default for ScrapboxPrinterConfig {
    fn default() -> (r: Self)
        ensures
            r.indent@ == "\t"@,
            r.h1_mapping == 4,
    {
        Self { indent: String::from_str("\t"), h1_mapping: 4 }
    }
}

/// Serializes a page as Scrapbox text into an output buffer.
pub struct ScrapboxPrinter {
    pub document: String,
    pub config: ScrapboxPrinterConfig,
}

impl ScrapboxPrinter {
    pub fn new(config: ScrapboxPrinterConfig) -> (r: Self)
        ensures
            r.document@ == Seq::<char>::empty(),
            r.config.indent@ == config.indent@,
            r.config.h1_mapping == config.h1_mapping,
    {
        Self { document: String::new(), config }
    }

    /// Prints the whole page and returns the accumulated document.
    pub fn generate(&mut self, page: &mut Page) -> (r: String)
        requires
            old(self).config.h1_mapping < usize::MAX,
        ensures
            r@ == old(self).document@ + sb_nodes_out(
                old(page)@,
                old(self).config.indent@,
                old(self).config.h1_mapping as nat,
            ),
            final(self).document@ == r@,
            final(self).config == old(self).config,
            final(page)@ == old(page)@,
    {
        let ghost rep = crate::ast::nodes_rep(page.nodes@);
        let ghost ind = old(self).config.indent@;
        let ghost h1 = old(self).config.h1_mapping as nat;
        proof {
            lemma_nodes_rep(page.nodes@);
            assert(rep.subrange(0, rep.len() as int) =~= rep);
        }
        let n = page.nodes.len();
        let mut k: usize = 0;
        while k < n
            invariant
                k <= n,
                n == page.nodes@.len(),
                rep == crate::ast::nodes_rep(page.nodes@),
                rep.len() == n,
                forall|i: int| 0 <= i < n ==> rep[i] == node_rep(page.nodes@[i]),
                self.config == old(self).config,
                self.config.h1_mapping < usize::MAX,
                ind == self.config.indent@,
                h1 == self.config.h1_mapping as nat,
                old(self).document@ + sb_nodes_out(rep, ind, h1) == self.document@
                    + sb_nodes_out(rep.subrange(k as int, n as int), ind, h1),
            decreases n - k,
        {
            let ghost tail = rep.subrange(k as int, n as int);
            proof {
                assert(tail[0] == rep[k as int]);
                assert(tail.subrange(1, tail.len() as int) =~= rep.subrange(
                    k as int + 1,
                    n as int,
                ));
            }
            self.visit_node(&page.nodes[k]);
            k = k + 1;
        }
        proof {
            assert(rep.subrange(n as int, n as int) =~= Seq::<NodeRep>::empty());
        }
        let out = self.document.clone();
        proof {
            assert(out@ =~= old(self).document@ + sb_nodes_out(rep, ind, h1));
        }
        out
    }

    /// Prints one node, dispatching on its kind.
    pub fn visit_node(&mut self, value: &Node)
        requires
            old(self).config.h1_mapping < usize::MAX,
        ensures
            final(self).document@ == old(self).document@ + sb_node_out(
                node_rep(*value),
                old(self).config.indent@,
                old(self).config.h1_mapping as nat,
            ),
            final(self).config == old(self).config,
        decreases *value,
    {
        match &value.kind {
            NodeKind::Paragraph(v) => {
                proof {
                    assert(decreases_to!(*value => value.kind));
                }
                self.visit_paragraph(v);
            },
            NodeKind::List(v) => {
                proof {
                    assert(decreases_to!(*value => value.kind));
                }
                self.visit_list(v);
            },
            NodeKind::HashTag(v) => {
                self.visit_hashtag(v);
            },
            NodeKind::InternalLink(v) => {
                self.visit_internal_link(v);
            },
            NodeKind::ExternalLink(v) => {
                self.visit_external_link(v);
            },
            NodeKind::Emphasis(v) => {
                self.visit_emphasis(v);
            },
            NodeKind::Heading(v) => {
                self.visit_heading(v);
            },
            NodeKind::BlockQuate(v) => {
                self.visit_block_quate(v);
            },
            NodeKind::CodeBlock(v) => {
                self.visit_code_block(v);
            },
            NodeKind::Table(v) => {
                self.visit_table(v);
            },
            NodeKind::Image(v) => {
                self.visit_image(v);
            },
            NodeKind::Math(v) => {
                self.visit_math(v);
            },
            NodeKind::Text(v) => {
                self.visit_text(v);
            },
            NodeKind::Nop => {
                proof {
                    assert(old(self).document@ + sb_node_out(
                        node_rep(*value),
                        old(self).config.indent@,
                        old(self).config.h1_mapping as nat,
                    ) =~= old(self).document@);
                }
            },
        }
    }

    /// Prints the paragraph's children, then the line break.
    pub fn visit_paragraph(&mut self, value: &Paragraph)
        requires
            old(self).config.h1_mapping < usize::MAX,
        ensures
            final(self).document@ == old(self).document@ + sb_nodes_out(
                crate::ast::nodes_rep(value.children@),
                old(self).config.indent@,
                old(self).config.h1_mapping as nat,
            ) + "\n"@,
            final(self).config == old(self).config,
        decreases *value,
    {
        let ghost rep = crate::ast::nodes_rep(value.children@);
        let ghost ind = old(self).config.indent@;
        let ghost h1 = old(self).config.h1_mapping as nat;
        proof {
            lemma_nodes_rep(value.children@);
            assert(rep.subrange(0, rep.len() as int) =~= rep);
        }
        let n = value.children.len();
        let mut k: usize = 0;
        while k < n
            invariant
                k <= n,
                n == value.children@.len(),
                rep == crate::ast::nodes_rep(value.children@),
                rep.len() == n,
                forall|i: int| 0 <= i < n ==> rep[i] == node_rep(value.children@[i]),
                self.config == old(self).config,
                self.config.h1_mapping < usize::MAX,
                ind == self.config.indent@,
                h1 == self.config.h1_mapping as nat,
                old(self).document@ + sb_nodes_out(rep, ind, h1) == self.document@
                    + sb_nodes_out(rep.subrange(k as int, n as int), ind, h1),
            decreases n - k,
        {
            let ghost tail = rep.subrange(k as int, n as int);
            proof {
                assert(tail[0] == rep[k as int]);
                assert(tail.subrange(1, tail.len() as int) =~= rep.subrange(
                    k as int + 1,
                    n as int,
                ));
                assert(decreases_to!(*value => value.children));
                assert(decreases_to!(value.children => value.children@));
                assert(decreases_to!(value.children@ => value.children@[k as int]));
            }
            self.visit_node(&value.children[k]);
            k = k + 1;
        }
        proof {
            assert(rep.subrange(n as int, n as int) =~= Seq::<NodeRep>::empty());
        }
        self.document.append("\n");
        proof {
            assert(final(self).document@ =~= old(self).document@ + sb_nodes_out(rep, ind, h1)
                + "\n"@);
        }
    }

    /// Prints every item: the indent repeated level-plus-one times, the
    /// numbering for decimal items, the children, a line break.
    pub fn visit_list(&mut self, value: &List)
        requires
            old(self).config.h1_mapping < usize::MAX,
        ensures
            final(self).document@ == old(self).document@ + sb_items_out(
                crate::ast::items_rep(value.children@),
                1,
                old(self).config.indent@,
                old(self).config.h1_mapping as nat,
            ),
            final(self).config == old(self).config,
        decreases *value,
    {
        let ghost rep = crate::ast::items_rep(value.children@);
        let ghost ind = old(self).config.indent@;
        let ghost h1 = old(self).config.h1_mapping as nat;
        proof {
            lemma_items_rep(value.children@);
            assert(rep.subrange(0, rep.len() as int) =~= rep);
        }
        let n = value.children.len();
        let mut k: usize = 0;
        // how many decimal items stand in a row just before item k
        let mut run: usize = 0;
        while k < n
            invariant
                k <= n,
                run <= k,
                n == value.children@.len(),
                rep == crate::ast::items_rep(value.children@),
                rep.len() == n,
                forall|i: int| 0 <= i < n ==> rep[i] == item_rep(value.children@[i]),
                self.config == old(self).config,
                self.config.h1_mapping < usize::MAX,
                ind == self.config.indent@,
                h1 == self.config.h1_mapping as nat,
                old(self).document@ + sb_items_out(rep, 1, ind, h1) == self.document@
                    + sb_items_out(rep.subrange(k as int, n as int), (run + 1) as nat, ind, h1),
            decreases n - k,
        {
            let ghost tail = rep.subrange(k as int, n as int);
            proof {
                assert(tail[0] == rep[k as int]);
                assert(tail.subrange(1, tail.len() as int) =~= rep.subrange(
                    k as int + 1,
                    n as int,
                ));
            }
            let ghost doc0 = self.document@;
            let item = &value.children[k];
            let mut next_run: usize = 0;
            match &item.kind {
                crate::ast::ListKind::Disc => {
                    strutil::push_repeat(
                        &mut self.document,
                        self.config.indent.as_str(),
                        item.level,
                    );
                    self.document.append(self.config.indent.as_str());
                },
                crate::ast::ListKind::Decimal => {
                    strutil::push_repeat(
                        &mut self.document,
                        self.config.indent.as_str(),
                        item.level,
                    );
                    self.document.append(self.config.indent.as_str());
                    strutil::push_dec(&mut self.document, run + 1);
                    self.document.append(". ");
                    next_run = run + 1;
                },
                crate::ast::ListKind::Alphabet => {},
            }
            proof {
                assert(strutil::repeat_str(ind, (tail[0].level + 1) as nat)
                    =~= strutil::repeat_str(ind, tail[0].level as nat) + ind);
            }
            let ghost head_done = self.document@;
            let ghost crep = crate::ast::nodes_rep(item.children@);
            proof {
                lemma_nodes_rep(item.children@);
                assert(crep.subrange(0, crep.len() as int) =~= crep);
            }
            let cn = item.children.len();
            let mut j: usize = 0;
            while j < cn
                invariant
                    j <= cn,
                    k < n,
                    n == value.children@.len(),
                    item == value.children@[k as int],
                    cn == item.children@.len(),
                    crep == crate::ast::nodes_rep(item.children@),
                    crep.len() == cn,
                    forall|i: int| 0 <= i < cn ==> crep[i] == node_rep(item.children@[i]),
                    self.config == old(self).config,
                    self.config.h1_mapping < usize::MAX,
                    ind == self.config.indent@,
                    h1 == self.config.h1_mapping as nat,
                    head_done + sb_nodes_out(crep, ind, h1) == self.document@ + sb_nodes_out(
                        crep.subrange(j as int, cn as int),
                        ind,
                        h1,
                    ),
                decreases cn - j,
            {
                let ghost ctail = crep.subrange(j as int, cn as int);
                proof {
                    assert(ctail[0] == crep[j as int]);
                    assert(ctail.subrange(1, ctail.len() as int) =~= crep.subrange(
                        j as int + 1,
                        cn as int,
                    ));
                    assert(decreases_to!(*value => value.children));
                    assert(decreases_to!(value.children => value.children@));
                    assert(decreases_to!(value.children@ => value.children@[k as int]));
                    assert(decreases_to!(value.children@[k as int] =>
                        value.children@[k as int].children));
                    assert(decreases_to!(value.children@[k as int].children =>
                        value.children@[k as int].children@));
                    assert(decreases_to!(value.children@[k as int].children@ =>
                        value.children@[k as int].children@[j as int]));
                }
                self.visit_node(&item.children[j]);
                j = j + 1;
            }
            proof {
                assert(crep.subrange(cn as int, cn as int) =~= Seq::<NodeRep>::empty());
            }
            self.document.append("\n");
            run = next_run;
            k = k + 1;
            proof {
                assert(old(self).document@ + sb_items_out(rep, 1, ind, h1) =~= self.document@
                    + sb_items_out(
                    rep.subrange(k as int, n as int),
                    (run + 1) as nat,
                    ind,
                    h1,
                ));
            }
        }
        proof {
            assert(rep.subrange(n as int, n as int) =~= Seq::<ItemRep>::empty());
        }
    }

    pub fn visit_hashtag(&mut self, value: &HashTag)
        ensures
            final(self).document@ == old(self).document@ + "#"@ + value.value@,
            final(self).config == old(self).config,
    {
        self.document.append("#");
        self.document.append(value.value.as_str());
    }

    pub fn visit_internal_link(&mut self, value: &InternalLink)
        ensures
            final(self).document@ == old(self).document@ + ("["@ + value.title@ + "]"@),
            final(self).config == old(self).config,
    {
        self.document.append("[");
        self.document.append(value.title.as_str());
        self.document.append("]");
        proof {
            assert(final(self).document@ =~= old(self).document@ + ("["@ + value.title@
                + "]"@));
        }
    }

    pub fn visit_external_link(&mut self, value: &ExternalLink)
        ensures
            final(self).document@ == old(self).document@ + sb_node_out(
                crate::scrapbox::nrep(KindRep::ExternalLink(value@.0, value@.1)),
                old(self).config.indent@,
                old(self).config.h1_mapping as nat,
            ),
            final(self).config == old(self).config,
    {
        match &value.title {
            Some(title) => {
                self.document.append("[");
                self.document.append(title.as_str());
                self.document.append(" ");
                self.document.append(value.url.as_str());
                self.document.append("]");
                proof {
                    assert(final(self).document@ =~= old(self).document@ + ("["@ + title@
                        + " "@ + value.url@ + "]"@));
                }
            },
            None => {
                self.document.append("[");
                self.document.append(value.url.as_str());
                self.document.append("]");
                proof {
                    assert(final(self).document@ =~= old(self).document@ + ("["@ + value.url@
                        + "]"@));
                }
            },
        }
    }

    pub fn visit_emphasis(&mut self, value: &Emphasis)
        ensures
            final(self).document@ == old(self).document@ + sb_emphasis_out(
                value.text@,
                value.bold as nat,
                value.italic as nat,
                value.strikethrough as nat,
            ),
            final(self).config == old(self).config,
    {
        self.document.append("[");
        if value.bold > 0 {
            self.document.append("*");
        }
        if value.italic > 0 {
            self.document.append("/");
        }
        if value.strikethrough > 0 {
            self.document.append("-");
        }
        self.document.append(" ");
        self.document.append(value.text.as_str());
        self.document.append("]");
        proof {
            assert(final(self).document@ =~= old(self).document@ + sb_emphasis_out(
                value.text@,
                value.bold as nat,
                value.italic as nat,
                value.strikethrough as nat,
            ));
        }
    }

    pub fn visit_heading(&mut self, value: &Heading)
        requires
            old(self).config.h1_mapping < usize::MAX,
        ensures
            final(self).document@ == old(self).document@ + sb_heading_out(
                value.text@,
                value.level as nat,
                old(self).config.h1_mapping as nat,
            ),
            final(self).config == old(self).config,
    {
        let stars = if self.config.h1_mapping + 1 > value.level {
            self.config.h1_mapping - value.level + 1
        } else {
            1
        };
        self.document.append("[");
        strutil::push_repeat(&mut self.document, "*", stars);
        self.document.append(" ");
        self.document.append(value.text.as_str());
        self.document.append("]\n");
        proof {
            assert(final(self).document@ =~= old(self).document@ + sb_heading_out(
                value.text@,
                value.level as nat,
                old(self).config.h1_mapping as nat,
            ));
        }
    }

    pub fn visit_block_quate(&mut self, value: &BlockQuate)
        ensures
            final(self).document@ == old(self).document@ + ("`"@ + value.value@ + "`"@),
            final(self).config == old(self).config,
    {
        self.document.append("`");
        self.document.append(value.value.as_str());
        self.document.append("`");
        proof {
            assert(final(self).document@ =~= old(self).document@ + ("`"@ + value.value@
                + "`"@));
        }
    }

    pub fn visit_code_block(&mut self, value: &CodeBlock)
        ensures
            final(self).document@ == old(self).document@ + ("code:"@ + value.file_name@ + "\n"@
                + sb_lines_out(crate::ast::strs_rep(value.children@))),
            final(self).config == old(self).config,
    {
        self.document.append("code:");
        self.document.append(value.file_name.as_str());
        self.document.append("\n");
        let ghost rep = crate::ast::strs_rep(value.children@);
        let ghost mid = self.document@;
        let n = value.children.len();
        let mut k: usize = 0;
        proof {
            assert(rep.subrange(0, n as int) =~= rep);
        }
        while k < n
            invariant
                k <= n,
                n == value.children@.len(),
                rep == crate::ast::strs_rep(value.children@),
                rep.len() == n,
                self.config == old(self).config,
                mid + sb_lines_out(rep) == self.document@ + sb_lines_out(
                    rep.subrange(k as int, n as int),
                ),
            decreases n - k,
        {
            let ghost tail = rep.subrange(k as int, n as int);
            proof {
                assert(tail[0] == rep[k as int]);
                assert(tail.subrange(1, tail.len() as int) =~= rep.subrange(
                    k as int + 1,
                    n as int,
                ));
            }
            self.document.append(" ");
            self.document.append(value.children[k].as_str());
            self.document.append("\n");
            k = k + 1;
            proof {
                assert(self.document@ + sb_lines_out(rep.subrange(k as int, n as int)) =~= mid
                    + sb_lines_out(rep));
            }
        }
        proof {
            assert(rep.subrange(n as int, n as int) =~= Seq::<Seq<char>>::empty());
            assert(final(self).document@ =~= old(self).document@ + ("code:"@
                + value.file_name@ + "\n"@ + sb_lines_out(rep)));
        }
    }

    /// The name line, the header row, then data rows up to the first empty
    /// one; a table with an empty header prints nothing.
    pub fn visit_table(&mut self, value: &Table)
        ensures
            final(self).document@ == old(self).document@ + sb_table_out(
                value.name@,
                crate::ast::strs_rep(value.header@),
                crate::ast::rows_rep(value.rows@),
            ),
            final(self).config == old(self).config,
    {
        let ghost hrep = crate::ast::strs_rep(value.header@);
        let ghost rrep = crate::ast::rows_rep(value.rows@);
        if value.header.len() == 0 {
            proof {
                assert(old(self).document@ + sb_table_out(value.name@, hrep, rrep) =~= old(
                    self,
                ).document@);
            }
            return ;
        }
        self.document.append("table:");
        self.document.append(value.name.as_str());
        self.document.append("\n");
        self.document.append(" ");
        strutil::push_join(&mut self.document, &value.header, "\t");
        self.document.append("\n");
        proof {
            assert(self.document@ =~= old(self).document@ + ("table:"@ + value.name@ + "\n"@)
                + sb_row_out(hrep));
        }
        self.print_rows(&value.rows, 0);
        proof {
            assert(final(self).document@ =~= old(self).document@ + sb_table_out(
                value.name@,
                hrep,
                rrep,
            ));
        }
    }

    /// Prints the data rows from `k` on, stopping at the first empty row.
    fn print_rows(&mut self, rows: &Vec<Vec<String>>, k: usize)
        requires
            k <= rows@.len(),
        ensures
            final(self).document@ == old(self).document@ + sb_rows_from(
                crate::ast::rows_rep(rows@),
                k as int,
            ),
            final(self).config == old(self).config,
        decreases rows@.len() - k,
    {
        let ghost rrep = crate::ast::rows_rep(rows@);
        if k == rows.len() {
            proof {
                assert(old(self).document@ + sb_rows_from(rrep, k as int)
                    =~= old(self).document@);
            }
            return ;
        }
        if rows[k].len() == 0 {
            proof {
                assert(rrep[k as int].len() == 0);
                assert(old(self).document@ + sb_rows_from(rrep, k as int)
                    =~= old(self).document@);
            }
            return ;
        }
        self.document.append(" ");
        strutil::push_join(&mut self.document, &rows[k], "\t");
        self.document.append("\n");
        proof {
            assert(self.document@ =~= old(self).document@ + sb_row_out(rrep[k as int]));
        }
        self.print_rows(rows, k + 1);
        proof {
            assert(final(self).document@ =~= old(self).document@ + sb_rows_from(
                rrep,
                k as int,
            ));
        }
    }

    pub fn visit_image(&mut self, value: &Image)
        ensures
            final(self).document@ == old(self).document@ + ("["@ + value.uri@ + "]"@),
            final(self).config == old(self).config,
    {
        self.document.append("[");
        self.document.append(value.uri.as_str());
        self.document.append("]");
        proof {
            assert(final(self).document@ =~= old(self).document@ + ("["@ + value.uri@
                + "]"@));
        }
    }

    pub fn visit_math(&mut self, value: &Math)
        ensures
            final(self).document@ == old(self).document@ + ("[$"@ + value.value@ + "]"@),
            final(self).config == old(self).config,
    {
        self.document.append("[$");
        self.document.append(value.value.as_str());
        self.document.append("]");
        proof {
            assert(final(self).document@ =~= old(self).document@ + ("[$"@ + value.value@
                + "]"@));
        }
    }

    pub fn visit_text(&mut self, value: &Text)
        ensures
            final(self).document@ == old(self).document@ + value.value@,
            final(self).config == old(self).config,
    {
        self.document.append(value.value.as_str());
    }
}

} // verus!
