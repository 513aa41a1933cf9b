//! The heading-mapping / list-flattening pass and the Markdown printer.
use vstd::prelude::*;

use crate::ast::BlockQuate;
use crate::ast::CodeBlock;
use crate::ast::Emphasis;
use crate::ast::ExternalLink;
use crate::ast::HashTag;
use crate::ast::Image;
use crate::ast::InternalLink;
use crate::ast::Math;
use crate::ast::Table;
use crate::ast::Text;
use crate::ast::Heading;
use crate::ast::ItemRep;
use crate::ast::KindRep;
use crate::ast::List;
use crate::ast::ListItem;
use crate::ast::ListKind;
use crate::ast::Node;
use crate::ast::NodeId;
use crate::ast::NodeKind;
use crate::ast::NodeRep;
use crate::ast::Page;
use crate::ast::Paragraph;
use crate::ast::dup_item;
use crate::ast::dup_kind;
use crate::ast::dup_string;
use crate::ast::item_rep;
use crate::ast::items_rep;
use crate::ast::kind_rep;
use crate::ast::lemma_items_rep;
use crate::ast::lemma_nodes_rep;
use crate::ast::node_rep;
use crate::ast::nodes_rep;
use crate::visitor::TransformCommand;

verus! {

broadcast use vstd::seq::group_seq_axioms, vstd::std_specs::vec::group_vec_axioms;

/// Rewrites emphasis nodes whose bold level marks them as headings, and
/// hoists code blocks out of lists.
pub struct MarkdownPass {
    /// Which bold level maps to a level-1 heading: with `h1_level` = 3, a
    /// bold level of 3 becomes `#`, 2 becomes `##`, and so on.
    pub h1_level: usize,
    /// When true a single level of bold is also promoted to a heading;
    /// when false it stays emphasis.
    pub bold_to_h: bool,
}

impl Default for MarkdownPass {
    fn default() -> (r: Self)
        ensures
            r.h1_level == 3,
            r.bold_to_h == false,
    {
        Self { h1_level: 3, bold_to_h: false }
    }
}

/// The heading that an emphasis is promoted to, if any: bold level `b`
/// becomes a heading at level `h1_level + 1 - b` exactly when that level is
/// in range and either promotion is unconditional or `b` is unambiguous.
pub open spec fn sp_pass_emphasis(h1: nat, bold_to_h: bool, text: Seq<char>, b: nat) -> Option<
    (Seq<char>, nat),
> {
    let h = if b <= h1 + 1 {
        (h1 + 1 - b) as nat
    } else {
        0
    };
    if 0 < h <= h1 && (bold_to_h || b > 1) {
        Some((text, h))
    } else {
        None
    }
}

/// The item's first child is a code block.
pub open spec fn sp_item_starts_cb(it: ItemRep) -> bool {
    it.children.len() > 0 && it.children[0].kind is CodeBlock
}

/// Length of the maximal prefix of items that do not start with a code
/// block.
pub open spec fn sp_ord_run(items: Seq<ItemRep>) -> int
    decreases items.len(),
{
    if items.len() > 0 && !sp_item_starts_cb(items[0]) {
        1 + sp_ord_run(items.subrange(1, items.len() as int))
    } else {
        0
    }
}

pub proof fn lemma_ord_run(items: Seq<ItemRep>)
    ensures
        0 <= sp_ord_run(items) <= items.len(),
        forall|k: int| 0 <= k < sp_ord_run(items) ==> !sp_item_starts_cb(items[k]),
        sp_ord_run(items) < items.len() ==> sp_item_starts_cb(items[sp_ord_run(items)]),
    decreases items.len(),
{
    if items.len() > 0 && !sp_item_starts_cb(items[0]) {
        let rest = items.subrange(1, items.len() as int);
        lemma_ord_run(rest);
        assert forall|k: int| 0 <= k < sp_ord_run(items) implies !sp_item_starts_cb(
            items[k],
        ) by {
            if k > 0 {
                assert(rest[k - 1] == items[k]);
            }
        }
        if sp_ord_run(items) < items.len() {
            assert(rest[sp_ord_run(items) - 1] == items[sp_ord_run(items)]);
        }
    }
}

/// The nodes that replace a list: standalone code blocks interleaved with
/// singleton re-wrapped lists, splitting at every boundary where "does this
/// item start with a code block" changes value.
pub open spec fn sp_flatten(items: Seq<ItemRep>) -> Seq<NodeRep>
    decreases items.len(),
    via sp_flatten_decreases
{
    if items.len() == 0 {
        Seq::empty()
    } else if sp_item_starts_cb(items[0]) {
        let it = items[0];
        let lead = seq![crate::scrapbox::nrep(it.children[0].kind)];
        let tail = if it.children.len() > 1 {
            seq![
                crate::scrapbox::nrep(
                    KindRep::List(
                        seq![
                            ItemRep {
                                kind: it.kind,
                                level: it.level,
                                children: it.children.subrange(
                                    1,
                                    it.children.len() as int,
                                ),
                            },
                        ],
                    ),
                ),
            ]
        } else {
            Seq::empty()
        };
        lead + tail + sp_flatten(items.subrange(1, items.len() as int))
    } else {
        let m = sp_ord_run(items);
        seq![crate::scrapbox::nrep(KindRep::List(items.subrange(0, m)))] + sp_flatten(
            items.subrange(m, items.len() as int),
        )
    }
}

#[via_fn]
proof fn sp_flatten_decreases(items: Seq<ItemRep>) {
    lemma_ord_run(items);
}

/// What the list-flattening pass replaces a list with: the one resulting
/// node directly when there is exactly one, else a grouping paragraph.
pub open spec fn sp_pass_list(items: Seq<ItemRep>) -> KindRep {
    let nn = sp_flatten(items);
    if nn.len() == 1 {
        nn[0].kind
    } else {
        KindRep::Paragraph(nn)
    }
}

/// The pass applied to one node: emphasis may become a heading, a list is
/// flattened, a paragraph's children are transformed in place; the node's
/// identifier is kept, and a replacement is not itself re-visited.
pub open spec fn sp_pass_node(h1: nat, bold_to_h: bool, n: NodeRep) -> NodeRep
    decreases n,
{
    match n.kind {
        KindRep::Paragraph(ch) => NodeRep {
            id: n.id,
            kind: KindRep::Paragraph(sp_pass_nodes(h1, bold_to_h, ch)),
        },
        KindRep::List(items) => NodeRep { id: n.id, kind: sp_pass_list(items) },
        KindRep::Emphasis(t, b, it, st) => match sp_pass_emphasis(h1, bold_to_h, t, b) {
            Some((text, h)) => NodeRep { id: n.id, kind: KindRep::Heading(text, h) },
            None => n,
        },
        _ => n,
    }
}

pub open spec fn sp_pass_nodes(h1: nat, bold_to_h: bool, v: Seq<NodeRep>) -> Seq<NodeRep>
    decreases v,
{
    if v.len() == 0 {
        Seq::empty()
    } else {
        seq![sp_pass_node(h1, bold_to_h, v[0])] + sp_pass_nodes(
            h1,
            bold_to_h,
            v.subrange(1, v.len() as int),
        )
    }
}

pub proof fn lemma_pass_nodes(h1: nat, bold_to_h: bool, v: Seq<NodeRep>)
    ensures
        (#[trigger] sp_pass_nodes(h1, bold_to_h, v)).len() == v.len(),
        forall|i: int|
            0 <= i < v.len() ==> sp_pass_nodes(h1, bold_to_h, v)[i] == sp_pass_node(
                h1,
                bold_to_h,
                v[i],
            ),
    decreases v,
{
    if v.len() > 0 {
        lemma_pass_nodes(h1, bold_to_h, v.subrange(1, v.len() as int));
    }
}

/// Flattening a well-formed list yields well-formed nodes: every re-wrapped
/// list keeps the items' levels.
pub proof fn lemma_flatten_levels(items: Seq<ItemRep>)
    requires
        crate::ast::levels_ok_items(items),
    ensures
        crate::ast::levels_ok_nodes(sp_flatten(items)),
    decreases items.len(),
{
    crate::ast::lemma_levels_ok_items(items);
    if items.len() == 0 {
    } else if sp_item_starts_cb(items[0]) {
        let it = items[0];
        let rest = items.subrange(1, items.len() as int);
        crate::ast::lemma_levels_ok_items(rest);
        lemma_flatten_levels(rest);
        let lead = crate::scrapbox::nrep(it.children[0].kind);
        assert(crate::ast::levels_ok_node(lead)) by {
            crate::ast::lemma_levels_ok_nodes(it.children);
        }
        crate::ast::lemma_levels_ok_nodes(sp_flatten(rest));
        if it.children.len() > 1 {
            let sub = ItemRep {
                kind: it.kind,
                level: it.level,
                children: it.children.subrange(1, it.children.len() as int),
            };
            assert(crate::ast::levels_ok_nodes(sub.children)) by {
                crate::ast::lemma_levels_ok_nodes(it.children);
                crate::ast::lemma_levels_ok_nodes(sub.children);
            }
            assert(crate::ast::levels_ok_items(seq![sub])) by {
                crate::ast::lemma_levels_ok_items(seq![sub]);
            }
            let wrap = crate::scrapbox::nrep(KindRep::List(seq![sub]));
            crate::ast::lemma_levels_ok_nodes(sp_flatten(items));
            crate::ast::lemma_levels_ok_nodes(
                seq![lead] + seq![wrap] + sp_flatten(rest),
            );
        } else {
            crate::ast::lemma_levels_ok_nodes(sp_flatten(items));
            crate::ast::lemma_levels_ok_nodes(
                seq![lead] + Seq::<NodeRep>::empty() + sp_flatten(rest),
            );
        }
    } else {
        let m = sp_ord_run(items);
        lemma_ord_run(items);
        let run = items.subrange(0, m);
        let rest = items.subrange(m, items.len() as int);
        assert(crate::ast::levels_ok_items(run)) by {
            crate::ast::lemma_levels_ok_items(run);
        }
        assert(crate::ast::levels_ok_items(rest)) by {
            crate::ast::lemma_levels_ok_items(rest);
        }
        lemma_flatten_levels(rest);
        crate::ast::lemma_levels_ok_nodes(sp_flatten(rest));
        crate::ast::lemma_levels_ok_nodes(
            seq![crate::scrapbox::nrep(KindRep::List(run))] + sp_flatten(rest),
        );
    }
}

/// The pass keeps list levels 1-based wherever they were.
pub proof fn lemma_pass_node_levels(h1: nat, bth: bool, n: NodeRep)
    requires
        crate::ast::levels_ok_node(n),
    ensures
        crate::ast::levels_ok_node(sp_pass_node(h1, bth, n)),
    decreases n,
{
    match n.kind {
        KindRep::Paragraph(ch) => {
            lemma_pass_nodes_levels(h1, bth, ch);
        },
        KindRep::List(items) => {
            lemma_flatten_levels(items);
            let nn = sp_flatten(items);
            if nn.len() == 1 {
                crate::ast::lemma_levels_ok_nodes(nn);
                assert(crate::ast::levels_ok_node(nn[0]));
                assert(crate::ast::levels_ok_node(
                    NodeRep { id: n.id, kind: nn[0].kind },
                ));
            }
        },
        _ => {},
    }
}

pub proof fn lemma_pass_nodes_levels(h1: nat, bth: bool, v: Seq<NodeRep>)
    requires
        crate::ast::levels_ok_nodes(v),
    ensures
        crate::ast::levels_ok_nodes(sp_pass_nodes(h1, bth, v)),
    decreases v,
{
    crate::ast::lemma_levels_ok_nodes(v);
    if v.len() > 0 {
        let rest = v.subrange(1, v.len() as int);
        crate::ast::lemma_levels_ok_nodes(rest);
        lemma_pass_nodes_levels(h1, bth, rest);
        lemma_pass_node_levels(h1, bth, v[0]);
        crate::ast::lemma_levels_ok_nodes(sp_pass_nodes(h1, bth, rest));
        crate::ast::lemma_levels_ok_nodes(
            seq![sp_pass_node(h1, bth, v[0])] + sp_pass_nodes(h1, bth, rest),
        );
    }
}

impl MarkdownPass {
    /// Replacement decision for one emphasis node.
    pub fn visit_emphasis(&mut self, emphasis: &Emphasis) -> (r: Option<TransformCommand>)
        requires
            old(self).h1_level < usize::MAX,
        ensures
            *final(self) == *old(self),
            match sp_pass_emphasis(
                old(self).h1_level as nat,
                old(self).bold_to_h,
                emphasis.text@,
                emphasis.bold as nat,
            ) {
                Some((text, h)) => r matches Some(TransformCommand::Replace(NodeKind::Heading(hd)))
                    && hd.text@ == text && hd.level as nat == h,
                None => r is None,
            },
    {
        let h_level = if emphasis.bold <= self.h1_level {
            self.h1_level + 1 - emphasis.bold
        } else if emphasis.bold == self.h1_level + 1 {
            0
        } else {
            0
        };
        if 0 < h_level && h_level <= self.h1_level && (self.bold_to_h || (!self.bold_to_h
            && emphasis.bold > 1)) {
            Some(
                TransformCommand::Replace(
                    NodeKind::Heading(
                        Heading { text: dup_string(&emphasis.text), level: h_level },
                    ),
                ),
            )
        } else {
            None
        }
    }

    /// Replacement decision for one list node: always a replacement, with
    /// the flattened interleaving of code blocks and singleton lists.
    #[verifier::rlimit(100)]
    pub fn visit_list(&mut self, value: &mut List) -> (r: Option<TransformCommand>)
        ensures
            *final(self) == *old(self),
            final(value)@ == old(value)@,
            r matches Some(TransformCommand::Replace(k)) && kind_rep(k) == sp_pass_list(
                old(value)@,
            ),
    {
        proof {
            lemma_items_rep(value.children@);
        }
        let ghost items = items_rep(value.children@);
        let mut new_nodes: Vec<Node> = Vec::new();
        let mut k: usize = 0;
        let n = value.children.len();
        proof {
            assert(items.subrange(0, n as int) =~= items);
            assert(nodes_rep(new_nodes@) =~= Seq::<NodeRep>::empty());
        }
        while k < n
            invariant
                k <= n,
                n == value.children@.len(),
                items == items_rep(value.children@),
                items.len() == n,
                forall|i: int|
                    0 <= i < items.len() ==> items[i] == item_rep(value.children@[i]),
                sp_flatten(items) == nodes_rep(new_nodes@) + sp_flatten(
                    items.subrange(k as int, n as int),
                ),
            decreases n - k,
        {
            let ghost suffix = items.subrange(k as int, n as int);
            proof {
                assert(suffix[0] == items[k as int]);
                assert(suffix.subrange(1, suffix.len() as int) =~= items.subrange(
                    k as int + 1,
                    n as int,
                ));
            }
            let item = &value.children[k];
            proof {
                lemma_nodes_rep(item.children@);
            }
            let mut first_is_cb = false;
            if item.children.len() > 0 {
                match &item.children[0].kind {
                    NodeKind::CodeBlock(_) => {
                        first_is_cb = true;
                    },
                    _ => {},
                }
            }
            if first_is_cb {
                let ghost before = nodes_rep(new_nodes@);
                let cb_kind = dup_kind(&item.children[0].kind);
                let lead_node = Node { id: NodeId(0), kind: cb_kind };
                proof {
                    assert(node_rep(lead_node) == crate::scrapbox::nrep(
                        suffix[0].children[0].kind,
                    ));
                }
                let ghost pre1 = new_nodes@;
                new_nodes.push(lead_node);
                proof {
                    crate::ast::lemma_nodes_rep_push(pre1, lead_node);
                    assert(nodes_rep(new_nodes@) =~= before.push(
                        crate::scrapbox::nrep(suffix[0].children[0].kind),
                    ));
                }
                if item.children.len() > 1 {
                    let mut rest: Vec<Node> = Vec::new();
                    let mut j: usize = 1;
                    while j < item.children.len()
                        invariant
                            1 <= j <= item.children@.len(),
                            rest@.len() == j - 1,
                            forall|i: int|
                                0 <= i < j - 1 ==> node_rep(rest@[i]) == node_rep(
                                    item.children@[i + 1],
                                ),
                        decreases item.children@.len() - j,
                    {
                        proof {
                            assert(decreases_to!(item.children@ => item.children@[j as int]));
                        }
                        rest.push(crate::ast::dup_node(&item.children[j]));
                        j = j + 1;
                    }
                    let sub_item = ListItem {
                        kind: match item.kind {
                            ListKind::Disc => ListKind::Disc,
                            ListKind::Decimal => ListKind::Decimal,
                            ListKind::Alphabet => ListKind::Alphabet,
                        },
                        level: item.level,
                        children: rest,
                    };
                    let ghost sub_rep = ItemRep {
                        kind: suffix[0].kind,
                        level: suffix[0].level,
                        children: suffix[0].children.subrange(
                            1,
                            suffix[0].children.len() as int,
                        ),
                    };
                    proof {
                        lemma_nodes_rep(sub_item.children@);
                        assert(item_rep(sub_item).children =~= sub_rep.children);
                        assert(item_rep(sub_item) == sub_rep);
                    }
                    let mut one: Vec<ListItem> = Vec::new();
                    one.push(sub_item);
                    let wrap_node = Node {
                        id: NodeId(0),
                        kind: NodeKind::List(List { children: one }),
                    };
                    proof {
                        lemma_items_rep(wrap_node.kind->List_0.children@);
                        assert(items_rep(wrap_node.kind->List_0.children@) =~= seq![sub_rep]);
                        assert(node_rep(wrap_node) == crate::scrapbox::nrep(
                            KindRep::List(seq![sub_rep]),
                        ));
                    }
                    let ghost before2 = nodes_rep(new_nodes@);
                    let ghost pre2 = new_nodes@;
                    new_nodes.push(wrap_node);
                    proof {
                        crate::ast::lemma_nodes_rep_push(pre2, wrap_node);
                        assert(nodes_rep(new_nodes@) =~= before2.push(
                            crate::scrapbox::nrep(KindRep::List(seq![sub_rep])),
                        ));
                        // one code block node, then the re-wrapped remainder
                        assert(nodes_rep(new_nodes@) =~= before + (seq![
                            crate::scrapbox::nrep(suffix[0].children[0].kind),
                        ] + seq![crate::scrapbox::nrep(KindRep::List(seq![sub_rep]))]));
                        assert(sp_flatten(items) =~= nodes_rep(new_nodes@) + sp_flatten(
                            items.subrange(k as int + 1, n as int),
                        ));
                    }
                } else {
                    proof {
                        assert(suffix[0].children.len() == 1);
                        assert(sp_flatten(items) =~= nodes_rep(new_nodes@) + sp_flatten(
                            items.subrange(k as int + 1, n as int),
                        ));
                    }
                }
                k = k + 1;
            } else {
                // a maximal run of ordinary items becomes one list
                let ghost m = sp_ord_run(suffix);
                proof {
                    lemma_ord_run(suffix);
                    assert(!sp_item_starts_cb(suffix[0]));
                    assert(m >= 1);
                }
                let mut run: Vec<ListItem> = Vec::new();
                let start = k;
                let mut stop = false;
                while k < n && !stop
                    invariant
                        start <= k <= n,
                        n == value.children@.len(),
                        items == items_rep(value.children@),
                        items.len() == n,
                        forall|i: int|
                            0 <= i < items.len() ==> items[i] == item_rep(
                                value.children@[i],
                            ),
                        suffix == items.subrange(start as int, n as int),
                        m == sp_ord_run(suffix),
                        k - start <= m,
                        run@.len() == k - start,
                        forall|i: int|
                            0 <= i < run@.len() ==> item_rep(run@[i]) == items[start + i],
                        stop ==> k < n && sp_item_starts_cb(items[k as int]),
                        !stop ==> k - start <= m,
                        forall|i: int| start <= i < k ==> !sp_item_starts_cb(items[i]),
                    decreases n - k + (if stop { 0int } else { 1int }),
                {
                    let it2 = &value.children[k];
                    proof {
                        lemma_nodes_rep(it2.children@);
                        assert(items[k as int] == item_rep(value.children@[k as int]));
                    }
                    let mut is_cb = false;
                    if it2.children.len() > 0 {
                        match &it2.children[0].kind {
                            NodeKind::CodeBlock(_) => {
                                is_cb = true;
                            },
                            _ => {},
                        }
                    }
                    if is_cb {
                        stop = true;
                    } else {
                        proof {
                            lemma_ord_run(suffix);
                            assert(suffix[k - start] == items[k as int]);
                            if k - start >= m {
                                assert(sp_item_starts_cb(suffix[m]));
                                assert(false);
                            }
                        }
                        run.push(dup_item(&value.children[k]));
                        k = k + 1;
                    }
                }
                proof {
                    // the loop stopped exactly at the end of the run
                    lemma_ord_run(suffix);
                    if k - start < m {
                        assert(suffix[k - start] == items[k as int]);
                        assert(!sp_item_starts_cb(suffix[k - start]));
                        if stop {
                            assert(sp_item_starts_cb(items[k as int]));
                            assert(false);
                        } else {
                            assert(k == n);
                            assert(m <= suffix.len());
                            assert(false);
                        }
                    }
                    assert(k - start == m);
                    lemma_items_rep(run@);
                    assert(items_rep(run@) =~= suffix.subrange(0, m));
                }
                let ghost before = nodes_rep(new_nodes@);
                let run_node = Node { id: NodeId(0), kind: NodeKind::List(List { children: run }) };
                proof {
                    assert(node_rep(run_node) == crate::scrapbox::nrep(
                        KindRep::List(suffix.subrange(0, m)),
                    ));
                }
                let ghost pre3 = new_nodes@;
                new_nodes.push(run_node);
                proof {
                    crate::ast::lemma_nodes_rep_push(pre3, run_node);
                    assert(nodes_rep(new_nodes@) =~= before.push(
                        crate::scrapbox::nrep(KindRep::List(suffix.subrange(0, m))),
                    ));
                    assert(suffix.subrange(m, suffix.len() as int) =~= items.subrange(
                        k as int,
                        n as int,
                    ));
                    assert(sp_flatten(items) =~= nodes_rep(new_nodes@) + sp_flatten(
                        items.subrange(k as int, n as int),
                    ));
                }
            }
        }
        proof {
            assert(items.subrange(n as int, n as int) =~= Seq::<ItemRep>::empty());
            assert(sp_flatten(items) =~= nodes_rep(new_nodes@));
            lemma_nodes_rep(new_nodes@);
        }
        if new_nodes.len() == 1 {
            let first = match new_nodes.pop() {
                Some(nd) => nd,
                None => {
                    proof {
                        assert(false);
                    }
                    Node { id: NodeId(0), kind: NodeKind::Nop }
                },
            };
            proof {
                assert(node_rep(first) == sp_flatten(items)[0]);
            }
            Some(TransformCommand::Replace(first.kind))
        } else {
            Some(
                TransformCommand::Replace(
                    NodeKind::Paragraph(Paragraph { children: new_nodes }),
                ),
            )
        }
    }

    /// Applies the pass to one node, as the walk would: paragraphs recurse,
    /// emphasis and lists may be replaced, everything else stays.
    fn pass_node(&mut self, value: &mut Node)
        requires
            old(self).h1_level < usize::MAX,
        ensures
            *final(self) == *old(self),
            node_rep(*final(value)) == sp_pass_node(
                old(self).h1_level as nat,
                old(self).bold_to_h,
                node_rep(*old(value)),
            ),
        decreases *old(value),
    {
        let command = match &mut value.kind {
            NodeKind::Paragraph(p) => {
                proof {
                    assert(decreases_to!(*old(value) => old(value).kind));
                }
                self.pass_children(&mut p.children);
                proof {
                    lemma_pass_nodes(
                        old(self).h1_level as nat,
                        old(self).bold_to_h,
                        nodes_rep(old(value).kind->Paragraph_0.children@),
                    );
                }
                None
            },
            NodeKind::List(l) => self.visit_list(l),
            NodeKind::Emphasis(e) => self.visit_emphasis(e),
            _ => None,
        };
        match command {
            Some(TransformCommand::Replace(kind)) => {
                value.kind = kind;
            },
            Some(TransformCommand::Delete) => {
                value.kind = NodeKind::Nop;
            },
            None => {},
        }
    }

    /// Applies the pass to every node of a sequence, in place.
    fn pass_children(&mut self, v: &mut Vec<Node>)
        requires
            old(self).h1_level < usize::MAX,
        ensures
            *final(self) == *old(self),
            nodes_rep(final(v)@) == sp_pass_nodes(
                old(self).h1_level as nat,
                old(self).bold_to_h,
                nodes_rep(old(v)@),
            ),
        decreases old(v)@,
    {
        let ghost orig = v@;
        let ghost h1 = old(self).h1_level as nat;
        let ghost bth = old(self).bold_to_h;
        proof {
            lemma_nodes_rep(orig);
            lemma_pass_nodes(h1, bth, nodes_rep(orig));
        }
        let n = v.len();
        let mut k: usize = 0;
        while k < n
            invariant
                k <= n,
                n == v@.len(),
                orig == old(v)@,
                v@.len() == orig.len(),
                *self == *old(self),
                old(self).h1_level < usize::MAX,
                h1 == old(self).h1_level as nat,
                bth == old(self).bold_to_h,
                forall|i: int| k <= i < n ==> v@[i] == orig[i],
                forall|i: int|
                    0 <= i < k ==> node_rep(v@[i]) == sp_pass_node(h1, bth, node_rep(orig[i])),
            decreases n - k,
        {
            proof {
                assert(decreases_to!(orig => orig[k as int]));
                assert(v@[k as int] == orig[k as int]);
            }
            let node = &mut v[k];
            self.pass_node(node);
            k = k + 1;
        }
        proof {
            lemma_nodes_rep(v@);
            lemma_nodes_rep(orig);
            lemma_pass_nodes(h1, bth, nodes_rep(orig));
            assert(nodes_rep(v@) =~= sp_pass_nodes(h1, bth, nodes_rep(orig)));
        }
    }

    /// Runs the pass over a whole page, transforming each top-level node.
    pub fn visit(&mut self, value: &mut Page)
        requires
            old(self).h1_level < usize::MAX,
        ensures
            *final(self) == *old(self),
            final(value)@ == sp_pass_nodes(
                old(self).h1_level as nat,
                old(self).bold_to_h,
                old(value)@,
            ),
    {
        self.pass_children(&mut value.nodes);
    }
}

// ---------------------------------------------------------------------------
// The Markdown printer
// ---------------------------------------------------------------------------
/// Emphasis markers stacked around the text: bold innermost, then italic,
/// then strikethrough.
pub open spec fn md_emphasis_out(t: Seq<char>, b: nat, it: nat, st: nat) -> Seq<char> {
    let t1 = if b > 0 {
        "**"@ + t + "**"@
    } else {
        t
    };
    let t2 = if it > 0 {
        "*"@ + t1 + "*"@
    } else {
        t1
    };
    if st > 0 {
        "~~"@ + t2 + "~~"@
    } else {
        t2
    }
}

/// The code lines, each on its own line.
pub open spec fn md_lines_out(lines: Seq<Seq<char>>) -> Seq<char>
    decreases lines.len(),
{
    if lines.len() == 0 {
        Seq::empty()
    } else {
        lines[0] + "\n"@ + md_lines_out(lines.subrange(1, lines.len() as int))
    }
}

/// `n` separator cells for the header underline.
pub open spec fn sep_cells(n: nat) -> Seq<Seq<char>>
    decreases n,
{
    if n == 0 {
        Seq::empty()
    } else {
        seq!["---"@] + sep_cells((n - 1) as nat)
    }
}

pub proof fn lemma_sep_cells(n: nat)
    ensures
        sep_cells(n).len() == n,
        forall|i: int| 0 <= i < n ==> sep_cells(n)[i] == "---"@,
    decreases n,
{
    if n > 0 {
        lemma_sep_cells((n - 1) as nat);
    }
}

/// One table row line: the cells joined by ` | ` between pipes.
pub open spec fn md_row_out(cells: Seq<Seq<char>>) -> Seq<char> {
    "| "@ + crate::strutil::join_strs(cells, " | "@) + " |"@ + "\n"@
}

/// The data rows from index `k` on; an empty row ends the output.
pub open spec fn md_rows_from(rows: Seq<Seq<Seq<char>>>, k: int) -> Seq<char>
    decreases rows.len() - k when 0 <= k <= rows.len()
{
    if k >= rows.len() {
        Seq::empty()
    } else if rows[k].len() == 0 {
        Seq::empty()
    } else {
        md_row_out(rows[k]) + md_rows_from(rows, k + 1)
    }
}

/// A table with an empty header prints nothing; otherwise the header, the
/// separator row, and the data rows up to the first empty one.
pub open spec fn md_table_out(header: Seq<Seq<char>>, rows: Seq<Seq<Seq<char>>>) -> Seq<char> {
    if header.len() == 0 {
        Seq::empty()
    } else {
        md_row_out(header) + md_row_out(sep_cells(header.len())) + md_rows_from(rows, 0)
    }
}

/// The Markdown text of one node.
pub open spec fn md_node_out(n: NodeRep, ind: Seq<char>) -> Seq<char>
    decreases n,
{
    match n.kind {
        KindRep::Paragraph(ch) => md_nodes_out(ch, ind) + "\n"@,
        KindRep::List(items) => md_items_out(items, ind),
        KindRep::HashTag(v) => "#"@ + v,
        KindRep::InternalLink(t) => "[["@ + t + "]]"@,
        KindRep::ExternalLink(t, u) => match t {
            Some(title) => "["@ + title + "]("@ + u + ")"@,
            None => if crate::utils::sp_prefix_at(u, 0, "https://gyazo.com/"@) {
                "![]("@ + u + "/max_size/400)"@
            } else {
                u
            },
        },
        KindRep::Emphasis(t, b, it, st) => md_emphasis_out(t, b, it, st),
        KindRep::Heading(t, level) => crate::strutil::repeat_str("#"@, level) + " "@ + t,
        KindRep::BlockQuate(v) => "`"@ + v + "`"@,
        KindRep::CodeBlock(f, lines) => "```"@ + f + "\n"@ + md_lines_out(lines) + "```\n"@,
        KindRep::Table(_name, header, rows) => md_table_out(header, rows),
        KindRep::Image(u) => "![]("@ + u + ")"@,
        KindRep::Math(v) => "$$"@ + v + "$$"@,
        KindRep::Text(v) => v,
        KindRep::Nop => Seq::empty(),
    }
}

/// The Markdown text of a node sequence.
pub open spec fn md_nodes_out(v: Seq<NodeRep>, ind: Seq<char>) -> Seq<char>
    decreases v,
{
    if v.len() == 0 {
        Seq::empty()
    } else {
        md_node_out(v[0], ind) + md_nodes_out(v.subrange(1, v.len() as int), ind)
    }
}

/// One list item: the indent unit repeated `level - 1` times, the marker,
/// the children, a line break.
pub open spec fn md_item_out(it: ItemRep, ind: Seq<char>) -> Seq<char>
    decreases it,
{
    let dep = if it.level >= 1 {
        (it.level - 1) as nat
    } else {
        0
    };
    let head = match it.kind {
        ListKind::Disc => crate::strutil::repeat_str(ind, dep) + "* "@,
        ListKind::Decimal => crate::strutil::repeat_str(ind, dep) + "1. "@,
        ListKind::Alphabet => Seq::<char>::empty(),
    };
    head + md_nodes_out(it.children, ind) + "\n"@
}

pub open spec fn md_items_out(items: Seq<ItemRep>, ind: Seq<char>) -> Seq<char>
    decreases items,
{
    if items.len() == 0 {
        Seq::empty()
    } else {
        md_item_out(items[0], ind) + md_items_out(items.subrange(1, items.len() as int), ind)
    }
}

pub struct MarkdownPrinterConfig {
    /// The indent unit emitted per list level.
    pub indent: String,
}

impl Default for MarkdownPrinterConfig {
    fn default() -> (r: Self)
        ensures
            r.indent@ == "  "@,
    {
        Self { indent: String::from_str("  ") }
    }
}

/// Serializes a page as Markdown text into an output buffer.
pub struct MarkdownPrinter {
    pub document: String,
    pub config: MarkdownPrinterConfig,
}

impl MarkdownPrinter {
    pub fn new(config: MarkdownPrinterConfig) -> (r: Self)
        ensures
            r.document@ == Seq::<char>::empty(),
            r.config.indent@ == config.indent@,
    {
        Self { document: String::new(), config }
    }

    /// Prints the whole page and returns the accumulated document.
    pub fn generate(&mut self, page: &mut Page) -> (r: String)
        ensures
            r@ == old(self).document@ + md_nodes_out(old(page)@, old(self).config.indent@),
            final(self).document@ == r@,
            final(self).config.indent@ == old(self).config.indent@,
            final(page)@ == old(page)@,
    {
        let ghost rep = crate::ast::nodes_rep(page.nodes@);
        proof {
            lemma_nodes_rep(page.nodes@);
        }
        let n = page.nodes.len();
        let mut k: usize = 0;
        proof {
            assert(rep.subrange(0, n as int) =~= rep);
        }
        while k < n
            invariant
                k <= n,
                n == page.nodes@.len(),
                rep == crate::ast::nodes_rep(page.nodes@),
                rep.len() == n,
                forall|i: int| 0 <= i < n ==> rep[i] == node_rep(page.nodes@[i]),
                self.config.indent@ == old(self).config.indent@,
                old(self).document@ + md_nodes_out(rep, old(self).config.indent@)
                    == self.document@ + md_nodes_out(
                    rep.subrange(k as int, n as int),
                    old(self).config.indent@,
                ),
            decreases n - k,
        {
            let ghost tail = rep.subrange(k as int, n as int);
            proof {
                assert(tail[0] == rep[k as int]);
                assert(tail.subrange(1, tail.len() as int) =~= rep.subrange(
                    k as int + 1,
                    n as int,
                ));
            }
            self.visit_node(&page.nodes[k]);
            k = k + 1;
        }
        proof {
            assert(rep.subrange(n as int, n as int) =~= Seq::<NodeRep>::empty());
        }
        let out = self.document.clone();
        proof {
            assert(out@ =~= old(self).document@ + md_nodes_out(
                rep,
                old(self).config.indent@,
            ));
        }
        out
    }

    /// Prints one node, dispatching on its kind.
    pub fn visit_node(&mut self, value: &Node)
        ensures
            final(self).document@ == old(self).document@ + md_node_out(
                node_rep(*value),
                old(self).config.indent@,
            ),
            final(self).config.indent@ == old(self).config.indent@,
        decreases *value,
    {
        match &value.kind {
            NodeKind::Paragraph(v) => {
                proof {
                    assert(decreases_to!(*value => value.kind));
                }
                self.visit_paragraph(v);
            },
            NodeKind::List(v) => {
                proof {
                    assert(decreases_to!(*value => value.kind));
                }
                self.visit_list(v);
            },
            NodeKind::HashTag(v) => {
                self.visit_hashtag(v);
            },
            NodeKind::InternalLink(v) => {
                self.visit_internal_link(v);
            },
            NodeKind::ExternalLink(v) => {
                self.visit_external_link(v);
            },
            NodeKind::Emphasis(v) => {
                self.visit_emphasis(v);
            },
            NodeKind::Heading(v) => {
                self.visit_heading(v);
            },
            NodeKind::BlockQuate(v) => {
                self.visit_block_quate(v);
            },
            NodeKind::CodeBlock(v) => {
                self.visit_code_block(v);
            },
            NodeKind::Table(v) => {
                self.visit_table(v);
            },
            NodeKind::Image(v) => {
                self.visit_image(v);
            },
            NodeKind::Math(v) => {
                self.visit_math(v);
            },
            NodeKind::Text(v) => {
                self.visit_text(v);
            },
            NodeKind::Nop => {
                proof {
                    assert(old(self).document@ + md_node_out(
                        node_rep(*value),
                        old(self).config.indent@,
                    ) =~= old(self).document@);
                }
            },
        }
    }

    /// Prints the paragraph's children, then the line break.
    pub fn visit_paragraph(&mut self, value: &Paragraph)
        ensures
            final(self).document@ == old(self).document@ + md_nodes_out(
                crate::ast::nodes_rep(value.children@),
                old(self).config.indent@,
            ) + "\n"@,
            final(self).config.indent@ == old(self).config.indent@,
        decreases *value,
    {
        let ghost rep = crate::ast::nodes_rep(value.children@);
        proof {
            lemma_nodes_rep(value.children@);
            assert(rep.subrange(0, rep.len() as int) =~= rep);
        }
        let n = value.children.len();
        let mut k: usize = 0;
        while k < n
            invariant
                k <= n,
                n == value.children@.len(),
                rep == crate::ast::nodes_rep(value.children@),
                rep.len() == n,
                forall|i: int| 0 <= i < n ==> rep[i] == node_rep(value.children@[i]),
                self.config.indent@ == old(self).config.indent@,
                old(self).document@ + md_nodes_out(rep, old(self).config.indent@)
                    == self.document@ + md_nodes_out(
                    rep.subrange(k as int, n as int),
                    old(self).config.indent@,
                ),
            decreases n - k,
        {
            let ghost tail = rep.subrange(k as int, n as int);
            proof {
                assert(tail[0] == rep[k as int]);
                assert(tail.subrange(1, tail.len() as int) =~= rep.subrange(
                    k as int + 1,
                    n as int,
                ));
                assert(decreases_to!(*value => value.children));
                assert(decreases_to!(value.children => value.children@));
                assert(decreases_to!(value.children@ => value.children@[k as int]));
            }
            self.visit_node(&value.children[k]);
            k = k + 1;
        }
        proof {
            assert(rep.subrange(n as int, n as int) =~= Seq::<NodeRep>::empty());
        }
        self.document.append("\n");
        proof {
            assert(final(self).document@ =~= old(self).document@ + md_nodes_out(
                rep,
                old(self).config.indent@,
            ) + "\n"@);
        }
    }

    /// Prints every item: indent repeated by level, the marker, the item's
    /// children, a line break.
    pub fn visit_list(&mut self, value: &List)
        ensures
            final(self).document@ == old(self).document@ + md_items_out(
                crate::ast::items_rep(value.children@),
                old(self).config.indent@,
            ),
            final(self).config.indent@ == old(self).config.indent@,
        decreases *value,
    {
        let ghost rep = crate::ast::items_rep(value.children@);
        proof {
            lemma_items_rep(value.children@);
            assert(rep.subrange(0, rep.len() as int) =~= rep);
        }
        let n = value.children.len();
        let mut k: usize = 0;
        while k < n
            invariant
                k <= n,
                n == value.children@.len(),
                rep == crate::ast::items_rep(value.children@),
                rep.len() == n,
                forall|i: int| 0 <= i < n ==> rep[i] == item_rep(value.children@[i]),
                self.config.indent@ == old(self).config.indent@,
                old(self).document@ + md_items_out(rep, old(self).config.indent@)
                    == self.document@ + md_items_out(
                    rep.subrange(k as int, n as int),
                    old(self).config.indent@,
                ),
            decreases n - k,
        {
            let ghost tail = rep.subrange(k as int, n as int);
            proof {
                assert(tail[0] == rep[k as int]);
                assert(tail.subrange(1, tail.len() as int) =~= rep.subrange(
                    k as int + 1,
                    n as int,
                ));
            }
            let ghost doc0 = self.document@;
            let item = &value.children[k];
            // a level-0 item (as the Markdown grammar produces for an
            // unindented list) gets no indent rather than underflowing
            let dep = if item.level >= 1 {
                item.level - 1
            } else {
                0
            };
            match &item.kind {
                ListKind::Disc => {
                    crate::strutil::push_repeat(&mut self.document, self.config.indent.as_str(), dep);
                    self.document.append("* ");
                },
                ListKind::Decimal => {
                    crate::strutil::push_repeat(&mut self.document, self.config.indent.as_str(), dep);
                    self.document.append("1. ");
                },
                ListKind::Alphabet => {},
            }
            let ghost head_done = self.document@;
            let ghost crep = crate::ast::nodes_rep(item.children@);
            proof {
                lemma_nodes_rep(item.children@);
                assert(crep.subrange(0, crep.len() as int) =~= crep);
            }
            let cn = item.children.len();
            let mut j: usize = 0;
            while j < cn
                invariant
                    j <= cn,
                    k < n,
                    n == value.children@.len(),
                    item == value.children@[k as int],
                    cn == item.children@.len(),
                    crep == crate::ast::nodes_rep(item.children@),
                    crep.len() == cn,
                    forall|i: int| 0 <= i < cn ==> crep[i] == node_rep(item.children@[i]),
                    self.config.indent@ == old(self).config.indent@,
                    head_done + md_nodes_out(crep, old(self).config.indent@) == self.document@
                        + md_nodes_out(
                        crep.subrange(j as int, cn as int),
                        old(self).config.indent@,
                    ),
                decreases cn - j,
            {
                let ghost ctail = crep.subrange(j as int, cn as int);
                proof {
                    assert(ctail[0] == crep[j as int]);
                    assert(ctail.subrange(1, ctail.len() as int) =~= crep.subrange(
                        j as int + 1,
                        cn as int,
                    ));
                    assert(decreases_to!(*value => value.children));
                    assert(decreases_to!(value.children => value.children@));
                    assert(decreases_to!(value.children@ => value.children@[k as int]));
                    assert(decreases_to!(value.children@[k as int] =>
                        value.children@[k as int].children));
                    assert(decreases_to!(value.children@[k as int].children =>
                        value.children@[k as int].children@));
                    assert(decreases_to!(value.children@[k as int].children@ =>
                        value.children@[k as int].children@[j as int]));
                }
                self.visit_node(&item.children[j]);
                j = j + 1;
            }
            proof {
                assert(crep.subrange(cn as int, cn as int) =~= Seq::<NodeRep>::empty());
            }
            self.document.append("\n");
            k = k + 1;
            proof {
                assert(self.document@ =~= doc0 + md_item_out(
                    tail[0],
                    old(self).config.indent@,
                ));
                assert(old(self).document@ + md_items_out(rep, old(self).config.indent@)
                    =~= self.document@ + md_items_out(
                    rep.subrange(k as int, n as int),
                    old(self).config.indent@,
                ));
            }
        }
        proof {
            assert(rep.subrange(n as int, n as int) =~= Seq::<ItemRep>::empty());
        }
    }

    pub fn visit_hashtag(&mut self, value: &HashTag)
        ensures
            final(self).document@ == old(self).document@ + "#"@ + value.value@,
            final(self).config.indent@ == old(self).config.indent@,
    {
        self.document.append("#");
        self.document.append(value.value.as_str());
    }

    pub fn visit_internal_link(&mut self, value: &InternalLink)
        ensures
            final(self).document@ == old(self).document@ + ("[["@ + value.title@ + "]]"@),
            final(self).config.indent@ == old(self).config.indent@,
    {
        self.document.append("[[");
        self.document.append(value.title.as_str());
        self.document.append("]]");
        proof {
            assert(final(self).document@ =~= old(self).document@ + ("[["@ + value.title@
                + "]]"@));
        }
    }

    /// A titled link as `[title](url)`; a bare URL as itself, except that a
    /// known image-hosting page URL becomes an image embed with a fixed
    /// thumbnail suffix.
    pub fn visit_external_link(&mut self, value: &ExternalLink)
        ensures
            final(self).document@ == old(self).document@ + md_node_out(
                crate::scrapbox::nrep(KindRep::ExternalLink(value@.0, value@.1)),
                old(self).config.indent@,
            ),
            final(self).config.indent@ == old(self).config.indent@,
    {
        match &value.title {
            Some(title) => {
                self.document.append("[");
                self.document.append(title.as_str());
                self.document.append("](");
                self.document.append(value.url.as_str());
                self.document.append(")");
                proof {
                    assert(final(self).document@ =~= old(self).document@ + ("["@ + title@
                        + "]("@ + value.url@ + ")"@));
                }
            },
            None => {
                if crate::utils::prefix_at(value.url.as_str(), 0, "https://gyazo.com/") {
                    self.document.append("![](");
                    self.document.append(value.url.as_str());
                    self.document.append("/max_size/400)");
                    proof {
                        assert(final(self).document@ =~= old(self).document@ + ("![]("@
                            + value.url@ + "/max_size/400)"@));
                    }
                } else {
                    self.document.append(value.url.as_str());
                }
            },
        }
    }

    pub fn visit_emphasis(&mut self, value: &Emphasis)
        ensures
            final(self).document@ == old(self).document@ + md_emphasis_out(
                value.text@,
                value.bold as nat,
                value.italic as nat,
                value.strikethrough as nat,
            ),
            final(self).config.indent@ == old(self).config.indent@,
    {
        let mut tmp = dup_string(&value.text);
        if value.bold > 0 {
            tmp = String::from_str("**").concat(tmp.as_str()).concat("**");
        }
        if value.italic > 0 {
            tmp = String::from_str("*").concat(tmp.as_str()).concat("*");
        }
        if value.strikethrough > 0 {
            tmp = String::from_str("~~").concat(tmp.as_str()).concat("~~");
        }
        proof {
            assert(tmp@ =~= md_emphasis_out(
                value.text@,
                value.bold as nat,
                value.italic as nat,
                value.strikethrough as nat,
            ));
        }
        self.document.append(tmp.as_str());
    }

    pub fn visit_heading(&mut self, value: &Heading)
        ensures
            final(self).document@ == old(self).document@ + (crate::strutil::repeat_str(
                "#"@,
                value.level as nat,
            ) + " "@ + value.text@),
            final(self).config.indent@ == old(self).config.indent@,
    {
        crate::strutil::push_repeat(&mut self.document, "#", value.level);
        self.document.append(" ");
        self.document.append(value.text.as_str());
        proof {
            assert(final(self).document@ =~= old(self).document@ + (crate::strutil::repeat_str(
                "#"@,
                value.level as nat,
            ) + " "@ + value.text@));
        }
    }

    pub fn visit_block_quate(&mut self, value: &BlockQuate)
        ensures
            final(self).document@ == old(self).document@ + ("`"@ + value.value@ + "`"@),
            final(self).config.indent@ == old(self).config.indent@,
    {
        self.document.append("`");
        self.document.append(value.value.as_str());
        self.document.append("`");
        proof {
            assert(final(self).document@ =~= old(self).document@ + ("`"@ + value.value@
                + "`"@));
        }
    }

    pub fn visit_code_block(&mut self, value: &CodeBlock)
        ensures
            final(self).document@ == old(self).document@ + ("```"@ + value.file_name@ + "\n"@
                + md_lines_out(crate::ast::strs_rep(value.children@)) + "```\n"@),
            final(self).config.indent@ == old(self).config.indent@,
    {
        self.document.append("```");
        self.document.append(value.file_name.as_str());
        self.document.append("\n");
        let ghost rep = crate::ast::strs_rep(value.children@);
        let ghost mid = self.document@;
        let n = value.children.len();
        let mut k: usize = 0;
        proof {
            assert(rep.subrange(0, n as int) =~= rep);
        }
        while k < n
            invariant
                k <= n,
                n == value.children@.len(),
                rep == crate::ast::strs_rep(value.children@),
                rep.len() == n,
                self.config.indent@ == old(self).config.indent@,
                mid + md_lines_out(rep) == self.document@ + md_lines_out(
                    rep.subrange(k as int, n as int),
                ),
            decreases n - k,
        {
            let ghost tail = rep.subrange(k as int, n as int);
            proof {
                assert(tail[0] == rep[k as int]);
                assert(tail.subrange(1, tail.len() as int) =~= rep.subrange(
                    k as int + 1,
                    n as int,
                ));
            }
            self.document.append(value.children[k].as_str());
            self.document.append("\n");
            k = k + 1;
            proof {
                assert(self.document@ + md_lines_out(rep.subrange(k as int, n as int)) =~= mid
                    + md_lines_out(rep));
            }
        }
        proof {
            assert(rep.subrange(n as int, n as int) =~= Seq::<Seq<char>>::empty());
        }
        self.document.append("```\n");
        proof {
            assert(final(self).document@ =~= old(self).document@ + ("```"@ + value.file_name@
                + "\n"@ + md_lines_out(rep) + "```\n"@));
        }
    }

    /// Header, separator row, then data rows up to the first empty one; a
    /// table with an empty header prints nothing.
    pub fn visit_table(&mut self, value: &Table)
        ensures
            final(self).document@ == old(self).document@ + md_table_out(
                crate::ast::strs_rep(value.header@),
                crate::ast::rows_rep(value.rows@),
            ),
            final(self).config.indent@ == old(self).config.indent@,
    {
        let ghost hrep = crate::ast::strs_rep(value.header@);
        let ghost rrep = crate::ast::rows_rep(value.rows@);
        if value.header.len() == 0 {
            proof {
                assert(old(self).document@ + md_table_out(hrep, rrep) =~= old(self).document@);
            }
            return ;
        }
        self.document.append("| ");
        crate::strutil::push_join(&mut self.document, &value.header, " | ");
        self.document.append(" |");
        self.document.append("\n");
        let ghost after_header = self.document@;
        proof {
            assert(after_header =~= old(self).document@ + md_row_out(hrep));
        }
        // the separator row: one `---` per header cell
        self.document.append("| ");
        self.document.append("---");
        let hn = value.header.len();
        let mut k: usize = 1;
        proof {
            lemma_sep_cells(hn as nat);
            assert(sep_cells(hn as nat).subrange(1, hn as int) =~= sep_cells((hn - 1) as nat));
            assert(self.document@ + crate::strutil::join_tail(
                sep_cells((hn - k) as nat),
                " | "@,
            ) =~= after_header + "| "@ + crate::strutil::join_strs(sep_cells(hn as nat), " | "@));
        }
        while k < hn
            invariant
                1 <= k <= hn,
                self.config.indent@ == old(self).config.indent@,
                self.document@ + crate::strutil::join_tail(sep_cells((hn - k) as nat), " | "@)
                    == after_header + "| "@ + crate::strutil::join_strs(
                    sep_cells(hn as nat),
                    " | "@,
                ),
            decreases hn - k,
        {
            self.document.append(" | ");
            self.document.append("---");
            k = k + 1;
            proof {
                lemma_sep_cells((hn - k + 1) as nat);
                assert(sep_cells((hn - k + 1) as nat).subrange(
                    1,
                    (hn - k + 1) as int,
                ) =~= sep_cells((hn - k) as nat));
                assert(self.document@ + crate::strutil::join_tail(
                    sep_cells((hn - k) as nat),
                    " | "@,
                ) =~= after_header + "| "@ + crate::strutil::join_strs(
                    sep_cells(hn as nat),
                    " | "@,
                ));
            }
        }
        proof {
            assert(crate::strutil::join_tail(sep_cells(0), " | "@) =~= Seq::<char>::empty());
            assert(self.document@ =~= after_header + "| "@ + crate::strutil::join_strs(
                sep_cells(hn as nat),
                " | "@,
            ));
        }
        self.document.append(" |");
        self.document.append("\n");
        proof {
            assert(self.document@ =~= after_header + md_row_out(sep_cells(hn as nat)));
        }
        self.print_rows(&value.rows, 0);
        proof {
            assert(final(self).document@ =~= old(self).document@ + md_table_out(hrep, rrep));
        }
    }

    /// Prints the data rows from `k` on, stopping at the first empty row.
    fn print_rows(&mut self, rows: &Vec<Vec<String>>, k: usize)
        requires
            k <= rows@.len(),
        ensures
            final(self).document@ == old(self).document@ + md_rows_from(
                crate::ast::rows_rep(rows@),
                k as int,
            ),
            final(self).config.indent@ == old(self).config.indent@,
        decreases rows@.len() - k,
    {
        let ghost rrep = crate::ast::rows_rep(rows@);
        if k == rows.len() {
            proof {
                assert(old(self).document@ + md_rows_from(rrep, k as int)
                    =~= old(self).document@);
            }
            return ;
        }
        if rows[k].len() == 0 {
            proof {
                assert(rrep[k as int].len() == 0);
                assert(old(self).document@ + md_rows_from(rrep, k as int)
                    =~= old(self).document@);
            }
            return ;
        }
        self.document.append("| ");
        crate::strutil::push_join(&mut self.document, &rows[k], " | ");
        self.document.append(" |");
        self.document.append("\n");
        proof {
            assert(self.document@ =~= old(self).document@ + md_row_out(rrep[k as int]));
        }
        self.print_rows(rows, k + 1);
        proof {
            assert(final(self).document@ =~= old(self).document@ + md_rows_from(
                rrep,
                k as int,
            ));
        }
    }

    pub fn visit_image(&mut self, value: &Image)
        ensures
            final(self).document@ == old(self).document@ + ("![]("@ + value.uri@ + ")"@),
            final(self).config.indent@ == old(self).config.indent@,
    {
        self.document.append("![](");
        self.document.append(value.uri.as_str());
        self.document.append(")");
        proof {
            assert(final(self).document@ =~= old(self).document@ + ("![]("@ + value.uri@
                + ")"@));
        }
    }

    pub fn visit_math(&mut self, value: &Math)
        ensures
            final(self).document@ == old(self).document@ + ("$$"@ + value.value@ + "$$"@),
            final(self).config.indent@ == old(self).config.indent@,
    {
        self.document.append("$$");
        self.document.append(value.value.as_str());
        self.document.append("$$");
        proof {
            assert(final(self).document@ =~= old(self).document@ + ("$$"@ + value.value@
                + "$$"@));
        }
    }

    pub fn visit_text(&mut self, value: &Text)
        ensures
            final(self).document@ == old(self).document@ + value.value@,
            final(self).config.indent@ == old(self).config.indent@,
    {
        self.document.append(value.value.as_str());
    }
}

} // verus!
