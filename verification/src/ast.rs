//! The shared document tree produced by both grammars, together with its
//! mathematical model: every node type has a view made of `Seq` and `nat`
//! values, which the parser, pass and printer contracts speak about.
use vstd::prelude::*;

verus! {

broadcast use vstd::seq::group_seq_axioms, vstd::std_specs::vec::group_vec_axioms;

/// Root of a document: an ordered sequence of top-level nodes.
#[derive(Debug, PartialEq)]
pub struct Page {
    pub nodes: Vec<Node>,
}

/// One tree node: an identifier (a placeholder until a later phase assigns
/// real ones) and the tagged union of the node kinds.
#[derive(Debug, PartialEq)]
pub struct Node {
    pub id: NodeId,
    pub kind: NodeKind,
}

#[derive(Debug, Clone, Copy, PartialEq, Eq, PartialOrd, Hash)]
pub struct NodeId(pub usize);

#[derive(Debug, PartialEq)]
pub enum NodeKind {
    Paragraph(Paragraph),
    List(List),
    HashTag(HashTag),
    InternalLink(InternalLink),
    ExternalLink(ExternalLink),
    Emphasis(Emphasis),
    Heading(Heading),
    BlockQuate(BlockQuate),
    CodeBlock(CodeBlock),
    Table(Table),
    Image(Image),
    Math(Math),
    Text(Text),
    Nop,
}

#[derive(Debug, PartialEq)]
pub struct Paragraph {
    pub children: Vec<Node>,
}

#[derive(Debug, PartialEq)]
pub struct List {
    pub children: Vec<ListItem>,
}

#[derive(Debug, Clone, PartialEq)]
pub enum ListKind {
    Disc,
    Decimal,
    Alphabet,
}

#[derive(Debug, PartialEq)]
pub struct ListItem {
    pub kind: ListKind,
    pub level: usize,
    pub children: Vec<Node>,
}

#[derive(Debug, Clone, PartialEq, Default)]
pub struct HashTag {
    pub value: String,
}

#[derive(Debug, Clone, PartialEq)]
pub struct BlockQuate {
    pub value: String,
}

#[derive(Debug, Clone, PartialEq)]
pub struct CodeBlock {
    pub file_name: String,
    pub children: Vec<String>,
}

#[derive(Debug, Clone, PartialEq)]
pub struct Table {
    pub name: String,
    pub header: Vec<String>,
    pub rows: Vec<Vec<String>>,
}

#[derive(Debug, Clone, PartialEq, Default)]
pub struct Text {
    pub value: String,
}

#[derive(Debug, Clone, PartialEq, Default)]
pub struct InternalLink {
    pub title: String,
}

#[derive(Debug, Clone, PartialEq, Default)]
pub struct ExternalLink {
    pub title: Option<String>,
    pub url: String,
}

#[derive(Debug, Clone, PartialEq, Default)]
pub struct Heading {
    pub text: String,
    pub level: usize,
}

#[derive(Debug, Clone, PartialEq, Default)]
pub struct Emphasis {
    pub text: String,
    pub bold: usize,
    pub italic: usize,
    pub strikethrough: usize,
}

#[derive(Debug, Clone, PartialEq, Default)]
pub struct Image {
    pub uri: String,
}

#[derive(Debug, Clone, PartialEq, Default)]
pub struct Math {
    pub value: String,
}

/// "<tag>", "<tag />", "</tag>"
#[derive(Debug, Clone, PartialEq, Default)]
pub struct HtmlTag {
    pub value: String,
}

// ---------------------------------------------------------------------------
// Views
// ---------------------------------------------------------------------------
/// Model of a node: the identifier and the kind, with all text as `Seq<char>`.
pub struct NodeRep {
    pub id: nat,
    pub kind: KindRep,
}

/// Model of a list item.
pub struct ItemRep {
    pub kind: ListKind,
    pub level: nat,
    pub children: Seq<NodeRep>,
}

/// Model of the tagged union of node kinds.
pub enum KindRep {
    Paragraph(Seq<NodeRep>),
    List(Seq<ItemRep>),
    HashTag(Seq<char>),
    InternalLink(Seq<char>),
    ExternalLink(Option<Seq<char>>, Seq<char>),
    Emphasis(Seq<char>, nat, nat, nat),
    Heading(Seq<char>, nat),
    BlockQuate(Seq<char>),
    CodeBlock(Seq<char>, Seq<Seq<char>>),
    Table(Seq<char>, Seq<Seq<char>>, Seq<Seq<Seq<char>>>),
    Image(Seq<char>),
    Math(Seq<char>),
    Text(Seq<char>),
    Nop,
}

pub open spec fn node_rep(n: Node) -> NodeRep
    decreases n,
{
    NodeRep { id: n.id.0 as nat, kind: kind_rep(n.kind) }
}

pub open spec fn kind_rep(k: NodeKind) -> KindRep
    decreases k,
    via kind_rep_decreases
{
    match k {
        NodeKind::Paragraph(p) => KindRep::Paragraph(nodes_rep(p.children@)),
        NodeKind::List(l) => KindRep::List(items_rep(l.children@)),
        NodeKind::HashTag(h) => KindRep::HashTag(h.value@),
        NodeKind::InternalLink(l) => KindRep::InternalLink(l.title@),
        NodeKind::ExternalLink(l) => KindRep::ExternalLink(
            match l.title {
                Some(t) => Some(t@),
                None => None,
            },
            l.url@,
        ),
        NodeKind::Emphasis(e) => KindRep::Emphasis(
            e.text@,
            e.bold as nat,
            e.italic as nat,
            e.strikethrough as nat,
        ),
        NodeKind::Heading(h) => KindRep::Heading(h.text@, h.level as nat),
        NodeKind::BlockQuate(b) => KindRep::BlockQuate(b.value@),
        NodeKind::CodeBlock(c) => KindRep::CodeBlock(c.file_name@, strs_rep(c.children@)),
        NodeKind::Table(t) => KindRep::Table(
            t.name@,
            strs_rep(t.header@),
            rows_rep(t.rows@),
        ),
        NodeKind::Image(i) => KindRep::Image(i.uri@),
        NodeKind::Math(m) => KindRep::Math(m.value@),
        NodeKind::Text(t) => KindRep::Text(t.value@),
        NodeKind::Nop => KindRep::Nop,
    }
}

#[via_fn]
proof fn kind_rep_decreases(k: NodeKind) {
    match k {
        NodeKind::Paragraph(p) => {
            assert(decreases_to!(k => p));
            assert(decreases_to!(p => p.children));
            assert(decreases_to!(p.children => p.children@));
        },
        NodeKind::List(l) => {
            assert(decreases_to!(k => l));
            assert(decreases_to!(l => l.children));
            assert(decreases_to!(l.children => l.children@));
        },
        _ => {},
    }
}

pub open spec fn item_rep(it: ListItem) -> ItemRep
    decreases it,
    via item_rep_decreases
{
    ItemRep {
        kind: it.kind,
        level: it.level as nat,
        children: nodes_rep(it.children@),
    }
}

#[via_fn]
proof fn item_rep_decreases(it: ListItem) {
    assert(decreases_to!(it => it.children));
    assert(decreases_to!(it.children => it.children@));
}

pub open spec fn row_rep(r: Vec<String>) -> Seq<Seq<char>> {
    strs_rep(r@)
}

/// Pointwise view of a sequence of strings.
pub open spec fn strs_rep(v: Seq<String>) -> Seq<Seq<char>> {
    Seq::new(v.len(), |i: int| v[i]@)
}

/// Pointwise view of a sequence of table rows.
pub open spec fn rows_rep(v: Seq<Vec<String>>) -> Seq<Seq<Seq<char>>> {
    Seq::new(v.len(), |i: int| row_rep(v[i]))
}

pub proof fn lemma_strs_rep_push(v: Seq<String>, x: String)
    ensures
        strs_rep(v.push(x)) =~= strs_rep(v).push(x@),
{
}

pub proof fn lemma_rows_rep_push(v: Seq<Vec<String>>, x: Vec<String>)
    ensures
        rows_rep(v.push(x)) =~= rows_rep(v).push(row_rep(x)),
{
}

pub proof fn lemma_nodes_rep_cons(v: Seq<Node>, x: Node)
    ensures
        nodes_rep(v.insert(0, x)) =~= seq![node_rep(x)] + nodes_rep(v),
{
    lemma_nodes_rep(v.insert(0, x));
    lemma_nodes_rep(v);
}

pub proof fn lemma_items_rep_cons(v: Seq<ListItem>, x: ListItem)
    ensures
        items_rep(v.insert(0, x)) =~= seq![item_rep(x)] + items_rep(v),
{
    lemma_items_rep(v.insert(0, x));
    lemma_items_rep(v);
}

pub proof fn lemma_nodes_rep_push(v: Seq<Node>, x: Node)
    ensures
        nodes_rep(v.push(x)) =~= nodes_rep(v).push(node_rep(x)),
{
    lemma_nodes_rep(v.push(x));
    lemma_nodes_rep(v);
}

pub proof fn lemma_items_rep_push(v: Seq<ListItem>, x: ListItem)
    ensures
        items_rep(v.push(x)) =~= items_rep(v).push(item_rep(x)),
{
    lemma_items_rep(v.push(x));
    lemma_items_rep(v);
}

pub open spec fn nodes_rep(v: Seq<Node>) -> Seq<NodeRep>
    decreases v,
{
    if v.len() == 0 {
        Seq::empty()
    } else {
        seq![node_rep(v[0])] + nodes_rep(v.subrange(1, v.len() as int))
    }
}

pub open spec fn items_rep(v: Seq<ListItem>) -> Seq<ItemRep>
    decreases v,
{
    if v.len() == 0 {
        Seq::empty()
    } else {
        seq![item_rep(v[0])] + items_rep(v.subrange(1, v.len() as int))
    }
}

/// The model of a node sequence is the pointwise model of its elements.
pub broadcast proof fn lemma_nodes_rep(v: Seq<Node>)
    ensures
        (#[trigger] nodes_rep(v)).len() == v.len(),
        forall|i: int| 0 <= i < v.len() ==> nodes_rep(v)[i] == node_rep(v[i]),
    decreases v,
{
    if v.len() > 0 {
        lemma_nodes_rep(v.subrange(1, v.len() as int));
    }
}

/// The model of an item sequence is the pointwise model of its elements.
pub broadcast proof fn lemma_items_rep(v: Seq<ListItem>)
    ensures
        (#[trigger] items_rep(v)).len() == v.len(),
        forall|i: int| 0 <= i < v.len() ==> items_rep(v)[i] == item_rep(v[i]),
    decreases v,
{
    if v.len() > 0 {
        lemma_items_rep(v.subrange(1, v.len() as int));
    }
}

impl View for Page {
    type V = Seq<NodeRep>;

    open spec fn view(&self) -> Seq<NodeRep> {
        nodes_rep(self.nodes@)
    }
}

impl View for Node {
    type V = NodeRep;

    open spec fn view(&self) -> NodeRep {
        node_rep(*self)
    }
}

impl View for NodeKind {
    type V = KindRep;

    open spec fn view(&self) -> KindRep {
        kind_rep(*self)
    }
}

impl View for ListItem {
    type V = ItemRep;

    open spec fn view(&self) -> ItemRep {
        item_rep(*self)
    }
}

impl View for Paragraph {
    type V = Seq<NodeRep>;

    open spec fn view(&self) -> Seq<NodeRep> {
        nodes_rep(self.children@)
    }
}

impl View for List {
    type V = Seq<ItemRep>;

    open spec fn view(&self) -> Seq<ItemRep> {
        items_rep(self.children@)
    }
}

impl View for HashTag {
    type V = Seq<char>;

    open spec fn view(&self) -> Seq<char> {
        self.value@
    }
}

impl View for BlockQuate {
    type V = Seq<char>;

    open spec fn view(&self) -> Seq<char> {
        self.value@
    }
}

impl View for Text {
    type V = Seq<char>;

    open spec fn view(&self) -> Seq<char> {
        self.value@
    }
}

impl View for InternalLink {
    type V = Seq<char>;

    open spec fn view(&self) -> Seq<char> {
        self.title@
    }
}

impl View for Image {
    type V = Seq<char>;

    open spec fn view(&self) -> Seq<char> {
        self.uri@
    }
}

impl View for Math {
    type V = Seq<char>;

    open spec fn view(&self) -> Seq<char> {
        self.value@
    }
}

impl View for HtmlTag {
    type V = Seq<char>;

    open spec fn view(&self) -> Seq<char> {
        self.value@
    }
}

impl View for ExternalLink {
    type V = (Option<Seq<char>>, Seq<char>);

    open spec fn view(&self) -> (Option<Seq<char>>, Seq<char>) {
        (
            match self.title {
                Some(t) => Some(t@),
                None => None,
            },
            self.url@,
        )
    }
}

impl View for Heading {
    type V = (Seq<char>, nat);

    open spec fn view(&self) -> (Seq<char>, nat) {
        (self.text@, self.level as nat)
    }
}

impl View for Emphasis {
    type V = (Seq<char>, nat, nat, nat);

    open spec fn view(&self) -> (Seq<char>, nat, nat, nat) {
        (self.text@, self.bold as nat, self.italic as nat, self.strikethrough as nat)
    }
}

impl View for CodeBlock {
    type V = (Seq<char>, Seq<Seq<char>>);

    open spec fn view(&self) -> (Seq<char>, Seq<Seq<char>>) {
        (self.file_name@, strs_rep(self.children@))
    }
}

impl View for Table {
    type V = (Seq<char>, Seq<Seq<char>>, Seq<Seq<Seq<char>>>);

    open spec fn view(&self) -> (Seq<char>, Seq<Seq<char>>, Seq<Seq<Seq<char>>>) {
        (self.name@, strs_rep(self.header@), rows_rep(self.rows@))
    }
}

// ---------------------------------------------------------------------------
// Well-formedness: list levels are 1-based
// ---------------------------------------------------------------------------
/// Every list item anywhere below this node has a level of at least one,
/// as the Scrapbox grammar guarantees; the Markdown printer's indent
/// repetition relies on it.
pub open spec fn levels_ok_node(n: NodeRep) -> bool
    decreases n,
{
    match n.kind {
        KindRep::Paragraph(ch) => levels_ok_nodes(ch),
        KindRep::List(items) => levels_ok_items(items),
        _ => true,
    }
}

pub open spec fn levels_ok_nodes(v: Seq<NodeRep>) -> bool
    decreases v,
{
    if v.len() == 0 {
        true
    } else {
        levels_ok_node(v[0]) && levels_ok_nodes(v.subrange(1, v.len() as int))
    }
}

pub open spec fn levels_ok_items(items: Seq<ItemRep>) -> bool
    decreases items,
{
    if items.len() == 0 {
        true
    } else {
        items[0].level >= 1 && levels_ok_nodes(items[0].children) && levels_ok_items(
            items.subrange(1, items.len() as int),
        )
    }
}

/// The node sequence is well formed exactly when each node is.
pub proof fn lemma_levels_ok_nodes(v: Seq<NodeRep>)
    ensures
        levels_ok_nodes(v) <==> (forall|i: int| 0 <= i < v.len() ==> levels_ok_node(v[i])),
    decreases v,
{
    if v.len() > 0 {
        let rest = v.subrange(1, v.len() as int);
        lemma_levels_ok_nodes(rest);
        assert forall|i: int| 1 <= i < v.len() implies v[i] == rest[i - 1] by {}
        if levels_ok_nodes(v) {
            assert forall|i: int| 0 <= i < v.len() implies levels_ok_node(v[i]) by {
                if i > 0 {
                    assert(v[i] == rest[i - 1]);
                }
            }
        } else {
            if levels_ok_node(v[0]) {
                let bad = choose|i: int| 0 <= i < rest.len() && !levels_ok_node(rest[i]);
                assert(v[bad + 1] == rest[bad]);
            }
        }
    }
}

/// The item sequence is well formed exactly when each item is.
pub proof fn lemma_levels_ok_items(items: Seq<ItemRep>)
    ensures
        levels_ok_items(items) <==> (forall|i: int|
            0 <= i < items.len() ==> items[i].level >= 1 && levels_ok_nodes(items[i].children)),
    decreases items,
{
    if items.len() > 0 {
        let rest = items.subrange(1, items.len() as int);
        lemma_levels_ok_items(rest);
        if levels_ok_items(items) {
            assert forall|i: int| 0 <= i < items.len() implies items[i].level >= 1
                && levels_ok_nodes(items[i].children) by {
                if i > 0 {
                    assert(items[i] == rest[i - 1]);
                }
            }
        } else {
            if items[0].level >= 1 && levels_ok_nodes(items[0].children) {
                let bad = choose|i: int|
                    0 <= i < rest.len() && !(rest[i].level >= 1 && levels_ok_nodes(
                        rest[i].children,
                    ));
                assert(items[bad + 1] == rest[bad]);
            }
        }
    }
}

// ---------------------------------------------------------------------------
// Structure-preserving copies
// ---------------------------------------------------------------------------
pub fn dup_string(s: &String) -> (r: String)
    ensures
        r@ == s@,
{
    s.as_str().to_owned()
}

pub fn dup_strings(v: &Vec<String>) -> (r: Vec<String>)
    ensures
        strs_rep(r@) == strs_rep(v@),
        r@.len() == v@.len(),
{
    let mut out: Vec<String> = Vec::new();
    let mut k: usize = 0;
    while k < v.len()
        invariant
            k <= v@.len(),
            out@.len() == k,
            forall|i: int| 0 <= i < k ==> out@[i]@ == v@[i]@,
        decreases v@.len() - k,
    {
        out.push(v[k].as_str().to_owned());
        k = k + 1;
    }
    proof {
        assert(strs_rep(out@) =~= strs_rep(v@));
    }
    out
}

pub fn dup_node(n: &Node) -> (r: Node)
    ensures
        r@ == n@,
    decreases *n,
{
    Node { id: n.id, kind: dup_kind(&n.kind) }
}

pub fn dup_kind(k: &NodeKind) -> (r: NodeKind)
    ensures
        kind_rep(r) == kind_rep(*k),
    decreases *k,
{
    match k {
        NodeKind::Paragraph(p) => {
            proof {
                assert(decreases_to!(*k => *p));
                assert(decreases_to!(*p => p.children));
                assert(decreases_to!(p.children => p.children@));
            }
            NodeKind::Paragraph(Paragraph { children: dup_nodes(&p.children) })
        },
        NodeKind::List(l) => {
            proof {
                assert(decreases_to!(*k => *l));
                assert(decreases_to!(*l => l.children));
                assert(decreases_to!(l.children => l.children@));
            }
            NodeKind::List(List { children: dup_items(&l.children) })
        },
        NodeKind::HashTag(h) => NodeKind::HashTag(HashTag { value: dup_string(&h.value) }),
        NodeKind::InternalLink(l) => NodeKind::InternalLink(
            InternalLink { title: dup_string(&l.title) },
        ),
        NodeKind::ExternalLink(l) => NodeKind::ExternalLink(
            ExternalLink {
                title: match &l.title {
                    Some(t) => Some(dup_string(t)),
                    None => None,
                },
                url: dup_string(&l.url),
            },
        ),
        NodeKind::Emphasis(e) => NodeKind::Emphasis(
            Emphasis {
                text: dup_string(&e.text),
                bold: e.bold,
                italic: e.italic,
                strikethrough: e.strikethrough,
            },
        ),
        NodeKind::Heading(h) => NodeKind::Heading(
            Heading { text: dup_string(&h.text), level: h.level },
        ),
        NodeKind::BlockQuate(b) => NodeKind::BlockQuate(
            BlockQuate { value: dup_string(&b.value) },
        ),
        NodeKind::CodeBlock(c) => NodeKind::CodeBlock(
            CodeBlock { file_name: dup_string(&c.file_name), children: dup_strings(&c.children) },
        ),
        NodeKind::Table(t) => {
            let mut rows: Vec<Vec<String>> = Vec::new();
            let mut k2: usize = 0;
            while k2 < t.rows.len()
                invariant
                    k2 <= t.rows@.len(),
                    rows@.len() == k2,
                    forall|i: int| 0 <= i < k2 ==> row_rep(rows@[i]) == row_rep(t.rows@[i]),
                decreases t.rows@.len() - k2,
            {
                rows.push(dup_strings(&t.rows[k2]));
                k2 = k2 + 1;
            }
            proof {
                assert(rows_rep(rows@) =~= rows_rep(t.rows@));
            }
            NodeKind::Table(
                Table {
                    name: dup_string(&t.name),
                    header: dup_strings(&t.header),
                    rows,
                },
            )
        },
        NodeKind::Image(i) => NodeKind::Image(Image { uri: dup_string(&i.uri) }),
        NodeKind::Math(m) => NodeKind::Math(Math { value: dup_string(&m.value) }),
        NodeKind::Text(t) => NodeKind::Text(Text { value: dup_string(&t.value) }),
        NodeKind::Nop => NodeKind::Nop,
    }
}

pub fn dup_nodes(v: &Vec<Node>) -> (r: Vec<Node>)
    ensures
        nodes_rep(r@) == nodes_rep(v@),
        r@.len() == v@.len(),
    decreases v@,
{
    let mut out: Vec<Node> = Vec::new();
    let mut k: usize = 0;
    while k < v.len()
        invariant
            k <= v@.len(),
            out@.len() == k,
            forall|i: int| 0 <= i < k ==> node_rep(out@[i]) == node_rep(v@[i]),
        decreases v@.len() - k,
    {
        proof {
            assert(decreases_to!(v@ => v@[k as int]));
        }
        out.push(dup_node(&v[k]));
        k = k + 1;
    }
    proof {
        lemma_nodes_rep(out@);
        lemma_nodes_rep(v@);
        assert(nodes_rep(out@) =~= nodes_rep(v@));
    }
    out
}

pub fn dup_item(it: &ListItem) -> (r: ListItem)
    ensures
        r@ == it@,
    decreases *it,
{
    proof {
        assert(decreases_to!(*it => it.children));
        assert(decreases_to!(it.children => it.children@));
    }
    ListItem {
        kind: match it.kind {
            ListKind::Disc => ListKind::Disc,
            ListKind::Decimal => ListKind::Decimal,
            ListKind::Alphabet => ListKind::Alphabet,
        },
        level: it.level,
        children: dup_nodes(&it.children),
    }
}

pub fn dup_items(v: &Vec<ListItem>) -> (r: Vec<ListItem>)
    ensures
        items_rep(r@) == items_rep(v@),
        r@.len() == v@.len(),
    decreases v@,
{
    let mut out: Vec<ListItem> = Vec::new();
    let mut k: usize = 0;
    while k < v.len()
        invariant
            k <= v@.len(),
            out@.len() == k,
            forall|i: int| 0 <= i < k ==> item_rep(out@[i]) == item_rep(v@[i]),
        decreases v@.len() - k,
    {
        proof {
            assert(decreases_to!(v@ => v@[k as int]));
        }
        out.push(dup_item(&v[k]));
        k = k + 1;
    }
    proof {
        lemma_items_rep(out@);
        lemma_items_rep(v@);
        assert(items_rep(out@) =~= items_rep(v@));
    }
    out
}

// ---------------------------------------------------------------------------
// Constructors
// ---------------------------------------------------------------------------
/// When parsing, every node is given this placeholder identifier; a later
/// phase is meant to assign real unique ones.
pub open spec fn dummy_id() -> nat {
    0
}

impl Node {
    pub fn new(kind: NodeKind) -> (r: Self)
        ensures
            r@.id == dummy_id(),
            r@.kind == kind@,
    {
        Self { id: NodeId(0), kind }
    }
}

impl Paragraph {
    pub fn new(children: Vec<Node>) -> (r: Self)
        ensures
            r.children@ == children@,
    {
        Self { children }
    }
}

impl List {
    pub fn new(children: Vec<ListItem>) -> (r: Self)
        ensures
            r.children@ == children@,
    {
        Self { children }
    }
}

impl ListItem {
    pub fn new(kind: ListKind, level: usize, children: Vec<Node>) -> (r: Self)
        ensures
            r.kind == kind,
            r.level == level,
            r.children@ == children@,
    {
        Self { kind, level, children }
    }

    pub fn disc(level: usize, children: Vec<Node>) -> (r: Self)
        ensures
            r.kind == ListKind::Disc,
            r.level == level,
            r.children@ == children@,
    {
        Self { kind: ListKind::Disc, level, children }
    }

    pub fn decimal(level: usize, children: Vec<Node>) -> (r: Self)
        ensures
            r.kind == ListKind::Decimal,
            r.level == level,
            r.children@ == children@,
    {
        Self { kind: ListKind::Decimal, level, children }
    }

    pub fn alphabet(level: usize, children: Vec<Node>) -> (r: Self)
        ensures
            r.kind == ListKind::Alphabet,
            r.level == level,
            r.children@ == children@,
    {
        Self { kind: ListKind::Alphabet, level, children }
    }
}

impl HashTag {
    pub fn new(value: &str) -> (r: Self)
        ensures
            r.value@ == value@,
    {
        Self { value: value.to_owned() }
    }
}

impl BlockQuate {
    pub fn new(value: &str) -> (r: Self)
        ensures
            r.value@ == value@,
    {
        Self { value: value.to_owned() }
    }
}

impl CodeBlock {
    pub fn new(file_name: &str, children: Vec<&str>) -> (r: Self)
        ensures
            r.file_name@ == file_name@,
            r.children@.len() == children@.len(),
            forall|i: int| 0 <= i < children@.len() ==> r.children@[i]@ == children@[i]@,
    {
        let mut lines: Vec<String> = Vec::new();
        let mut k: usize = 0;
        while k < children.len()
            invariant
                k <= children.len(),
                lines@.len() == k,
                forall|i: int| 0 <= i < k ==> lines@[i]@ == children@[i]@,
            decreases children.len() - k,
        {
            lines.push(children[k].to_owned());
            k = k + 1;
        }
        Self { file_name: file_name.to_owned(), children: lines }
    }
}

impl Table {
    pub fn new(name: &str, header: Vec<String>, rows: Vec<Vec<String>>) -> (r: Self)
        ensures
            r.name@ == name@,
            r.header@ == header@,
            r.rows@ == rows@,
    {
        Self { name: name.to_owned(), header, rows }
    }
}

impl Text {
    pub fn new(value: &str) -> (r: Self)
        ensures
            r.value@ == value@,
    {
        Self { value: value.to_owned() }
    }
}

impl InternalLink {
    pub fn new(title: &str) -> (r: Self)
        ensures
            r.title@ == title@,
    {
        Self { title: title.to_owned() }
    }
}

impl ExternalLink {
    pub fn new(title: Option<&str>, url: &str) -> (r: Self)
        ensures
            r.url@ == url@,
            title is Some ==> r.title is Some && r.title->0@ == title->0@,
            title is None ==> r.title is None,
    {
        let t = match title {
            Some(t) => Some(t.to_owned()),
            None => None,
        };
        Self { title: t, url: url.to_owned() }
    }
}

impl Heading {
    pub fn new(text: &str, level: usize) -> (r: Self)
        ensures
            r.text@ == text@,
            r.level == level,
    {
        Self { text: text.to_owned(), level }
    }
}

impl Emphasis {
    pub fn new(text: &str, bold: usize, italic: usize, strikethrough: usize) -> (r: Self)
        ensures
            r.text@ == text@,
            r.bold == bold,
            r.italic == italic,
            r.strikethrough == strikethrough,
    {
        Self { text: text.to_owned(), bold, italic, strikethrough }
    }

    pub fn bold(text: &str) -> (r: Self)
        ensures
            r.text@ == text@,
            r.bold == 1,
            r.italic == 0,
            r.strikethrough == 0,
    {
        Self { text: text.to_owned(), bold: 1, italic: 0, strikethrough: 0 }
    }

    pub fn bold_level(text: &str, level: usize) -> (r: Self)
        ensures
            r.text@ == text@,
            r.bold == level,
            r.italic == 0,
            r.strikethrough == 0,
    {
        Self { text: text.to_owned(), bold: level, italic: 0, strikethrough: 0 }
    }

    pub fn italic(text: &str) -> (r: Self)
        ensures
            r.text@ == text@,
            r.bold == 0,
            r.italic == 1,
            r.strikethrough == 0,
    {
        Self { text: text.to_owned(), bold: 0, italic: 1, strikethrough: 0 }
    }

    pub fn strikethrough(text: &str) -> (r: Self)
        ensures
            r.text@ == text@,
            r.bold == 0,
            r.italic == 0,
            r.strikethrough == 1,
    {
        Self { text: text.to_owned(), bold: 0, italic: 0, strikethrough: 1 }
    }
}

impl Image {
    pub fn new(uri: &str) -> (r: Self)
        ensures
            r.uri@ == uri@,
    {
        Self { uri: uri.to_owned() }
    }
}

impl Math {
    pub fn new(value: &str) -> (r: Self)
        ensures
            r.value@ == value@,
    {
        Self { value: value.to_owned() }
    }
}

impl HtmlTag {
    pub fn new(value: &str) -> (r: Self)
        ensures
            r.value@ == value@,
    {
        Self { value: value.to_owned() }
    }
}

} // verus!
