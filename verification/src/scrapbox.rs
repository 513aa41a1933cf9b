//! Grammar of the Scrapbox-like dialect: paragraphs, indentation-sensitive
//! nested lists, `code:` and `table:` blocks, and bracket-based inline
//! markup.  Every rule's executable parser returns exactly what its
//! specification twin computes on the view of the input.
use vstd::prelude::*;

use crate::ast::BlockQuate;
use crate::ast::CodeBlock;
use crate::ast::Emphasis;
use crate::ast::ExternalLink;
use crate::ast::InternalLink;
use crate::ast::KindRep;
use crate::ast::Math;
use crate::ast::NodeRep;
use crate::ast::Table;
use crate::ast::Image;
use crate::ast::ItemRep;
use crate::ast::List;
use crate::ast::ListItem;
use crate::ast::ListKind;
use crate::ast::Node;
use crate::ast::NodeKind;
use crate::ast::Page;
use crate::ast::Paragraph;
use crate::ast::items_rep;
use crate::ast::nodes_rep;
use crate::ast::strs_rep;
use crate::ast::rows_rep;
use crate::error::PFail;
use crate::error::PRes;
use crate::error::agrees;
use crate::utils;

verus! {

/// Context threaded through the Scrapbox rules: the current indent of the
/// surrounding list item, used by the multi-line `code:` and `table:` rules
/// to recompute the expected line prefix.
#[derive(Default, Debug, Copy, Clone, PartialEq)]
pub struct ScrapboxParserContext {
    /// current indent size of list
    pub indent: usize,
}

// ---------------------------------------------------------------------------
// [internal link]
// ---------------------------------------------------------------------------
pub open spec fn sp_internal_link(s: Seq<char>, i: int) -> PRes<Seq<char>> {
    utils::sp_brackets(s, i)
}

pub fn internal_link(s: &str, i: usize) -> (r: Result<(usize, InternalLink), PFail>)
    requires
        i <= s@.len(),
    ensures
        agrees(r, sp_internal_link(s@, i as int)),
        r matches Ok((j, _)) ==> i < j <= s@.len(),
{
    match utils::brackets(s, i) {
        Ok((j, v)) => Ok((j, InternalLink { title: v })),
        Err(e) => Err(e),
    }
}

// ---------------------------------------------------------------------------
// [/help-jp/Scrapbox]
// ---------------------------------------------------------------------------
pub open spec fn sp_external_link_other_project(s: Seq<char>, i: int) -> PRes<
    (Option<Seq<char>>, Seq<char>),
> {
    match utils::sp_brackets(s, i) {
        PRes::Found { next, val: c } => if c.len() > 0 && c[0] == '/' {
            PRes::Found {
                next,
                val: (Some(c), "https://scrapbox.io/"@ + c.subrange(1, c.len() as int)),
            }
        } else {
            PRes::Miss
        },
        PRes::Miss => PRes::Miss,
        PRes::Abort(p) => PRes::Abort(p),
    }
}

pub fn external_link_other_project(s: &str, i: usize) -> (r: Result<
    (usize, ExternalLink),
    PFail,
>)
    requires
        i <= s@.len(),
    ensures
        agrees(r, sp_external_link_other_project(s@, i as int)),
        r matches Ok((j, _)) ==> i < j <= s@.len(),
{
    match utils::brackets(s, i) {
        Ok((j, c)) => {
            let ct = c.as_str();
            let n = ct.unicode_len();
            if n > 0 && ct.get_char(0) == '/' {
                let tail = ct.substring_char(1, n);
                let u = String::from_str("https://scrapbox.io/").concat(tail);
                Ok((j, ExternalLink { title: Some(c), url: u }))
            } else {
                Err(PFail::Mismatch)
            }
        },
        Err(e) => Err(e),
    }
}

// ---------------------------------------------------------------------------
// [*-/ emphasis], [[Bold]], [$ math]
// ---------------------------------------------------------------------------
/// [*-/** emphasis]: a prefix of decoration markers, a space, then text;
/// each marker kind is counted to give the stacked level.
pub open spec fn sp_emphasis(s: Seq<char>, i: int) -> PRes<(Seq<char>, nat, nat, nat)> {
    match utils::sp_brackets(s, i) {
        PRes::Found { next, val: c } => {
            let t = utils::sp_scan_marks(c, 0);
            if t < c.len() && c[t] == ' ' {
                PRes::Found {
                    next,
                    val: (
                        utils::sp_trim(c.subrange(t + 1, c.len() as int)),
                        utils::sp_count_char(c.subrange(0, t), 0, '*'),
                        utils::sp_count_char(c.subrange(0, t), 0, '/'),
                        utils::sp_count_char(c.subrange(0, t), 0, '-'),
                    ),
                }
            } else {
                PRes::Miss
            }
        },
        PRes::Miss => PRes::Miss,
        PRes::Abort(p) => PRes::Abort(p),
    }
}

pub fn emphasis(s: &str, i: usize) -> (r: Result<(usize, Emphasis), PFail>)
    requires
        i <= s@.len(),
    ensures
        agrees(r, sp_emphasis(s@, i as int)),
        r matches Ok((j, _)) ==> i < j <= s@.len(),
{
    match utils::brackets(s, i) {
        Ok((j, c)) => {
            let ct = c.as_str();
            let n = ct.unicode_len();
            let t = utils::scan_marks(ct, 0);
            if t < n && ct.get_char(t) == ' ' {
                let txt = utils::trim_range(ct, t + 1, n);
                let nb = utils::count_char_to(ct, 0, t, '*');
                let ni = utils::count_char_to(ct, 0, t, '/');
                let ns = utils::count_char_to(ct, 0, t, '-');
                Ok((j, Emphasis { text: txt, bold: nb, italic: ni, strikethrough: ns }))
            } else {
                Err(PFail::Mismatch)
            }
        },
        Err(e) => Err(e),
    }
}

/// [[bold]]
pub open spec fn sp_bold(s: Seq<char>, i: int) -> PRes<(Seq<char>, nat, nat, nat)> {
    if i + 1 < s.len() && s[i] == '[' && s[i + 1] == '[' {
        let j = utils::sp_scan_to(s, i + 2, ']');
        if j + 1 < s.len() && s[j + 1] == ']' {
            PRes::Found { next: j + 2, val: (utils::sp_trim(s.subrange(i + 2, j)), 1, 0, 0) }
        } else {
            PRes::Miss
        }
    } else {
        PRes::Miss
    }
}

pub fn bold(s: &str, i: usize) -> (r: Result<(usize, Emphasis), PFail>)
    requires
        i <= s@.len(),
    ensures
        agrees(r, sp_bold(s@, i as int)),
        r matches Ok((j, _)) ==> i < j <= s@.len(),
{
    let n = s.unicode_len();
    if i < n && n - i > 1 && s.get_char(i) == '[' && s.get_char(i + 1) == '[' {
        let j = utils::scan_to(s, i + 2, ']');
        if j < n && n - j > 1 && s.get_char(j + 1) == ']' {
            let txt = utils::trim_range(s, i + 2, j);
            Ok((j + 2, Emphasis { text: txt, bold: 1, italic: 0, strikethrough: 0 }))
        } else {
            Err(PFail::Mismatch)
        }
    } else {
        Err(PFail::Mismatch)
    }
}

/// [$ Tex here]
pub open spec fn sp_math(s: Seq<char>, i: int) -> PRes<Seq<char>> {
    if i + 1 < s.len() && s[i] == '[' && s[i + 1] == '$' {
        let j = utils::sp_scan_to(s, i + 2, ']');
        if j < s.len() {
            PRes::Found { next: j + 1, val: utils::sp_trim(s.subrange(i + 2, j)) }
        } else {
            PRes::Miss
        }
    } else {
        PRes::Miss
    }
}

pub fn math(s: &str, i: usize) -> (r: Result<(usize, Math), PFail>)
    requires
        i <= s@.len(),
    ensures
        agrees(r, sp_math(s@, i as int)),
        r matches Ok((j, _)) ==> i < j <= s@.len(),
{
    let n = s.unicode_len();
    if i < n && n - i > 1 && s.get_char(i) == '[' && s.get_char(i + 1) == '$' {
        let j = utils::scan_to(s, i + 2, ']');
        if j < n {
            Ok((j + 1, Math { value: utils::trim_range(s, i + 2, j) }))
        } else {
            Err(PFail::Mismatch)
        }
    } else {
        Err(PFail::Mismatch)
    }
}

// ---------------------------------------------------------------------------
// $ command or % command
// ---------------------------------------------------------------------------
/// `$ cmd` or `% cmd`, kept with its prefix as one inline code value.
pub open spec fn sp_commandline(s: Seq<char>, i: int) -> PRes<Seq<char>> {
    if i + 1 < s.len() && (s[i] == '$' || s[i] == '%') && s[i + 1] == ' ' {
        let e = utils::sp_scan_to(s, i + 2, '\n');
        PRes::Found { next: e, val: s.subrange(i, e) }
    } else {
        PRes::Miss
    }
}

pub fn commandline(s: &str, i: usize) -> (r: Result<(usize, BlockQuate), PFail>)
    requires
        i <= s@.len(),
    ensures
        agrees(r, sp_commandline(s@, i as int)),
        r matches Ok((j, _)) ==> i < j <= s@.len(),
{
    let n = s.unicode_len();
    if i < n && n - i > 1 && (s.get_char(i) == '$' || s.get_char(i) == '%') && s.get_char(i + 1)
        == ' ' {
        let e = utils::scan_to(s, i + 2, '\n');
        Ok((e, BlockQuate { value: s.substring_char(i, e).to_owned() }))
    } else {
        Err(PFail::Mismatch)
    }
}

// ---------------------------------------------------------------------------
// code:filename
// ---------------------------------------------------------------------------
/// The lines of a code block: each must begin with `pre` plain spaces and
/// runs to its line break (or the end of input).
pub open spec fn sp_code_lines(s: Seq<char>, i: int, pre: int) -> (int, Seq<Seq<char>>)
    decreases s.len() - i when 0 <= i <= s.len() && pre >= 1
    via sp_code_lines_decreases
{
    if utils::sp_spaces_at(s, i, pre) {
        let e = utils::sp_scan_to(s, i + pre, '\n');
        if e < s.len() {
            let (j, rest) = sp_code_lines(s, e + 1, pre);
            (j, seq![s.subrange(i + pre, e)] + rest)
        } else {
            (s.len() as int, seq![s.subrange(i + pre, e)])
        }
    } else {
        (i, Seq::empty())
    }
}

#[via_fn]
proof fn sp_code_lines_decreases(s: Seq<char>, i: int, pre: int) {
    if utils::sp_spaces_at(s, i, pre) {
        utils::lemma_scan_to(s, i + pre, '\n');
    }
}

pub proof fn lemma_code_lines(s: Seq<char>, i: int, pre: int)
    requires
        0 <= i <= s.len(),
        pre >= 1,
    ensures
        i <= sp_code_lines(s, i, pre).0 <= s.len(),
    decreases s.len() - i,
{
    if utils::sp_spaces_at(s, i, pre) {
        utils::lemma_scan_to(s, i + pre, '\n');
        let e = utils::sp_scan_to(s, i + pre, '\n');
        if e < s.len() {
            lemma_code_lines(s, e + 1, pre);
        }
    }
}

fn code_lines(s: &str, i: usize, pre: usize) -> (r: (usize, Vec<String>))
    requires
        i <= s@.len(),
        pre >= 1,
    ensures
        r.0 as int == sp_code_lines(s@, i as int, pre as int).0,
        strs_rep(r.1@) == sp_code_lines(s@, i as int, pre as int).1,
        i <= r.0 <= s@.len(),
    decreases s@.len() - i,
{
    proof {
        lemma_code_lines(s@, i as int, pre as int);
    }
    let n = s.unicode_len();
    if utils::spaces_at(s, i, pre) {
        let e = utils::scan_to(s, i + pre, '\n');
        let line = s.substring_char(i + pre, e).to_owned();
        if e < n {
            let (j, mut rest) = code_lines(s, e + 1, pre);
            rest.insert(0, line);
            proof {
                assert(strs_rep(rest@) =~= sp_code_lines(s@, i as int, pre as int).1);
            }
            (j, rest)
        } else {
            let mut one: Vec<String> = Vec::new();
            one.push(line);
            proof {
                assert(strs_rep(one@) =~= sp_code_lines(s@, i as int, pre as int).1);
            }
            (n, one)
        }
    } else {
        (i, Vec::new())
    }
}

/// code:filename, then lines prefixed by one space more than the current
/// indent.
pub open spec fn sp_code_block(s: Seq<char>, i: int, ind: int) -> PRes<
    (Seq<char>, Seq<Seq<char>>),
> {
    if i + 5 <= s.len() && s[i] == 'c' && s[i + 1] == 'o' && s[i + 2] == 'd' && s[i + 3] == 'e'
        && s[i + 4] == ':' {
        let f = utils::sp_scan_to(s, i + 5, '\n');
        if f < s.len() {
            let (j, lines) = sp_code_lines(s, f + 1, ind + 1);
            PRes::Found { next: j, val: (s.subrange(i + 5, f), lines) }
        } else {
            PRes::Miss
        }
    } else {
        PRes::Miss
    }
}

pub fn code_block(s: &str, i: usize, ctx: ScrapboxParserContext) -> (r: Result<
    (usize, CodeBlock),
    PFail,
>)
    requires
        i <= s@.len(),
        ctx.indent < usize::MAX,
    ensures
        agrees(r, sp_code_block(s@, i as int, ctx.indent as int)),
        r matches Ok((j, _)) ==> i < j <= s@.len(),
{
    let n = s.unicode_len();
    if n - i >= 5 && s.get_char(i) == 'c' && s.get_char(i + 1) == 'o' && s.get_char(i + 2) == 'd'
        && s.get_char(i + 3) == 'e' && s.get_char(i + 4) == ':' {
        let f = utils::scan_to(s, i + 5, '\n');
        if f < n {
            let name = s.substring_char(i + 5, f).to_owned();
            let (j, lines) = code_lines(s, f + 1, ctx.indent + 1);
            Ok((j, CodeBlock { file_name: name, children: lines }))
        } else {
            Err(PFail::Mismatch)
        }
    } else {
        Err(PFail::Mismatch)
    }
}

// ---------------------------------------------------------------------------
// table:name
// ---------------------------------------------------------------------------
/// The cells of one table row line: split on tab characters, with a final
/// unterminated cell kept only when it is non-empty.
pub open spec fn sp_row_cells(t: Seq<char>, k: int) -> Seq<Seq<char>>
    decreases t.len() - k when 0 <= k <= t.len()
    via sp_row_cells_decreases
{
    let j = utils::sp_scan_to(t, k, '\t');
    if j < t.len() {
        seq![t.subrange(k, j)] + sp_row_cells(t, j + 1)
    } else if k < t.len() {
        seq![t.subrange(k, t.len() as int)]
    } else {
        Seq::empty()
    }
}

#[via_fn]
proof fn sp_row_cells_decreases(t: Seq<char>, k: int) {
    utils::lemma_scan_to(t, k, '\t');
}

fn row_cells(t: &str, from: usize) -> (r: Vec<String>)
    requires
        from <= t@.len(),
    ensures
        strs_rep(r@) == sp_row_cells(t@, from as int),
    decreases t@.len() - from,
{
    proof {
        utils::lemma_scan_to(t@, from as int, '\t');
    }
    let n = t.unicode_len();
    let j = utils::scan_to(t, from, '\t');
    if j < n {
        let cell = t.substring_char(from, j).to_owned();
        let mut rest = row_cells(t, j + 1);
        rest.insert(0, cell);
        proof {
            assert(strs_rep(rest@) =~= sp_row_cells(t@, from as int));
        }
        rest
    } else if from < n {
        let mut one: Vec<String> = Vec::new();
        one.push(t.substring_char(from, n).to_owned());
        proof {
            assert(strs_rep(one@) =~= sp_row_cells(t@, from as int));
        }
        one
    } else {
        let empty: Vec<String> = Vec::new();
        proof {
            assert(strs_rep(empty@) =~= sp_row_cells(t@, from as int));
        }
        empty
    }
}

/// One table row: the expected indent prefix, the line's cells, and its
/// optional line break.
pub open spec fn sp_table_row(s: Seq<char>, i: int, pre: int) -> Option<(int, Seq<Seq<char>>)> {
    if utils::sp_spaces_at(s, i, pre) {
        let e = utils::sp_scan_to(s, i + pre, '\n');
        let cells = sp_row_cells(s.subrange(i + pre, e), 0);
        if e < s.len() {
            Some((e + 1, cells))
        } else {
            Some((e, cells))
        }
    } else {
        None
    }
}

fn table_row(s: &str, i: usize, pre: usize) -> (r: Option<(usize, Vec<String>)>)
    requires
        i <= s@.len(),
        pre >= 1,
    ensures
        match r {
            Some((j, cells)) => sp_table_row(s@, i as int, pre as int) matches Some((sj, sc))
                && j as int == sj && strs_rep(cells@) == sc && i < j <= s@.len(),
            None => sp_table_row(s@, i as int, pre as int) is None,
        },
{
    let n = s.unicode_len();
    if utils::spaces_at(s, i, pre) {
        let e = utils::scan_to(s, i + pre, '\n');
        let content = s.substring_char(i + pre, e).to_owned();
        let cells = row_cells(content.as_str(), 0);
        if e < n {
            Some((e + 1, cells))
        } else {
            Some((e, cells))
        }
    } else {
        None
    }
}

/// Zero or more table rows.
pub open spec fn sp_table_rows(s: Seq<char>, i: int, pre: int) -> (int, Seq<Seq<Seq<char>>>)
    decreases s.len() - i when 0 <= i <= s.len() && pre >= 1
{
    match sp_table_row(s, i, pre) {
        Some((j, cells)) => if i < j <= s.len() {
            let (k, rest) = sp_table_rows(s, j, pre);
            (k, seq![cells] + rest)
        } else {
            (i, Seq::empty())
        },
        None => (i, Seq::empty()),
    }
}

pub proof fn lemma_table_rows(s: Seq<char>, i: int, pre: int)
    requires
        0 <= i <= s.len(),
        pre >= 1,
    ensures
        i <= sp_table_rows(s, i, pre).0 <= s.len(),
    decreases s.len() - i,
{
    match sp_table_row(s, i, pre) {
        Some((j, cells)) => {
            if i < j <= s.len() {
                lemma_table_rows(s, j, pre);
            }
        },
        None => {},
    }
}

fn table_rows(s: &str, i: usize, pre: usize) -> (r: (usize, Vec<Vec<String>>))
    requires
        i <= s@.len(),
        pre >= 1,
    ensures
        r.0 as int == sp_table_rows(s@, i as int, pre as int).0,
        rows_rep(r.1@) == sp_table_rows(s@, i as int, pre as int).1,
        i <= r.0 <= s@.len(),
    decreases s@.len() - i,
{
    proof {
        lemma_table_rows(s@, i as int, pre as int);
    }
    match table_row(s, i, pre) {
        Some((j, cells)) => {
            let (k, mut rest) = table_rows(s, j, pre);
            rest.insert(0, cells);
            proof {
                assert(rows_rep(rest@) =~= sp_table_rows(s@, i as int, pre as int).1);
            }
            (k, rest)
        },
        None => (i, Vec::new()),
    }
}

/// table:name, then an optional header row and its data rows, each line
/// prefixed by one space more than the current indent.
pub open spec fn sp_table(s: Seq<char>, i: int, ind: int) -> PRes<
    (Seq<char>, Seq<Seq<char>>, Seq<Seq<Seq<char>>>),
> {
    if i + 6 <= s.len() && s[i] == 't' && s[i + 1] == 'a' && s[i + 2] == 'b' && s[i + 3] == 'l'
        && s[i + 4] == 'e' && s[i + 5] == ':' {
        let f = utils::sp_scan_to(s, i + 6, '\n');
        if f < s.len() {
            let name = s.subrange(i + 6, f);
            match sp_table_row(s, f + 1, ind + 1) {
                Some((j, header)) => {
                    let (k, rows) = sp_table_rows(s, j, ind + 1);
                    PRes::Found { next: k, val: (name, header, rows) }
                },
                None => PRes::Found { next: f + 1, val: (name, Seq::empty(), Seq::empty()) },
            }
        } else {
            PRes::Miss
        }
    } else {
        PRes::Miss
    }
}

pub fn table(s: &str, i: usize, ctx: ScrapboxParserContext) -> (r: Result<(usize, Table), PFail>)
    requires
        i <= s@.len(),
        ctx.indent < usize::MAX,
    ensures
        agrees(r, sp_table(s@, i as int, ctx.indent as int)),
        r matches Ok((j, _)) ==> i < j <= s@.len(),
{
    let n = s.unicode_len();
    if n - i >= 6 && s.get_char(i) == 't' && s.get_char(i + 1) == 'a' && s.get_char(i + 2) == 'b'
        && s.get_char(i + 3) == 'l' && s.get_char(i + 4) == 'e' && s.get_char(i + 5) == ':' {
        let f = utils::scan_to(s, i + 6, '\n');
        if f < n {
            let name = s.substring_char(i + 6, f).to_owned();
            match table_row(s, f + 1, ctx.indent + 1) {
                Some((j, header)) => {
                    let (k, rows) = table_rows(s, j, ctx.indent + 1);
                    Ok((k, Table { name, header, rows }))
                },
                None => {
                    let t = Table { name, header: Vec::new(), rows: Vec::new() };
                    proof {
                        assert(strs_rep(t.header@) =~= Seq::<Seq<char>>::empty());
                        assert(rows_rep(t.rows@) =~= Seq::<Seq<Seq<char>>>::empty());
                    }
                    Ok((f + 1, t))
                },
            }
        } else {
            Err(PFail::Mismatch)
        }
    } else {
        Err(PFail::Mismatch)
    }
}

// ---------------------------------------------------------------------------
// Link or image inside brackets
// ---------------------------------------------------------------------------
/// A fresh node around a kind model.
pub open spec fn nrep(kind: KindRep) -> NodeRep {
    NodeRep { id: 0, kind }
}

/// Index of the last space character of `c`, or -1 when there is none.
pub open spec fn sp_last_space(c: Seq<char>) -> int
    decreases c.len(),
{
    if c.len() == 0 {
        -1
    } else if utils::sp_is_space(c[c.len() - 1]) {
        c.len() - 1
    } else {
        sp_last_space(c.subrange(0, c.len() - 1))
    }
}

pub proof fn lemma_last_space(c: Seq<char>)
    ensures
        -1 <= sp_last_space(c) < c.len(),
        sp_last_space(c) >= 0 ==> utils::sp_is_space(c[sp_last_space(c)]),
        forall|k: int| sp_last_space(c) < k < c.len() ==> !utils::sp_is_space(c[k]),
    decreases c.len(),
{
    if c.len() > 0 && !utils::sp_is_space(c[c.len() - 1]) {
        let sub = c.subrange(0, c.len() - 1);
        lemma_last_space(sub);
        assert forall|k: int| sp_last_space(c) < k < c.len() implies !utils::sp_is_space(
            c[k],
        ) by {
            if k < c.len() - 1 {
                assert(sub[k] == c[k]);
            }
        }
    }
}

fn last_space(c: &str) -> (r: Option<usize>)
    ensures
        match r {
            Some(k) => sp_last_space(c@) == k as int && k < c@.len(),
            None => sp_last_space(c@) == -1,
        },
{
    let n = c.unicode_len();
    let mut k = n;
    proof {
        assert(c@.subrange(0, n as int) =~= c@);
    }
    while k > 0
        invariant
            k <= n,
            n == c@.len(),
            sp_last_space(c@) == sp_last_space(c@.subrange(0, k as int)),
        decreases k,
    {
        if utils::is_space(c.get_char(k - 1)) {
            proof {
                lemma_last_space(c@.subrange(0, k as int));
            }
            return Some(k - 1);
        }
        k = k - 1;
        proof {
            assert(c@.subrange(0, k + 1).subrange(0, k as int) =~= c@.subrange(0, k as int));
        }
    }
    None
}

/// `[url]` or `[url title]`: after optional leading spaces a URL, then the
/// rest (after further spaces) as the title when it is non-empty.
pub open spec fn sp_url_title(c: Seq<char>) -> Option<(Option<Seq<char>>, Seq<char>)> {
    let a = utils::sp_scan_spaces(c, 0);
    match utils::sp_url(c, a) {
        PRes::Found { next: j, val: u } => {
            let b = utils::sp_scan_spaces(c, j);
            let title: Option<Seq<char>> = if b >= c.len() {
                None
            } else {
                Some(c.subrange(b, c.len() as int))
            };
            Some((title, u))
        },
        _ => None,
    }
}

fn url_title(c: &str) -> (r: Option<(Option<String>, String)>)
    ensures
        match r {
            Some((t, u)) => sp_url_title(c@) matches Some((st, su)) && u@ == su && (match (
                t,
                st,
            ) {
                (Some(tv), Some(sv)) => tv@ == sv,
                (None, None) => true,
                _ => false,
            }),
            None => sp_url_title(c@) is None,
        },
{
    let n = c.unicode_len();
    let a = utils::scan_spaces(c, 0);
    match utils::url(c, a) {
        Ok((j, u)) => {
            let b = utils::scan_spaces(c, j);
            if b >= n {
                Some((None, u))
            } else {
                Some((Some(c.substring_char(b, n).to_owned()), u))
            }
        },
        Err(_) => None,
    }
}

/// `[title url]`: the part before the last space is the title, a URL must
/// follow the spaces and consume the rest of the bracket, else the parse
/// aborts as a grammar-internal inconsistency.
pub open spec fn sp_title_url(c: Seq<char>) -> PRes<(Option<Seq<char>>, Seq<char>)> {
    let k = sp_last_space(c);
    if k < 0 {
        PRes::Miss
    } else {
        let a = utils::sp_scan_spaces(c, k);
        match utils::sp_url(c, a) {
            PRes::Found { next: j, val: u } => if j < c.len() {
                PRes::Abort(0)
            } else {
                let title: Option<Seq<char>> = if k == 0 {
                    None
                } else {
                    Some(c.subrange(0, k))
                };
                PRes::Found { next: c.len() as int, val: (title, u) }
            },
            _ => PRes::Miss,
        }
    }
}

fn title_url(c: &str) -> (r: Result<(Option<String>, String), PFail>)
    ensures
        match r {
            Ok((t, u)) => sp_title_url(c@) matches PRes::Found { next, val } && u@ == val.1 && (
            match (t, val.0) {
                (Some(tv), Some(sv)) => tv@ == sv,
                (None, None) => true,
                _ => false,
            }),
            Err(PFail::Mismatch) => sp_title_url(c@) is Miss,
            Err(PFail::Internal(_)) => sp_title_url(c@) is Abort,
        },
{
    let n = c.unicode_len();
    match last_space(c) {
        None => Err(PFail::Mismatch),
        Some(k) => {
            let a = utils::scan_spaces(c, k);
            match utils::url(c, a) {
                Ok((j, u)) => {
                    if j < n {
                        Err(PFail::Internal(0))
                    } else if k == 0 {
                        Ok((None, u))
                    } else {
                        Ok((Some(c.substring_char(0, k).to_owned()), u))
                    }
                },
                Err(_) => Err(PFail::Mismatch),
            }
        },
    }
}

/// [https://...], [https://... title], [title https://...]: the resolved
/// URL is an image when it ends in a whitelisted extension, else an
/// external link; a title that itself names an image wins as a fallback.
pub open spec fn sp_external_link_or_image(s: Seq<char>, i: int) -> PRes<NodeRep> {
    match utils::sp_brackets(s, i) {
        PRes::Found { next, val: c } => {
            let body = match sp_url_title(c) {
                Some(v) => PRes::Found { next: c.len() as int, val: v },
                None => sp_title_url(c),
            };
            match body {
                PRes::Found { val: (title, u), .. } => if utils::sp_is_image_url(u) {
                    PRes::Found { next, val: nrep(KindRep::Image(u)) }
                } else {
                    match title {
                        Some(t) => if utils::sp_is_image_url(t) {
                            PRes::Found { next, val: nrep(KindRep::Image(t)) }
                        } else {
                            PRes::Found { next, val: nrep(KindRep::ExternalLink(Some(t), u)) }
                        },
                        None => PRes::Found { next, val: nrep(KindRep::ExternalLink(None, u)) },
                    }
                },
                PRes::Miss => PRes::Miss,
                PRes::Abort(_) => PRes::Abort(i),
            }
        },
        PRes::Miss => PRes::Miss,
        PRes::Abort(p) => PRes::Abort(p),
    }
}

pub fn external_link_or_image(s: &str, i: usize) -> (r: Result<(usize, Node), PFail>)
    requires
        i <= s@.len(),
    ensures
        agrees(r, sp_external_link_or_image(s@, i as int)),
        r matches Ok((j, _)) ==> i < j <= s@.len(),
{
    match utils::brackets(s, i) {
        Err(e) => Err(e),
        Ok((j, c)) => {
            let ct = c.as_str();
            let body = match url_title(ct) {
                Some(v) => Ok(v),
                None => match title_url(ct) {
                    Ok(v) => Ok(v),
                    Err(PFail::Mismatch) => Err(PFail::Mismatch),
                    Err(PFail::Internal(_)) => Err(PFail::Internal(i)),
                },
            };
            match body {
                Err(e) => Err(e),
                Ok((title, u)) => {
                    if utils::is_image_url(u.as_str()) {
                        Ok((j, Node::new(NodeKind::Image(Image { uri: u }))))
                    } else {
                        let title_is_image = match &title {
                            Some(t) => utils::is_image_url(t.as_str()),
                            None => false,
                        };
                        if title_is_image {
                            let t = match title {
                                Some(t) => t,
                                None => u,
                            };
                            Ok((j, Node::new(NodeKind::Image(Image { uri: t }))))
                        } else {
                            Ok(
                                (
                                    j,
                                    Node::new(
                                        NodeKind::ExternalLink(ExternalLink { title, url: u }),
                                    ),
                                ),
                            )
                        }
                    }
                },
            }
        },
    }
}

// ---------------------------------------------------------------------------
// Inline node alternatives
// ---------------------------------------------------------------------------
pub open spec fn sp_node(s: Seq<char>, i: int, ind: int) -> PRes<NodeRep> {
    match sp_code_block(s, i, ind) {
        PRes::Found { next, val } => PRes::Found {
            next,
            val: nrep(KindRep::CodeBlock(val.0, val.1)),
        },
        PRes::Abort(p) => PRes::Abort(p),
        PRes::Miss => match sp_table(s, i, ind) {
            PRes::Found { next, val } => PRes::Found {
                next,
                val: nrep(KindRep::Table(val.0, val.1, val.2)),
            },
            PRes::Abort(p) => PRes::Abort(p),
            PRes::Miss => match utils::sp_hashtag(s, i) {
                PRes::Found { next, val } => PRes::Found {
                    next,
                    val: nrep(KindRep::HashTag(val)),
                },
                PRes::Abort(p) => PRes::Abort(p),
                PRes::Miss => match utils::sp_block_quate(s, i) {
                    PRes::Found { next, val } => PRes::Found {
                        next,
                        val: nrep(KindRep::BlockQuate(val)),
                    },
                    PRes::Abort(p) => PRes::Abort(p),
                    PRes::Miss => match sp_emphasis(s, i) {
                        PRes::Found { next, val } => PRes::Found {
                            next,
                            val: nrep(KindRep::Emphasis(val.0, val.1, val.2, val.3)),
                        },
                        PRes::Abort(p) => PRes::Abort(p),
                        PRes::Miss => match sp_bold(s, i) {
                            PRes::Found { next, val } => PRes::Found {
                                next,
                                val: nrep(KindRep::Emphasis(val.0, val.1, val.2, val.3)),
                            },
                            PRes::Abort(p) => PRes::Abort(p),
                            PRes::Miss => match sp_external_link_or_image(s, i) {
                                PRes::Found { next, val } => PRes::Found { next, val },
                                PRes::Abort(p) => PRes::Abort(p),
                                PRes::Miss => match sp_math(s, i) {
                                    PRes::Found { next, val } => PRes::Found {
                                        next,
                                        val: nrep(KindRep::Math(val)),
                                    },
                                    PRes::Abort(p) => PRes::Abort(p),
                                    PRes::Miss => match sp_external_link_other_project(s, i) {
                                        PRes::Found { next, val } => PRes::Found {
                                            next,
                                            val: nrep(KindRep::ExternalLink(val.0, val.1)),
                                        },
                                        PRes::Abort(p) => PRes::Abort(p),
                                        PRes::Miss => match sp_internal_link(s, i) {
                                            PRes::Found { next, val } => PRes::Found {
                                                next,
                                                val: nrep(KindRep::InternalLink(val)),
                                            },
                                            PRes::Abort(p) => PRes::Abort(p),
                                            PRes::Miss => match utils::sp_external_link_plain(
                                                s,
                                                i,
                                            ) {
                                                PRes::Found { next, val } => PRes::Found {
                                                    next,
                                                    val: nrep(
                                                        KindRep::ExternalLink(val.0, val.1),
                                                    ),
                                                },
                                                PRes::Abort(p) => PRes::Abort(p),
                                                PRes::Miss => match sp_commandline(s, i) {
                                                    PRes::Found { next, val } => PRes::Found {
                                                        next,
                                                        val: nrep(KindRep::BlockQuate(val)),
                                                    },
                                                    PRes::Abort(p) => PRes::Abort(p),
                                                    PRes::Miss => match utils::sp_text(s, i) {
                                                        PRes::Found { next, val } => PRes::Found {
                                                            next,
                                                            val: nrep(KindRep::Text(val)),
                                                        },
                                                        PRes::Abort(p) => PRes::Abort(p),
                                                        PRes::Miss => PRes::Miss,
                                                    },
                                                },
                                            },
                                        },
                                    },
                                },
                            },
                        },
                    },
                },
            },
        },
    }
}

pub fn node(s: &str, i: usize, ctx: ScrapboxParserContext) -> (r: Result<(usize, Node), PFail>)
    requires
        i <= s@.len(),
        ctx.indent < usize::MAX,
    ensures
        agrees(r, sp_node(s@, i as int, ctx.indent as int)),
        r matches Ok((j, _)) ==> i < j <= s@.len(),
{
    match code_block(s, i, ctx) {
        Ok((j, v)) => {
            return Ok((j, Node::new(NodeKind::CodeBlock(v))));
        },
        Err(PFail::Internal(p)) => {
            return Err(PFail::Internal(p));
        },
        Err(PFail::Mismatch) => {},
    }
    match table(s, i, ctx) {
        Ok((j, v)) => {
            return Ok((j, Node::new(NodeKind::Table(v))));
        },
        Err(PFail::Internal(p)) => {
            return Err(PFail::Internal(p));
        },
        Err(PFail::Mismatch) => {},
    }
    match utils::hashtag(s, i) {
        Ok((j, v)) => {
            return Ok((j, Node::new(NodeKind::HashTag(v))));
        },
        Err(PFail::Internal(p)) => {
            return Err(PFail::Internal(p));
        },
        Err(PFail::Mismatch) => {},
    }
    match utils::block_quate(s, i) {
        Ok((j, v)) => {
            return Ok((j, Node::new(NodeKind::BlockQuate(v))));
        },
        Err(PFail::Internal(p)) => {
            return Err(PFail::Internal(p));
        },
        Err(PFail::Mismatch) => {},
    }
    match emphasis(s, i) {
        Ok((j, v)) => {
            return Ok((j, Node::new(NodeKind::Emphasis(v))));
        },
        Err(PFail::Internal(p)) => {
            return Err(PFail::Internal(p));
        },
        Err(PFail::Mismatch) => {},
    }
    match bold(s, i) {
        Ok((j, v)) => {
            return Ok((j, Node::new(NodeKind::Emphasis(v))));
        },
        Err(PFail::Internal(p)) => {
            return Err(PFail::Internal(p));
        },
        Err(PFail::Mismatch) => {},
    }
    match external_link_or_image(s, i) {
        Ok((j, v)) => {
            return Ok((j, v));
        },
        Err(PFail::Internal(p)) => {
            return Err(PFail::Internal(p));
        },
        Err(PFail::Mismatch) => {},
    }
    match math(s, i) {
        Ok((j, v)) => {
            return Ok((j, Node::new(NodeKind::Math(v))));
        },
        Err(PFail::Internal(p)) => {
            return Err(PFail::Internal(p));
        },
        Err(PFail::Mismatch) => {},
    }
    match external_link_other_project(s, i) {
        Ok((j, v)) => {
            return Ok((j, Node::new(NodeKind::ExternalLink(v))));
        },
        Err(PFail::Internal(p)) => {
            return Err(PFail::Internal(p));
        },
        Err(PFail::Mismatch) => {},
    }
    match internal_link(s, i) {
        Ok((j, v)) => {
            return Ok((j, Node::new(NodeKind::InternalLink(v))));
        },
        Err(PFail::Internal(p)) => {
            return Err(PFail::Internal(p));
        },
        Err(PFail::Mismatch) => {},
    }
    match utils::external_link_plain(s, i) {
        Ok((j, v)) => {
            return Ok((j, Node::new(NodeKind::ExternalLink(v))));
        },
        Err(PFail::Internal(p)) => {
            return Err(PFail::Internal(p));
        },
        Err(PFail::Mismatch) => {},
    }
    match commandline(s, i) {
        Ok((j, v)) => {
            return Ok((j, Node::new(NodeKind::BlockQuate(v))));
        },
        Err(PFail::Internal(p)) => {
            return Err(PFail::Internal(p));
        },
        Err(PFail::Mismatch) => {},
    }
    match utils::text(s, i) {
        Ok((j, v)) => Ok((j, Node::new(NodeKind::Text(v)))),
        Err(e) => Err(e),
    }
}

// ---------------------------------------------------------------------------
// Node sequences, paragraphs, list items, pages
// ---------------------------------------------------------------------------
/// Zero or more inline nodes.
pub open spec fn sp_nodes(s: Seq<char>, i: int, ind: int) -> PRes<Seq<NodeRep>>
    decreases s.len() - i when 0 <= i <= s.len()
{
    match sp_node(s, i, ind) {
        PRes::Miss => PRes::Found { next: i, val: Seq::empty() },
        PRes::Abort(p) => PRes::Abort(p),
        PRes::Found { next, val } => if i < next <= s.len() {
            match sp_nodes(s, next, ind) {
                PRes::Found { next: j, val: rest } => PRes::Found {
                    next: j,
                    val: seq![val] + rest,
                },
                PRes::Abort(p) => PRes::Abort(p),
                PRes::Miss => PRes::Miss,
            }
        } else {
            PRes::Found { next: i, val: Seq::empty() }
        },
    }
}

/// As `agrees`, for a vector of nodes against a sequence of node models.
pub open spec fn agrees_nodes(r: Result<(usize, Vec<Node>), PFail>, sp: PRes<Seq<NodeRep>>) -> bool {
    match r {
        Ok((j, v)) => sp matches PRes::Found { next, val } && j == next && nodes_rep(v@) == val,
        Err(PFail::Mismatch) => sp is Miss,
        Err(PFail::Internal(p)) => sp matches PRes::Abort(q) && p == q,
    }
}

pub fn nodes(s: &str, i: usize, ctx: ScrapboxParserContext) -> (r: Result<
    (usize, Vec<Node>),
    PFail,
>)
    requires
        i <= s@.len(),
        ctx.indent < usize::MAX,
    ensures
        agrees_nodes(r, sp_nodes(s@, i as int, ctx.indent as int)),
        r matches Ok((j, _)) ==> i <= j <= s@.len(),
    decreases s@.len() - i,
{
    match node(s, i, ctx) {
        Err(PFail::Mismatch) => {
            let empty: Vec<Node> = Vec::new();
            proof {
                assert(nodes_rep(empty@) =~= Seq::<NodeRep>::empty());
            }
            Ok((i, empty))
        },
        Err(e) => Err(e),
        Ok((j, nd)) => {
            match nodes(s, j, ctx) {
                Ok((k, mut rest)) => {
                    let ghost old_rest = rest@;
                    rest.insert(0, nd);
                    proof {
                        crate::ast::lemma_nodes_rep_cons(old_rest, nd);
                        assert(rest@ =~= old_rest.insert(0, nd));
                        assert(nodes_rep(rest@) =~= seq![crate::ast::node_rep(nd)] + nodes_rep(
                            old_rest,
                        ));
                    }
                    Ok((k, rest))
                },
                Err(e) => Err(e),
            }
        },
    }
}

/// A paragraph: inline nodes terminated by a line break or end of input;
/// fails on empty input.
pub open spec fn sp_paragraph(s: Seq<char>, i: int, ind: int) -> PRes<Seq<NodeRep>> {
    if i >= s.len() {
        PRes::Miss
    } else {
        match sp_nodes(s, i, ind) {
            PRes::Found { next, val } => if next < s.len() && s[next] == '\n' {
                PRes::Found { next: next + 1, val }
            } else if next == s.len() {
                PRes::Found { next, val }
            } else {
                PRes::Miss
            },
            PRes::Abort(p) => PRes::Abort(p),
            PRes::Miss => PRes::Miss,
        }
    }
}

pub fn paragraph(s: &str, i: usize, ctx: ScrapboxParserContext) -> (r: Result<
    (usize, Paragraph),
    PFail,
>)
    requires
        i <= s@.len(),
        ctx.indent < usize::MAX,
    ensures
        agrees(r, sp_paragraph(s@, i as int, ctx.indent as int)),
        r matches Ok((j, _)) ==> i < j <= s@.len(),
{
    let n = s.unicode_len();
    if i >= n {
        return Err(PFail::Mismatch);
    }
    match nodes(s, i, ctx) {
        Ok((next, children)) => {
            if next < n && s.get_char(next) == '\n' {
                Ok((next + 1, Paragraph { children }))
            } else if next == n {
                Ok((next, Paragraph { children }))
            } else {
                Err(PFail::Mismatch)
            }
        },
        Err(e) => Err(e),
    }
}

/// One list item: its indentation run (freely mixing tab, space and
/// full-width space) gives the level; a leading `N. ` marks it decimal.
pub open spec fn sp_list_item(s: Seq<char>, i: int) -> PRes<ItemRep> {
    let t = utils::sp_scan_sb_indent(s, i);
    if t > i {
        let d = utils::sp_scan_digits(s, t);
        let dec = d > t && d + 2 <= s.len() && s[d] == '.' && s[d + 1] == ' ';
        let body = if dec {
            d + 2
        } else {
            t
        };
        let kind = if dec {
            ListKind::Decimal
        } else {
            ListKind::Disc
        };
        match sp_nodes(s, body, t - i) {
            PRes::Found { next, val: children } => if next < s.len() && s[next] == '\n' {
                PRes::Found {
                    next: next + 1,
                    val: ItemRep { kind, level: (t - i) as nat, children },
                }
            } else if next == s.len() {
                PRes::Found { next, val: ItemRep { kind, level: (t - i) as nat, children } }
            } else {
                PRes::Miss
            },
            PRes::Abort(p) => PRes::Abort(p),
            PRes::Miss => PRes::Miss,
        }
    } else {
        PRes::Miss
    }
}

pub fn list_item(s: &str, i: usize) -> (r: Result<(usize, ListItem), PFail>)
    requires
        i <= s@.len(),
        s@.len() < usize::MAX,
    ensures
        agrees(r, sp_list_item(s@, i as int)),
        r matches Ok((j, _)) ==> i < j <= s@.len(),
{
    let n = s.unicode_len();
    let t = utils::scan_sb_indent(s, i);
    if t > i {
        let d = utils::scan_digits(s, t);
        let dec = d > t && n - d >= 2 && s.get_char(d) == '.' && s.get_char(d + 1) == ' ';
        let body = if dec {
            d + 2
        } else {
            t
        };
        let kind = if dec {
            ListKind::Decimal
        } else {
            ListKind::Disc
        };
        // inside the item, the context carries the item's own indent
        let ctx = ScrapboxParserContext { indent: t - i };
        match nodes(s, body, ctx) {
            Ok((next, children)) => {
                if next < n && s.get_char(next) == '\n' {
                    Ok((next + 1, ListItem { kind, level: t - i, children }))
                } else if next == n {
                    Ok((next, ListItem { kind, level: t - i, children }))
                } else {
                    Err(PFail::Mismatch)
                }
            },
            Err(e) => Err(e),
        }
    } else {
        Err(PFail::Mismatch)
    }
}

/// The list items after the first: zero or more.
pub open spec fn sp_list_rest(s: Seq<char>, i: int) -> PRes<Seq<ItemRep>>
    decreases s.len() - i when 0 <= i <= s.len()
{
    match sp_list_item(s, i) {
        PRes::Miss => PRes::Found { next: i, val: Seq::empty() },
        PRes::Abort(p) => PRes::Abort(p),
        PRes::Found { next, val } => if i < next <= s.len() {
            match sp_list_rest(s, next) {
                PRes::Found { next: j, val: rest } => PRes::Found {
                    next: j,
                    val: seq![val] + rest,
                },
                PRes::Abort(p) => PRes::Abort(p),
                PRes::Miss => PRes::Miss,
            }
        } else {
            PRes::Found { next: i, val: Seq::empty() }
        },
    }
}

/// A maximal run of one or more list items.
pub open spec fn sp_list(s: Seq<char>, i: int) -> PRes<Seq<ItemRep>> {
    match sp_list_item(s, i) {
        PRes::Miss => PRes::Miss,
        PRes::Abort(p) => PRes::Abort(p),
        PRes::Found { next, val } => if i < next <= s.len() {
            match sp_list_rest(s, next) {
                PRes::Found { next: j, val: rest } => PRes::Found {
                    next: j,
                    val: seq![val] + rest,
                },
                PRes::Abort(p) => PRes::Abort(p),
                PRes::Miss => PRes::Miss,
            }
        } else {
            PRes::Miss
        },
    }
}

/// As `agrees`, for a vector of list items against item models.
pub open spec fn agrees_items(r: Result<(usize, Vec<ListItem>), PFail>, sp: PRes<
    Seq<ItemRep>,
>) -> bool {
    match r {
        Ok((j, v)) => sp matches PRes::Found { next, val } && j == next && items_rep(v@) == val,
        Err(PFail::Mismatch) => sp is Miss,
        Err(PFail::Internal(p)) => sp matches PRes::Abort(q) && p == q,
    }
}

fn list_rest(s: &str, i: usize) -> (r: Result<(usize, Vec<ListItem>), PFail>)
    requires
        i <= s@.len(),
        s@.len() < usize::MAX,
    ensures
        agrees_items(r, sp_list_rest(s@, i as int)),
        r matches Ok((j, _)) ==> i <= j <= s@.len(),
    decreases s@.len() - i,
{
    match list_item(s, i) {
        Err(PFail::Mismatch) => {
            let empty: Vec<ListItem> = Vec::new();
            proof {
                assert(items_rep(empty@) =~= Seq::<ItemRep>::empty());
            }
            Ok((i, empty))
        },
        Err(e) => Err(e),
        Ok((j, item)) => {
            match list_rest(s, j) {
                Ok((k, mut rest)) => {
                    let ghost old_rest = rest@;
                    rest.insert(0, item);
                    proof {
                        crate::ast::lemma_items_rep_cons(old_rest, item);
                        assert(rest@ =~= old_rest.insert(0, item));
                        assert(items_rep(rest@) =~= seq![crate::ast::item_rep(item)] + items_rep(
                            old_rest,
                        ));
                    }
                    Ok((k, rest))
                },
                Err(e) => Err(e),
            }
        },
    }
}

pub fn list(s: &str, i: usize) -> (r: Result<(usize, List), PFail>)
    requires
        i <= s@.len(),
        s@.len() < usize::MAX,
    ensures
        agrees(r, sp_list(s@, i as int)),
        r matches Ok((j, _)) ==> i < j <= s@.len(),
{
    match list_item(s, i) {
        Err(e) => Err(e),
        Ok((j, item)) => {
            match list_rest(s, j) {
                Ok((k, mut rest)) => {
                    let ghost old_rest = rest@;
                    rest.insert(0, item);
                    proof {
                        crate::ast::lemma_items_rep_cons(old_rest, item);
                        assert(rest@ =~= old_rest.insert(0, item));
                        assert(items_rep(rest@) =~= seq![crate::ast::item_rep(item)] + items_rep(
                            old_rest,
                        ));
                    }
                    Ok((k, List { children: rest }))
                },
                Err(e) => Err(e),
            }
        },
    }
}

/// A page: a sequence of lists and paragraphs; a finished list resets the
/// threaded indent context.
pub open spec fn sp_page(s: Seq<char>, i: int, ind: int) -> PRes<Seq<NodeRep>>
    decreases s.len() - i when 0 <= i <= s.len()
{
    match sp_list(s, i) {
        PRes::Abort(p) => PRes::Abort(p),
        PRes::Found { next, val } => if i < next <= s.len() {
            match sp_page(s, next, 0) {
                PRes::Found { next: j, val: rest } => PRes::Found {
                    next: j,
                    val: seq![nrep(KindRep::List(val))] + rest,
                },
                PRes::Abort(p) => PRes::Abort(p),
                PRes::Miss => PRes::Miss,
            }
        } else {
            PRes::Found { next: i, val: Seq::empty() }
        },
        PRes::Miss => match sp_paragraph(s, i, ind) {
            PRes::Abort(p) => PRes::Abort(p),
            PRes::Found { next, val } => if i < next <= s.len() {
                match sp_page(s, next, ind) {
                    PRes::Found { next: j, val: rest } => PRes::Found {
                        next: j,
                        val: seq![nrep(KindRep::Paragraph(val))] + rest,
                    },
                    PRes::Abort(p) => PRes::Abort(p),
                    PRes::Miss => PRes::Miss,
                }
            } else {
                PRes::Found { next: i, val: Seq::empty() }
            },
            PRes::Miss => PRes::Found { next: i, val: Seq::empty() },
        },
    }
}

pub fn page(s: &str, i: usize, ctx: ScrapboxParserContext) -> (r: Result<(usize, Page), PFail>)
    requires
        i <= s@.len(),
        s@.len() < usize::MAX,
        ctx.indent < usize::MAX,
    ensures
        match r {
            Ok((j, p)) => sp_page(s@, i as int, ctx.indent as int) matches PRes::Found {
                next,
                val,
            } && j == next && p@ == val && i <= j <= s@.len(),
            Err(PFail::Mismatch) => sp_page(s@, i as int, ctx.indent as int) is Miss,
            Err(PFail::Internal(p)) => sp_page(s@, i as int, ctx.indent as int) matches
                PRes::Abort(q) && p == q,
        },
    decreases s@.len() - i,
{
    match list(s, i) {
        Err(PFail::Internal(p)) => Err(PFail::Internal(p)),
        Ok((next, l)) => {
            match page(s, next, ScrapboxParserContext { indent: 0 }) {
                Ok((j, mut rest)) => {
                    let ghost old_rest = rest.nodes@;
                    let nd = Node::new(NodeKind::List(l));
                    rest.nodes.insert(0, nd);
                    proof {
                        crate::ast::lemma_nodes_rep_cons(old_rest, nd);
                        assert(rest.nodes@ =~= old_rest.insert(0, nd));
                        assert(nodes_rep(rest.nodes@) =~= seq![crate::ast::node_rep(nd)]
                            + nodes_rep(old_rest));
                    }
                    Ok((j, rest))
                },
                Err(e) => Err(e),
            }
        },
        Err(PFail::Mismatch) => {
            match paragraph(s, i, ctx) {
                Err(PFail::Internal(p)) => Err(PFail::Internal(p)),
                Ok((next, para)) => {
                    match page(s, next, ctx) {
                        Ok((j, mut rest)) => {
                            let ghost old_rest = rest.nodes@;
                            let nd = Node::new(NodeKind::Paragraph(para));
                            rest.nodes.insert(0, nd);
                            proof {
                                crate::ast::lemma_nodes_rep_cons(old_rest, nd);
                                assert(rest.nodes@ =~= old_rest.insert(0, nd));
                                assert(nodes_rep(rest.nodes@) =~= seq![crate::ast::node_rep(nd)]
                                    + nodes_rep(old_rest));
                            }
                            Ok((j, rest))
                        },
                        Err(e) => Err(e),
                    }
                },
                Err(PFail::Mismatch) => {
                    let empty: Page = Page { nodes: Vec::new() };
                    proof {
                        assert(nodes_rep(empty.nodes@) =~= Seq::<NodeRep>::empty());
                    }
                    Ok((i, empty))
                },
            }
        },
    }
}

// ---------------------------------------------------------------------------
// Every page the grammar produces is well formed
// ---------------------------------------------------------------------------
/// An inline node of this grammar is never a paragraph or a list, so it is
/// trivially well formed.
pub proof fn lemma_node_levels(s: Seq<char>, i: int, ind: int)
    ensures
        sp_node(s, i, ind) matches PRes::Found { val, .. } ==> crate::ast::levels_ok_node(val),
{
}

pub proof fn lemma_nodes_levels(s: Seq<char>, i: int, ind: int)
    requires
        0 <= i <= s.len(),
    ensures
        sp_nodes(s, i, ind) matches PRes::Found { val, .. } ==> crate::ast::levels_ok_nodes(val),
    decreases s.len() - i,
{
    match sp_node(s, i, ind) {
        PRes::Found { next, val } => {
            lemma_node_levels(s, i, ind);
            if i < next <= s.len() {
                lemma_nodes_levels(s, next, ind);
                match sp_nodes(s, next, ind) {
                    PRes::Found { val: rest, .. } => {
                        crate::ast::lemma_levels_ok_nodes(rest);
                        crate::ast::lemma_levels_ok_nodes(seq![val] + rest);
                    },
                    _ => {},
                }
            }
        },
        _ => {},
    }
}

pub proof fn lemma_item_levels(s: Seq<char>, i: int)
    requires
        0 <= i <= s.len(),
    ensures
        sp_list_item(s, i) matches PRes::Found { val, .. } ==> val.level >= 1
            && crate::ast::levels_ok_nodes(val.children),
{
    let t = utils::sp_scan_sb_indent(s, i);
    utils::lemma_scan_sb_indent(s, i);
    if t > i {
        let d = utils::sp_scan_digits(s, t);
        let dec = d > t && d + 2 <= s.len() && s[d] == '.' && s[d + 1] == ' ';
        let body = if dec {
            d + 2
        } else {
            t
        };
        utils::lemma_scan_digits(s, t);
        lemma_nodes_levels(s, body, t - i);
    }
}

pub proof fn lemma_list_rest_levels(s: Seq<char>, i: int)
    requires
        0 <= i <= s.len(),
    ensures
        sp_list_rest(s, i) matches PRes::Found { val, .. } ==> crate::ast::levels_ok_items(val),
    decreases s.len() - i,
{
    match sp_list_item(s, i) {
        PRes::Found { next, val } => {
            lemma_item_levels(s, i);
            if i < next <= s.len() {
                lemma_list_rest_levels(s, next);
                match sp_list_rest(s, next) {
                    PRes::Found { val: rest, .. } => {
                        crate::ast::lemma_levels_ok_items(rest);
                        crate::ast::lemma_levels_ok_items(seq![val] + rest);
                    },
                    _ => {},
                }
            }
        },
        _ => {},
    }
}

pub proof fn lemma_list_levels(s: Seq<char>, i: int)
    requires
        0 <= i <= s.len(),
    ensures
        sp_list(s, i) matches PRes::Found { val, .. } ==> crate::ast::levels_ok_items(val),
{
    match sp_list_item(s, i) {
        PRes::Found { next, val } => {
            lemma_item_levels(s, i);
            if i < next <= s.len() {
                lemma_list_rest_levels(s, next);
                match sp_list_rest(s, next) {
                    PRes::Found { val: rest, .. } => {
                        crate::ast::lemma_levels_ok_items(rest);
                        crate::ast::lemma_levels_ok_items(seq![val] + rest);
                    },
                    _ => {},
                }
            }
        },
        _ => {},
    }
}

/// Every page this grammar produces has 1-based list levels throughout.
pub proof fn lemma_page_levels(s: Seq<char>, i: int, ind: int)
    requires
        0 <= i <= s.len(),
    ensures
        sp_page(s, i, ind) matches PRes::Found { val, .. } ==> crate::ast::levels_ok_nodes(val),
    decreases s.len() - i,
{
    match sp_list(s, i) {
        PRes::Found { next, val } => {
            lemma_list_levels(s, i);
            if i < next <= s.len() {
                lemma_page_levels(s, next, 0);
                match sp_page(s, next, 0) {
                    PRes::Found { val: rest, .. } => {
                        crate::ast::lemma_levels_ok_nodes(rest);
                        crate::ast::lemma_levels_ok_nodes(
                            seq![nrep(KindRep::List(val))] + rest,
                        );
                    },
                    _ => {},
                }
            }
        },
        PRes::Abort(_) => {},
        PRes::Miss => {
            match sp_paragraph(s, i, ind) {
                PRes::Found { next, val } => {
                    lemma_nodes_levels(s, i, ind);
                    if i < next <= s.len() {
                        lemma_page_levels(s, next, ind);
                        match sp_page(s, next, ind) {
                            PRes::Found { val: rest, .. } => {
                                crate::ast::lemma_levels_ok_nodes(rest);
                                crate::ast::lemma_levels_ok_nodes(
                                    seq![nrep(KindRep::Paragraph(val))] + rest,
                                );
                            },
                            _ => {},
                        }
                    }
                },
                _ => {},
            }
        },
    }
}

} // verus!
