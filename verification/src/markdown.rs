//! Grammar of the Markdown-like dialect: fenced code blocks, pipe tables,
//! lists with a locked indent convention, and the inline constructs.  Every
//! rule's executable parser returns exactly what its specification twin
//! computes on the view of the input.
use vstd::prelude::*;

use crate::ast::CodeBlock;
use crate::ast::Emphasis;
use crate::ast::ExternalLink;
use crate::ast::Heading;
use crate::ast::Image;
use crate::ast::InternalLink;
use crate::ast::ItemRep;
use crate::ast::KindRep;
use crate::ast::List;
use crate::ast::ListItem;
use crate::ast::ListKind;
use crate::ast::Math;
use crate::ast::Node;
use crate::ast::NodeKind;
use crate::ast::NodeRep;
use crate::ast::Page;
use crate::ast::Paragraph;
use crate::ast::Table;
use crate::ast::items_rep;
use crate::ast::nodes_rep;
use crate::ast::strs_rep;
use crate::ast::rows_rep;
use crate::error::PFail;
use crate::error::PRes;
use crate::error::agrees;
use crate::scrapbox::nrep;
use crate::strutil;
use crate::utils;

verus! {

/// The unit of one indentation level of a Markdown list: a tab, or a fixed
/// number of spaces.
#[derive(Debug, Copy, Clone, PartialEq)]
pub enum IndentKind {
    Tab,
    Space { size: usize },
}

/// The characters of one indent unit.
pub open spec fn sp_indent_unit(k: IndentKind) -> Seq<char> {
    match k {
        IndentKind::Tab => seq!['\t'],
        IndentKind::Space { size } => strutil::repeat_str(seq![' '], size as nat),
    }
}

proof fn lemma_repeat_len(unit: Seq<char>, n: nat)
    ensures
        strutil::repeat_str(unit, n).len() == n * unit.len(),
    decreases n,
{
    if n > 0 {
        lemma_repeat_len(unit, (n - 1) as nat);
        assert(strutil::repeat_str(unit, n).len() == (n - 1) * unit.len() + unit.len());
        assert((n - 1) * unit.len() + unit.len() == n * unit.len()) by (nonlinear_arith);
    } else {
        assert(0 * unit.len() == 0) by (nonlinear_arith);
    }
}

impl IndentKind {
    /// The indent unit as a string.
    pub fn to_string(&self) -> (r: String)
        ensures
            r@ == sp_indent_unit(*self),
    {
        match self {
            IndentKind::Tab => {
                let t = String::from_str("\t");
                proof {
                    reveal_strlit("\t");
                    assert(t@ =~= seq!['\t']);
                }
                t
            },
            IndentKind::Space { size } => {
                let mut out = String::new();
                strutil::push_repeat(&mut out, " ", *size);
                proof {
                    reveal_strlit(" ");
                    assert(" "@ =~= seq![' ']);
                    assert(out@ =~= strutil::repeat_str(seq![' '], *size as nat));
                }
                out
            },
        }
    }
}

#[derive(Debug, Copy, Clone, PartialEq)]
pub struct MarkdownParserConfig {}

impl Default for MarkdownParserConfig {
    fn default() -> Self {
        Self {  }
    }
}

/// Context threaded through the Markdown rules: the indent convention that
/// the first indented item of the current list locked, if any.
#[derive(Debug, Copy, Clone, PartialEq)]
pub struct MarkdownParserContext {
    pub config: MarkdownParserConfig,
    pub indent: Option<IndentKind>,
}

impl Default for MarkdownParserContext {
    fn default() -> (r: Self)
        ensures
            r.indent is None,
    {
        Self { config: MarkdownParserConfig {  }, indent: None }
    }
}

// ---------------------------------------------------------------------------
// Inline rules
// ---------------------------------------------------------------------------
/// [[internal link]]
pub open spec fn sp_internal_link(s: Seq<char>, i: int) -> PRes<Seq<char>> {
    if i + 1 < s.len() && s[i] == '[' && s[i + 1] == '[' {
        let j = utils::sp_scan_to(s, i + 2, ']');
        if j + 1 < s.len() && s[j + 1] == ']' {
            PRes::Found { next: j + 2, val: s.subrange(i + 2, j) }
        } else {
            PRes::Miss
        }
    } else {
        PRes::Miss
    }
}

pub fn internal_link(s: &str, i: usize) -> (r: Result<(usize, InternalLink), PFail>)
    requires
        i <= s@.len(),
    ensures
        agrees(r, sp_internal_link(s@, i as int)),
        r matches Ok((j, _)) ==> i < j <= s@.len(),
{
    let n = s.unicode_len();
    if i < n && n - i > 1 && s.get_char(i) == '[' && s.get_char(i + 1) == '[' {
        let j = utils::scan_to(s, i + 2, ']');
        if j < n && n - j > 1 && s.get_char(j + 1) == ']' {
            Ok((j + 2, InternalLink { title: s.substring_char(i + 2, j).to_owned() }))
        } else {
            Err(PFail::Mismatch)
        }
    } else {
        Err(PFail::Mismatch)
    }
}

/// [Rust](https://www.rust-lang.org/)
pub open spec fn sp_external_link(s: Seq<char>, i: int) -> PRes<(Option<Seq<char>>, Seq<char>)> {
    match utils::sp_brackets(s, i) {
        PRes::Found { next, val: title } => match utils::sp_parentheses(s, next) {
            PRes::Found { next: next2, val: u } => PRes::Found {
                next: next2,
                val: (Some(title), u),
            },
            _ => PRes::Miss,
        },
        _ => PRes::Miss,
    }
}

pub fn external_link(s: &str, i: usize) -> (r: Result<(usize, ExternalLink), PFail>)
    requires
        i <= s@.len(),
    ensures
        agrees(r, sp_external_link(s@, i as int)),
        r matches Ok((j, _)) ==> i < j <= s@.len(),
{
    match utils::brackets(s, i) {
        Ok((next, title)) => {
            match utils::parentheses(s, next) {
                Ok((next2, u)) => Ok((next2, ExternalLink { title: Some(title), url: u })),
                Err(_) => Err(PFail::Mismatch),
            }
        },
        Err(_) => Err(PFail::Mismatch),
    }
}

/// ![[test.png]]: an image embed of a wiki-style file reference, accepted
/// only when the name ends in an image extension.
pub open spec fn sp_image_internal_link(s: Seq<char>, i: int) -> PRes<Seq<char>> {
    if i + 2 < s.len() && s[i] == '!' && s[i + 1] == '[' && s[i + 2] == '[' {
        let j = utils::sp_scan_to(s, i + 3, ']');
        if j + 1 < s.len() && s[j + 1] == ']' {
            let u = s.subrange(i + 3, j);
            if utils::sp_is_image_url(u) {
                PRes::Found { next: j + 2, val: u }
            } else {
                PRes::Miss
            }
        } else {
            PRes::Miss
        }
    } else {
        PRes::Miss
    }
}

pub fn image_internal_link(s: &str, i: usize) -> (r: Result<(usize, Image), PFail>)
    requires
        i <= s@.len(),
    ensures
        agrees(r, sp_image_internal_link(s@, i as int)),
        r matches Ok((j, _)) ==> i < j <= s@.len(),
{
    let n = s.unicode_len();
    if i < n && n - i > 2 && s.get_char(i) == '!' && s.get_char(i + 1) == '[' && s.get_char(i + 2)
        == '[' {
        let j = utils::scan_to(s, i + 3, ']');
        if j < n && n - j > 1 && s.get_char(j + 1) == ']' {
            let u = s.substring_char(i + 3, j).to_owned();
            if utils::is_image_url(u.as_str()) {
                Ok((j + 2, Image { uri: u }))
            } else {
                Err(PFail::Mismatch)
            }
        } else {
            Err(PFail::Mismatch)
        }
    } else {
        Err(PFail::Mismatch)
    }
}

/// ![title](url), accepted only when the URL ends in an image extension.
pub open spec fn sp_image(s: Seq<char>, i: int) -> PRes<Seq<char>> {
    if i < s.len() && s[i] == '!' {
        match utils::sp_brackets(s, i + 1) {
            PRes::Found { next, .. } => match utils::sp_parentheses(s, next) {
                PRes::Found { next: next2, val: u } => if utils::sp_is_image_url(u) {
                    PRes::Found { next: next2, val: u }
                } else {
                    PRes::Miss
                },
                _ => PRes::Miss,
            },
            _ => PRes::Miss,
        }
    } else {
        PRes::Miss
    }
}

pub fn image(s: &str, i: usize) -> (r: Result<(usize, Image), PFail>)
    requires
        i <= s@.len(),
    ensures
        agrees(r, sp_image(s@, i as int)),
        r matches Ok((j, _)) ==> i < j <= s@.len(),
{
    let n = s.unicode_len();
    if i < n && s.get_char(i) == '!' {
        match utils::brackets(s, i + 1) {
            Ok((next, _title)) => {
                match utils::parentheses(s, next) {
                    Ok((next2, u)) => {
                        if utils::is_image_url(u.as_str()) {
                            Ok((next2, Image { uri: u }))
                        } else {
                            Err(PFail::Mismatch)
                        }
                    },
                    Err(_) => Err(PFail::Mismatch),
                }
            },
            Err(_) => Err(PFail::Mismatch),
        }
    } else {
        Err(PFail::Mismatch)
    }
}

/// `#`×N, a space, then the rest of the line.
pub open spec fn sp_heading(s: Seq<char>, i: int) -> PRes<(Seq<char>, nat)> {
    let t = utils::sp_scan_run(s, i, '#');
    if t > i && t < s.len() && s[t] == ' ' {
        let e = utils::sp_scan_to(s, t + 1, '\n');
        PRes::Found { next: e, val: (s.subrange(t + 1, e), (t - i) as nat) }
    } else {
        PRes::Miss
    }
}

pub fn heading(s: &str, i: usize) -> (r: Result<(usize, Heading), PFail>)
    requires
        i <= s@.len(),
    ensures
        agrees(r, sp_heading(s@, i as int)),
        r matches Ok((j, _)) ==> i < j <= s@.len(),
{
    let n = s.unicode_len();
    let t = utils::scan_run(s, i, '#');
    if t > i && t < n && s.get_char(t) == ' ' {
        let e = utils::scan_to(s, t + 1, '\n');
        Ok((e, Heading { text: s.substring_char(t + 1, e).to_owned(), level: t - i }))
    } else {
        Err(PFail::Mismatch)
    }
}

/// A two-character delimiter pair around text free of its inner character:
/// the shared shape of `**bold**`, `~~strikethrough~~` and `$$math$$`.
pub open spec fn sp_doubled(s: Seq<char>, i: int, c: char) -> PRes<Seq<char>> {
    if i + 1 < s.len() && s[i] == c && s[i + 1] == c {
        let j = utils::sp_scan_to(s, i + 2, c);
        if j + 1 < s.len() && s[j + 1] == c {
            PRes::Found { next: j + 2, val: s.subrange(i + 2, j) }
        } else {
            PRes::Miss
        }
    } else {
        PRes::Miss
    }
}

fn doubled(s: &str, i: usize, c: char) -> (r: Result<(usize, String), PFail>)
    requires
        i <= s@.len(),
    ensures
        agrees(r, sp_doubled(s@, i as int, c)),
        r matches Ok((j, _)) ==> i < j <= s@.len(),
{
    let n = s.unicode_len();
    if i < n && n - i > 1 && s.get_char(i) == c && s.get_char(i + 1) == c {
        let j = utils::scan_to(s, i + 2, c);
        if j < n && n - j > 1 && s.get_char(j + 1) == c {
            Ok((j + 2, s.substring_char(i + 2, j).to_owned()))
        } else {
            Err(PFail::Mismatch)
        }
    } else {
        Err(PFail::Mismatch)
    }
}

/// *italic*
pub open spec fn sp_italic(s: Seq<char>, i: int) -> PRes<Seq<char>> {
    if i < s.len() && s[i] == '*' {
        let j = utils::sp_scan_to(s, i + 1, '*');
        if j < s.len() {
            PRes::Found { next: j + 1, val: s.subrange(i + 1, j) }
        } else {
            PRes::Miss
        }
    } else {
        PRes::Miss
    }
}

fn italic(s: &str, i: usize) -> (r: Result<(usize, String), PFail>)
    requires
        i <= s@.len(),
    ensures
        agrees(r, sp_italic(s@, i as int)),
        r matches Ok((j, _)) ==> i < j <= s@.len(),
{
    let n = s.unicode_len();
    if i < n && s.get_char(i) == '*' {
        let j = utils::scan_to(s, i + 1, '*');
        if j < n {
            Ok((j + 1, s.substring_char(i + 1, j).to_owned()))
        } else {
            Err(PFail::Mismatch)
        }
    } else {
        Err(PFail::Mismatch)
    }
}

/// Bold, italic or strikethrough, tried in that order, without nesting.
pub open spec fn sp_emphasis(s: Seq<char>, i: int) -> PRes<(Seq<char>, nat, nat, nat)> {
    match sp_doubled(s, i, '*') {
        PRes::Found { next, val } => PRes::Found { next, val: (val, 1, 0, 0) },
        _ => match sp_italic(s, i) {
            PRes::Found { next, val } => PRes::Found { next, val: (val, 0, 1, 0) },
            _ => match sp_doubled(s, i, '~') {
                PRes::Found { next, val } => PRes::Found { next, val: (val, 0, 0, 1) },
                _ => PRes::Miss,
            },
        },
    }
}

pub fn emphasis(s: &str, i: usize) -> (r: Result<(usize, Emphasis), PFail>)
    requires
        i <= s@.len(),
    ensures
        agrees(r, sp_emphasis(s@, i as int)),
        r matches Ok((j, _)) ==> i < j <= s@.len(),
{
    match doubled(s, i, '*') {
        Ok((j, v)) => {
            return Ok((j, Emphasis { text: v, bold: 1, italic: 0, strikethrough: 0 }));
        },
        Err(_) => {},
    }
    match italic(s, i) {
        Ok((j, v)) => {
            return Ok((j, Emphasis { text: v, bold: 0, italic: 1, strikethrough: 0 }));
        },
        Err(_) => {},
    }
    match doubled(s, i, '~') {
        Ok((j, v)) => Ok((j, Emphasis { text: v, bold: 0, italic: 0, strikethrough: 1 })),
        Err(e) => Err(e),
    }
}

/// $$ Tex here $$
pub open spec fn sp_math(s: Seq<char>, i: int) -> PRes<Seq<char>> {
    sp_doubled(s, i, '$')
}

pub fn math(s: &str, i: usize) -> (r: Result<(usize, Math), PFail>)
    requires
        i <= s@.len(),
    ensures
        agrees(r, sp_math(s@, i as int)),
        r matches Ok((j, _)) ==> i < j <= s@.len(),
{
    match doubled(s, i, '$') {
        Ok((j, v)) => Ok((j, Math { value: v })),
        Err(e) => Err(e),
    }
}

// ---------------------------------------------------------------------------
// Fenced code block
// ---------------------------------------------------------------------------
/// Splits the fence's inner text into lines, each terminated by a line
/// break; leftover text without one is a grammar-internal inconsistency.
pub open spec fn sp_fence_lines(t: Seq<char>, k: int) -> Option<Seq<Seq<char>>>
    decreases t.len() - k when 0 <= k <= t.len()
    via sp_fence_lines_decreases
{
    if k == t.len() {
        Some(Seq::empty())
    } else {
        let j = utils::sp_scan_to(t, k, '\n');
        if j < t.len() {
            match sp_fence_lines(t, j + 1) {
                Some(rest) => Some(seq![t.subrange(k, j)] + rest),
                None => None,
            }
        } else {
            None
        }
    }
}

#[via_fn]
proof fn sp_fence_lines_decreases(t: Seq<char>, k: int) {
    utils::lemma_scan_to(t, k, '\n');
}

fn fence_lines(t: &str, from: usize) -> (r: Option<Vec<String>>)
    requires
        from <= t@.len(),
    ensures
        match r {
            Some(v) => sp_fence_lines(t@, from as int) matches Some(sv) && strs_rep(v@) == sv,
            None => sp_fence_lines(t@, from as int) is None,
        },
    decreases t@.len() - from,
{
    let n = t.unicode_len();
    if from == n {
        let empty: Vec<String> = Vec::new();
        proof {
            assert(strs_rep(empty@) =~= Seq::<Seq<char>>::empty());
        }
        Some(empty)
    } else {
        let j = utils::scan_to(t, from, '\n');
        if j < n {
            match fence_lines(t, j + 1) {
                Some(mut rest) => {
                    rest.insert(0, t.substring_char(from, j).to_owned());
                    proof {
                        assert(strs_rep(rest@) =~= sp_fence_lines(t@, from as int)->0);
                    }
                    Some(rest)
                },
                None => None,
            }
        } else {
            None
        }
    }
}

/// ```name ... ``` with the closing fence on its own line.
pub open spec fn sp_code_block(s: Seq<char>, i: int) -> PRes<(Seq<char>, Seq<Seq<char>>)> {
    if i + 3 <= s.len() && s[i] == '`' && s[i + 1] == '`' && s[i + 2] == '`' {
        let f = utils::sp_scan_to(s, i + 3, '\n');
        if f < s.len() {
            let b = f + 1;
            let g = utils::sp_scan_triple(s, b, '`', '`', '`');
            if g < s.len() && g + 3 < s.len() && s[g + 3] == '\n' {
                match sp_fence_lines(s.subrange(b, g), 0) {
                    Some(lines) => PRes::Found {
                        next: g + 4,
                        val: (s.subrange(i + 3, f), lines),
                    },
                    None => PRes::Abort(b),
                }
            } else {
                PRes::Miss
            }
        } else {
            PRes::Miss
        }
    } else {
        PRes::Miss
    }
}

pub fn code_block(s: &str, i: usize) -> (r: Result<(usize, CodeBlock), PFail>)
    requires
        i <= s@.len(),
    ensures
        agrees(r, sp_code_block(s@, i as int)),
        r matches Ok((j, _)) ==> i < j <= s@.len(),
{
    let n = s.unicode_len();
    if n - i >= 3 && s.get_char(i) == '`' && s.get_char(i + 1) == '`' && s.get_char(i + 2) == '`' {
        let f = utils::scan_to(s, i + 3, '\n');
        if f < n {
            let b = f + 1;
            let g = utils::scan_triple(s, b, '`', '`', '`');
            if g < n && n - g > 3 && s.get_char(g + 3) == '\n' {
                let inner = s.substring_char(b, g).to_owned();
                match fence_lines(inner.as_str(), 0) {
                    Some(lines) => {
                        let name = s.substring_char(i + 3, f).to_owned();
                        Ok((g + 4, CodeBlock { file_name: name, children: lines }))
                    },
                    None => Err(PFail::Internal(b)),
                }
            } else {
                Err(PFail::Mismatch)
            }
        } else {
            Err(PFail::Mismatch)
        }
    } else {
        Err(PFail::Mismatch)
    }
}

// ---------------------------------------------------------------------------
// Pipe table
// ---------------------------------------------------------------------------
/// The trimmed cells after the opening `|` of a row line: each cell runs to
/// the next `|`; leftover text after the last `|` is a grammar-internal
/// inconsistency, and a line without any `|` after the first is no row.
pub open spec fn sp_pipe_cells(t: Seq<char>, k: int) -> PRes<Seq<Seq<char>>>
    decreases t.len() - k when 0 <= k <= t.len()
    via sp_pipe_cells_decreases
{
    let j = utils::sp_scan_to(t, k, '|');
    if j < t.len() {
        match sp_pipe_cells(t, j + 1) {
            PRes::Found { next, val } => PRes::Found {
                next,
                val: seq![utils::sp_trim(t.subrange(k, j))] + val,
            },
            PRes::Miss => PRes::Found {
                next: t.len() as int,
                val: seq![utils::sp_trim(t.subrange(k, j))],
            },
            PRes::Abort(p) => PRes::Abort(p),
        }
    } else if k == t.len() {
        PRes::Miss
    } else {
        PRes::Abort(k)
    }
}

#[via_fn]
proof fn sp_pipe_cells_decreases(t: Seq<char>, k: int) {
    utils::lemma_scan_to(t, k, '|');
}

fn pipe_cells(t: &str, from: usize) -> (r: Result<Vec<String>, PFail>)
    requires
        from <= t@.len(),
    ensures
        match r {
            Ok(v) => sp_pipe_cells(t@, from as int) matches PRes::Found { val, .. } && strs_rep(
                v@,
            ) == val,
            Err(PFail::Mismatch) => sp_pipe_cells(t@, from as int) is Miss,
            Err(PFail::Internal(p)) => sp_pipe_cells(t@, from as int) matches PRes::Abort(q)
                && p == q && p <= t@.len(),
        },
    decreases t@.len() - from,
{
    let n = t.unicode_len();
    let j = utils::scan_to(t, from, '|');
    if j < n {
        let cell = utils::trim_range(t, from, j);
        match pipe_cells(t, j + 1) {
            Ok(mut rest) => {
                rest.insert(0, cell);
                proof {
                    assert(strs_rep(rest@) =~= sp_pipe_cells(t@, from as int)->Found_val);
                }
                Ok(rest)
            },
            Err(PFail::Mismatch) => {
                let mut one: Vec<String> = Vec::new();
                one.push(cell);
                proof {
                    assert(strs_rep(one@) =~= sp_pipe_cells(t@, from as int)->Found_val);
                }
                Ok(one)
            },
            Err(e) => Err(e),
        }
    } else if from == n {
        Err(PFail::Mismatch)
    } else {
        Err(PFail::Internal(from))
    }
}

/// One table row: a full line starting with `|`, split into trimmed cells.
pub open spec fn sp_md_row(s: Seq<char>, i: int) -> PRes<Seq<Seq<char>>> {
    let e = utils::sp_scan_to(s, i, '\n');
    if e < s.len() && i < e && s[i] == '|' {
        match sp_pipe_cells(s.subrange(i, e), 1) {
            PRes::Found { val, .. } => PRes::Found { next: e + 1, val },
            PRes::Miss => PRes::Miss,
            PRes::Abort(p) => PRes::Abort(i + p),
        }
    } else {
        PRes::Miss
    }
}

fn md_row(s: &str, i: usize) -> (r: Result<(usize, Vec<String>), PFail>)
    requires
        i <= s@.len(),
    ensures
        match r {
            Ok((j, v)) => sp_md_row(s@, i as int) matches PRes::Found { next, val } && j as int
                == next && strs_rep(v@) == val && i < j <= s@.len(),
            Err(PFail::Mismatch) => sp_md_row(s@, i as int) is Miss,
            Err(PFail::Internal(p)) => sp_md_row(s@, i as int) matches PRes::Abort(q) && p == q,
        },
{
    let n = s.unicode_len();
    let e = utils::scan_to(s, i, '\n');
    if e < n && i < e && s.get_char(i) == '|' {
        let line = s.substring_char(i, e).to_owned();
        match pipe_cells(line.as_str(), 1) {
            Ok(cells) => Ok((e + 1, cells)),
            Err(PFail::Mismatch) => Err(PFail::Mismatch),
            Err(PFail::Internal(p)) => Err(PFail::Internal(i + p)),
        }
    } else {
        Err(PFail::Mismatch)
    }
}

/// Zero or more data rows.
pub open spec fn sp_md_rows(s: Seq<char>, i: int) -> PRes<(int, Seq<Seq<Seq<char>>>)>
    decreases s.len() - i when 0 <= i <= s.len()
{
    match sp_md_row(s, i) {
        PRes::Miss => PRes::Found { next: i, val: (i, Seq::empty()) },
        PRes::Abort(p) => PRes::Abort(p),
        PRes::Found { next, val } => if i < next <= s.len() {
            match sp_md_rows(s, next) {
                PRes::Found { next: j, val: (_, rest) } => PRes::Found {
                    next: j,
                    val: (j, seq![val] + rest),
                },
                PRes::Abort(p) => PRes::Abort(p),
                PRes::Miss => PRes::Miss,
            }
        } else {
            PRes::Found { next: i, val: (i, Seq::empty()) }
        },
    }
}

fn md_rows(s: &str, i: usize) -> (r: Result<(usize, Vec<Vec<String>>), PFail>)
    requires
        i <= s@.len(),
    ensures
        match r {
            Ok((j, v)) => sp_md_rows(s@, i as int) matches PRes::Found { next, val } && j as int
                == next && rows_rep(v@) == val.1 && i <= j <= s@.len(),
            Err(PFail::Mismatch) => sp_md_rows(s@, i as int) is Miss,
            Err(PFail::Internal(p)) => sp_md_rows(s@, i as int) matches PRes::Abort(q) && p == q,
        },
    decreases s@.len() - i,
{
    match md_row(s, i) {
        Err(PFail::Mismatch) => {
            let empty: Vec<Vec<String>> = Vec::new();
            proof {
                assert(rows_rep(empty@) =~= Seq::<Seq<Seq<char>>>::empty());
            }
            Ok((i, empty))
        },
        Err(e) => Err(e),
        Ok((j, row)) => {
            match md_rows(s, j) {
                Ok((k, mut rest)) => {
                    let ghost old_rest = rest@;
                    rest.insert(0, row);
                    proof {
                        assert(rest@ =~= old_rest.insert(0, row));
                        assert(rows_rep(rest@) =~= seq![crate::ast::row_rep(row)] + rows_rep(
                            old_rest,
                        ));
                    }
                    Ok((k, rest))
                },
                Err(e) => Err(e),
            }
        },
    }
}

/// | a | b | c | over a separator row, then data rows; the name is fixed.
pub open spec fn sp_table(s: Seq<char>, i: int) -> PRes<
    (Seq<char>, Seq<Seq<char>>, Seq<Seq<Seq<char>>>),
> {
    match sp_md_row(s, i) {
        PRes::Found { next, val: header } => match sp_md_row(s, next) {
            PRes::Found { next: next2, .. } => match sp_md_rows(s, next2) {
                PRes::Found { next: j, val: (_, rows) } => PRes::Found {
                    next: j,
                    val: ("table"@, header, rows),
                },
                PRes::Abort(p) => PRes::Abort(p),
                PRes::Miss => PRes::Miss,
            },
            PRes::Abort(p) => PRes::Abort(p),
            PRes::Miss => PRes::Miss,
        },
        PRes::Abort(p) => PRes::Abort(p),
        PRes::Miss => PRes::Miss,
    }
}

pub fn table(s: &str, i: usize) -> (r: Result<(usize, Table), PFail>)
    requires
        i <= s@.len(),
    ensures
        agrees(r, sp_table(s@, i as int)),
        r matches Ok((j, _)) ==> i < j <= s@.len(),
{
    match md_row(s, i) {
        Err(e) => Err(e),
        Ok((next, header)) => {
            match md_row(s, next) {
                Err(e) => Err(e),
                Ok((next2, _sep)) => {
                    match md_rows(s, next2) {
                        Err(e) => Err(e),
                        Ok((j, rows)) => Ok((j, Table::new("table", header, rows))),
                    }
                },
            }
        },
    }
}

// ---------------------------------------------------------------------------
// Inline node alternatives
// ---------------------------------------------------------------------------
pub open spec fn sp_node(s: Seq<char>, i: int) -> PRes<NodeRep> {
    match sp_heading(s, i) {
        PRes::Found { next, val } => PRes::Found { next, val: nrep(KindRep::Heading(val.0, val.1)) },
        PRes::Abort(p) => PRes::Abort(p),
        PRes::Miss => match utils::sp_hashtag(s, i) {
            PRes::Found { next, val } => PRes::Found { next, val: nrep(KindRep::HashTag(val)) },
            PRes::Abort(p) => PRes::Abort(p),
            PRes::Miss => match utils::sp_block_quate(s, i) {
                PRes::Found { next, val } => PRes::Found {
                    next,
                    val: nrep(KindRep::BlockQuate(val)),
                },
                PRes::Abort(p) => PRes::Abort(p),
                PRes::Miss => match sp_image(s, i) {
                    PRes::Found { next, val } => PRes::Found {
                        next,
                        val: nrep(KindRep::Image(val)),
                    },
                    PRes::Abort(p) => PRes::Abort(p),
                    PRes::Miss => match sp_emphasis(s, i) {
                        PRes::Found { next, val } => PRes::Found {
                            next,
                            val: nrep(KindRep::Emphasis(val.0, val.1, val.2, val.3)),
                        },
                        PRes::Abort(p) => PRes::Abort(p),
                        PRes::Miss => match sp_external_link(s, i) {
                            PRes::Found { next, val } => PRes::Found {
                                next,
                                val: nrep(KindRep::ExternalLink(val.0, val.1)),
                            },
                            PRes::Abort(p) => PRes::Abort(p),
                            PRes::Miss => match sp_math(s, i) {
                                PRes::Found { next, val } => PRes::Found {
                                    next,
                                    val: nrep(KindRep::Math(val)),
                                },
                                PRes::Abort(p) => PRes::Abort(p),
                                PRes::Miss => match sp_image_internal_link(s, i) {
                                    PRes::Found { next, val } => PRes::Found {
                                        next,
                                        val: nrep(KindRep::Image(val)),
                                    },
                                    PRes::Abort(p) => PRes::Abort(p),
                                    PRes::Miss => match sp_internal_link(s, i) {
                                        PRes::Found { next, val } => PRes::Found {
                                            next,
                                            val: nrep(KindRep::InternalLink(val)),
                                        },
                                        PRes::Abort(p) => PRes::Abort(p),
                                        PRes::Miss => match utils::sp_external_link_plain(s, i) {
                                            PRes::Found { next, val } => PRes::Found {
                                                next,
                                                val: nrep(KindRep::ExternalLink(val.0, val.1)),
                                            },
                                            PRes::Abort(p) => PRes::Abort(p),
                                            PRes::Miss => match utils::sp_text(s, i) {
                                                PRes::Found { next, val } => PRes::Found {
                                                    next,
                                                    val: nrep(KindRep::Text(val)),
                                                },
                                                PRes::Abort(p) => PRes::Abort(p),
                                                PRes::Miss => PRes::Miss,
                                            },
                                        },
                                    },
                                },
                            },
                        },
                    },
                },
            },
        },
    }
}

pub fn node(s: &str, i: usize) -> (r: Result<(usize, Node), PFail>)
    requires
        i <= s@.len(),
    ensures
        agrees(r, sp_node(s@, i as int)),
        r matches Ok((j, _)) ==> i < j <= s@.len(),
        r matches Err(PFail::Internal(p)) ==> p <= s@.len(),
{
    match heading(s, i) {
        Ok((j, v)) => {
            return Ok((j, Node::new(NodeKind::Heading(v))));
        },
        Err(PFail::Internal(p)) => {
            return Err(PFail::Internal(p));
        },
        Err(PFail::Mismatch) => {},
    }
    match utils::hashtag(s, i) {
        Ok((j, v)) => {
            return Ok((j, Node::new(NodeKind::HashTag(v))));
        },
        Err(PFail::Internal(p)) => {
            return Err(PFail::Internal(p));
        },
        Err(PFail::Mismatch) => {},
    }
    match utils::block_quate(s, i) {
        Ok((j, v)) => {
            return Ok((j, Node::new(NodeKind::BlockQuate(v))));
        },
        Err(PFail::Internal(p)) => {
            return Err(PFail::Internal(p));
        },
        Err(PFail::Mismatch) => {},
    }
    match image(s, i) {
        Ok((j, v)) => {
            return Ok((j, Node::new(NodeKind::Image(v))));
        },
        Err(PFail::Internal(p)) => {
            return Err(PFail::Internal(p));
        },
        Err(PFail::Mismatch) => {},
    }
    match emphasis(s, i) {
        Ok((j, v)) => {
            return Ok((j, Node::new(NodeKind::Emphasis(v))));
        },
        Err(PFail::Internal(p)) => {
            return Err(PFail::Internal(p));
        },
        Err(PFail::Mismatch) => {},
    }
    match external_link(s, i) {
        Ok((j, v)) => {
            return Ok((j, Node::new(NodeKind::ExternalLink(v))));
        },
        Err(PFail::Internal(p)) => {
            return Err(PFail::Internal(p));
        },
        Err(PFail::Mismatch) => {},
    }
    match math(s, i) {
        Ok((j, v)) => {
            return Ok((j, Node::new(NodeKind::Math(v))));
        },
        Err(PFail::Internal(p)) => {
            return Err(PFail::Internal(p));
        },
        Err(PFail::Mismatch) => {},
    }
    match image_internal_link(s, i) {
        Ok((j, v)) => {
            return Ok((j, Node::new(NodeKind::Image(v))));
        },
        Err(PFail::Internal(p)) => {
            return Err(PFail::Internal(p));
        },
        Err(PFail::Mismatch) => {},
    }
    match internal_link(s, i) {
        Ok((j, v)) => {
            return Ok((j, Node::new(NodeKind::InternalLink(v))));
        },
        Err(PFail::Internal(p)) => {
            return Err(PFail::Internal(p));
        },
        Err(PFail::Mismatch) => {},
    }
    match utils::external_link_plain(s, i) {
        Ok((j, v)) => {
            return Ok((j, Node::new(NodeKind::ExternalLink(v))));
        },
        Err(PFail::Internal(p)) => {
            return Err(PFail::Internal(p));
        },
        Err(PFail::Mismatch) => {},
    }
    match utils::text(s, i) {
        Ok((j, v)) => Ok((j, Node::new(NodeKind::Text(v)))),
        Err(e) => Err(e),
    }
}

/// Zero or more inline nodes.
pub open spec fn sp_nodes(s: Seq<char>, i: int) -> PRes<Seq<NodeRep>>
    decreases s.len() - i when 0 <= i <= s.len()
{
    match sp_node(s, i) {
        PRes::Miss => PRes::Found { next: i, val: Seq::empty() },
        PRes::Abort(p) => PRes::Abort(p),
        PRes::Found { next, val } => if i < next <= s.len() {
            match sp_nodes(s, next) {
                PRes::Found { next: j, val: rest } => PRes::Found {
                    next: j,
                    val: seq![val] + rest,
                },
                PRes::Abort(p) => PRes::Abort(p),
                PRes::Miss => PRes::Miss,
            }
        } else {
            PRes::Found { next: i, val: Seq::empty() }
        },
    }
}

pub fn nodes(s: &str, i: usize) -> (r: Result<(usize, Vec<Node>), PFail>)
    requires
        i <= s@.len(),
    ensures
        crate::scrapbox::agrees_nodes(r, sp_nodes(s@, i as int)),
        r matches Ok((j, _)) ==> i <= j <= s@.len(),
        r matches Err(PFail::Internal(p)) ==> p <= s@.len(),
    decreases s@.len() - i,
{
    match node(s, i) {
        Err(PFail::Mismatch) => {
            let empty: Vec<Node> = Vec::new();
            proof {
                assert(nodes_rep(empty@) =~= Seq::<NodeRep>::empty());
            }
            Ok((i, empty))
        },
        Err(e) => Err(e),
        Ok((j, nd)) => {
            match nodes(s, j) {
                Ok((k, mut rest)) => {
                    let ghost old_rest = rest@;
                    rest.insert(0, nd);
                    proof {
                        crate::ast::lemma_nodes_rep_cons(old_rest, nd);
                        assert(rest@ =~= old_rest.insert(0, nd));
                        assert(nodes_rep(rest@) =~= seq![crate::ast::node_rep(nd)] + nodes_rep(
                            old_rest,
                        ));
                    }
                    Ok((k, rest))
                },
                Err(e) => Err(e),
            }
        },
    }
}

// ---------------------------------------------------------------------------
// Paragraph
// ---------------------------------------------------------------------------
/// A full physical line whose inline content is re-parsed; the sub-parse
/// must consume the whole line, else the parse aborts.
pub open spec fn sp_paragraph(s: Seq<char>, i: int) -> PRes<Seq<NodeRep>> {
    let e = utils::sp_scan_to(s, i, '\n');
    if e < s.len() {
        let content = s.subrange(i, e);
        match sp_nodes(content, 0) {
            PRes::Found { next, val } => if next == content.len() {
                PRes::Found { next: e + 1, val }
            } else {
                PRes::Abort(i)
            },
            PRes::Abort(p) => PRes::Abort(i + p),
            PRes::Miss => PRes::Miss,
        }
    } else {
        PRes::Miss
    }
}

pub fn paragraph(s: &str, i: usize) -> (r: Result<(usize, Paragraph), PFail>)
    requires
        i <= s@.len(),
    ensures
        agrees(r, sp_paragraph(s@, i as int)),
        r matches Ok((j, _)) ==> i < j <= s@.len(),
{
    let n = s.unicode_len();
    let e = utils::scan_to(s, i, '\n');
    if e < n {
        let content = s.substring_char(i, e).to_owned();
        let m = content.as_str().unicode_len();
        match nodes(content.as_str(), 0) {
            Ok((next, children)) => {
                if next == m {
                    Ok((e + 1, Paragraph { children }))
                } else {
                    Err(PFail::Internal(i))
                }
            },
            Err(PFail::Internal(p)) => Err(PFail::Internal(i + p)),
            Err(PFail::Mismatch) => Err(PFail::Mismatch),
        }
    } else {
        Err(PFail::Mismatch)
    }
}

// ---------------------------------------------------------------------------
// Lists with a locked indent convention
// ---------------------------------------------------------------------------
/// One list item.  The first indented item of a list decides the indent
/// unit; once locked, every item's level is the number of copies of that
/// unit at the line's start.
pub open spec fn sp_list_item(s: Seq<char>, i: int, lock: Option<IndentKind>) -> PRes<
    (ItemRep, Option<IndentKind>),
> {
    let probe = sp_item_indent(s, i, lock);
    match probe {
        None => PRes::Miss,
        Some((level, lock2, pos)) => {
            let d = utils::sp_scan_digits(s, pos);
            let dec = d > pos && d + 2 <= s.len() && s[d] == '.' && s[d + 1] == ' ';
            let disc = pos + 2 <= s.len() && (s[pos] == '*' || s[pos] == '-') && s[pos + 1]
                == ' ';
            if dec || disc {
                let body = if dec {
                    d + 2
                } else {
                    pos + 2
                };
                let kind = if dec {
                    ListKind::Decimal
                } else {
                    ListKind::Disc
                };
                match sp_nodes(s, body) {
                    PRes::Found { next, val: children } => if next < s.len() && s[next]
                        == '\n' {
                        PRes::Found {
                            next: next + 1,
                            val: (ItemRep { kind, level: level as nat, children }, lock2),
                        }
                    } else {
                        PRes::Miss
                    },
                    PRes::Abort(p) => PRes::Abort(p),
                    PRes::Miss => PRes::Miss,
                }
            } else {
                PRes::Miss
            }
        },
    }
}

/// The level, possibly-updated lock, and position after the indentation of
/// an item, or nothing when the locked unit is zero-width.
pub open spec fn sp_item_indent(s: Seq<char>, i: int, lock: Option<IndentKind>) -> Option<
    (int, Option<IndentKind>, int),
> {
    match lock {
        Some(k) => {
            let u = sp_indent_unit(k);
            if u.len() == 0 {
                None
            } else {
                Some((utils::sp_count_prefix(s, i, u), lock, utils::sp_after_prefix(s, i, u)))
            }
        },
        None => {
            let t = utils::sp_scan_md_indent(s, i);
            if t == i {
                Some((0, None, i))
            } else {
                let k = if s[i] == '\t' {
                    IndentKind::Tab
                } else {
                    IndentKind::Space { size: (t - i) as usize }
                };
                Some((1, Some(k), t))
            }
        },
    }
}

pub fn list_item(s: &str, i: usize, ctx: MarkdownParserContext) -> (r: Result<
    (usize, ListItem, MarkdownParserContext),
    PFail,
>)
    requires
        i <= s@.len(),
    ensures
        match r {
            Ok((j, item, ctx2)) => sp_list_item(s@, i as int, ctx.indent) matches PRes::Found {
                next,
                val,
            } && j as int == next && item@ == val.0 && ctx2.indent == val.1 && ctx2.config
                == ctx.config && i < j <= s@.len(),
            Err(PFail::Mismatch) => sp_list_item(s@, i as int, ctx.indent) is Miss,
            Err(PFail::Internal(p)) => sp_list_item(s@, i as int, ctx.indent) matches
                PRes::Abort(q) && p == q,
        },
{
    let n = s.unicode_len();
    let (level, ctx2, pos) = match ctx.indent {
        Some(k) => {
            let u = k.to_string();
            if u.as_str().unicode_len() == 0 {
                return Err(PFail::Mismatch);
            }
            let (cnt, pos) = utils::count_prefix(s, i, u.as_str());
            (cnt, ctx, pos)
        },
        None => {
            let t = utils::scan_md_indent(s, i);
            if t == i {
                (0, ctx, i)
            } else {
                let k = if s.get_char(i) == '\t' {
                    IndentKind::Tab
                } else {
                    IndentKind::Space { size: t - i }
                };
                (1, MarkdownParserContext { config: ctx.config, indent: Some(k) }, t)
            }
        },
    };
    let d = utils::scan_digits(s, pos);
    let dec = d > pos && n - d >= 2 && s.get_char(d) == '.' && s.get_char(d + 1) == ' ';
    let mut disc = false;
    if !dec && n - pos >= 2 {
        let c0 = s.get_char(pos);
        if (c0 == '*' || c0 == '-') && s.get_char(pos + 1) == ' ' {
            disc = true;
        }
    }
    if dec || disc {
        let body = if dec {
            d + 2
        } else {
            pos + 2
        };
        let kind = if dec {
            ListKind::Decimal
        } else {
            ListKind::Disc
        };
        match nodes(s, body) {
            Ok((next, children)) => {
                if next < n && s.get_char(next) == '\n' {
                    Ok((next + 1, ListItem { kind, level, children }, ctx2))
                } else {
                    Err(PFail::Mismatch)
                }
            },
            Err(e) => Err(e),
        }
    } else {
        Err(PFail::Mismatch)
    }
}

/// The items after the first: zero or more, threading the lock.
pub open spec fn sp_list_items(s: Seq<char>, i: int, lock: Option<IndentKind>) -> PRes<
    Seq<ItemRep>,
>
    decreases s.len() - i when 0 <= i <= s.len()
{
    match sp_list_item(s, i, lock) {
        PRes::Miss => PRes::Found { next: i, val: Seq::empty() },
        PRes::Abort(p) => PRes::Abort(p),
        PRes::Found { next, val: (item, lock2) } => if i < next <= s.len() {
            match sp_list_items(s, next, lock2) {
                PRes::Found { next: j, val: rest } => PRes::Found {
                    next: j,
                    val: seq![item] + rest,
                },
                PRes::Abort(p) => PRes::Abort(p),
                PRes::Miss => PRes::Miss,
            }
        } else {
            PRes::Found { next: i, val: Seq::empty() }
        },
    }
}

fn list_items(s: &str, i: usize, ctx: MarkdownParserContext) -> (r: Result<
    (usize, Vec<ListItem>),
    PFail,
>)
    requires
        i <= s@.len(),
    ensures
        crate::scrapbox::agrees_items(r, sp_list_items(s@, i as int, ctx.indent)),
        r matches Ok((j, _)) ==> i <= j <= s@.len(),
    decreases s@.len() - i,
{
    match list_item(s, i, ctx) {
        Err(PFail::Mismatch) => {
            let empty: Vec<ListItem> = Vec::new();
            proof {
                assert(items_rep(empty@) =~= Seq::<ItemRep>::empty());
            }
            Ok((i, empty))
        },
        Err(e) => Err(e),
        Ok((j, item, ctx2)) => {
            match list_items(s, j, ctx2) {
                Ok((k, mut rest)) => {
                    let ghost old_rest = rest@;
                    rest.insert(0, item);
                    proof {
                        crate::ast::lemma_items_rep_cons(old_rest, item);
                        assert(rest@ =~= old_rest.insert(0, item));
                        assert(items_rep(rest@) =~= seq![crate::ast::item_rep(item)] + items_rep(
                            old_rest,
                        ));
                    }
                    Ok((k, rest))
                },
                Err(e) => Err(e),
            }
        },
    }
}

/// One or more list items; the indent lock is released once the list ends,
/// so a later list in the same document may lock a different convention.
pub open spec fn sp_list(s: Seq<char>, i: int, lock: Option<IndentKind>) -> PRes<Seq<ItemRep>> {
    match sp_list_item(s, i, lock) {
        PRes::Miss => PRes::Miss,
        PRes::Abort(p) => PRes::Abort(p),
        PRes::Found { next, val: (item, lock2) } => if i < next <= s.len() {
            match sp_list_items(s, next, lock2) {
                PRes::Found { next: j, val: rest } => PRes::Found {
                    next: j,
                    val: seq![item] + rest,
                },
                PRes::Abort(p) => PRes::Abort(p),
                PRes::Miss => PRes::Miss,
            }
        } else {
            PRes::Miss
        },
    }
}

pub fn list(s: &str, i: usize, ctx: MarkdownParserContext) -> (r: Result<
    (usize, List, MarkdownParserContext),
    PFail,
>)
    requires
        i <= s@.len(),
    ensures
        match r {
            Ok((j, l, ctx2)) => sp_list(s@, i as int, ctx.indent) matches PRes::Found {
                next,
                val,
            } && j as int == next && l@ == val && ctx2.indent is None && ctx2.config == ctx.config
                && i < j <= s@.len(),
            Err(PFail::Mismatch) => sp_list(s@, i as int, ctx.indent) is Miss,
            Err(PFail::Internal(p)) => sp_list(s@, i as int, ctx.indent) matches PRes::Abort(q)
                && p == q,
        },
{
    match list_item(s, i, ctx) {
        Err(e) => Err(e),
        Ok((j, item, ctx2)) => {
            match list_items(s, j, ctx2) {
                Ok((k, mut rest)) => {
                    let ghost old_rest = rest@;
                    rest.insert(0, item);
                    proof {
                        crate::ast::lemma_items_rep_cons(old_rest, item);
                        assert(rest@ =~= old_rest.insert(0, item));
                        assert(items_rep(rest@) =~= seq![crate::ast::item_rep(item)] + items_rep(
                            old_rest,
                        ));
                    }
                    // the lock is released when the list production completes
                    Ok((k, List { children: rest }, MarkdownParserContext {
                        config: ctx.config,
                        indent: None,
                    }))
                },
                Err(e) => Err(e),
            }
        },
    }
}

// ---------------------------------------------------------------------------
// Page
// ---------------------------------------------------------------------------
/// A page: blocks tried in a fixed priority order, first match wins; a
/// finished list releases the indent lock for what follows.
pub open spec fn sp_page(s: Seq<char>, i: int, lock: Option<IndentKind>) -> PRes<Seq<NodeRep>>
    decreases s.len() - i when 0 <= i <= s.len()
{
    match sp_code_block(s, i) {
        PRes::Abort(p) => PRes::Abort(p),
        PRes::Found { next, val } => if i < next <= s.len() {
            match sp_page(s, next, lock) {
                PRes::Found { next: j, val: rest } => PRes::Found {
                    next: j,
                    val: seq![nrep(KindRep::CodeBlock(val.0, val.1))] + rest,
                },
                PRes::Abort(p) => PRes::Abort(p),
                PRes::Miss => PRes::Miss,
            }
        } else {
            PRes::Found { next: i, val: Seq::empty() }
        },
        PRes::Miss => match sp_table(s, i) {
            PRes::Abort(p) => PRes::Abort(p),
            PRes::Found { next, val } => if i < next <= s.len() {
                match sp_page(s, next, lock) {
                    PRes::Found { next: j, val: rest } => PRes::Found {
                        next: j,
                        val: seq![nrep(KindRep::Table(val.0, val.1, val.2))] + rest,
                    },
                    PRes::Abort(p) => PRes::Abort(p),
                    PRes::Miss => PRes::Miss,
                }
            } else {
                PRes::Found { next: i, val: Seq::empty() }
            },
            PRes::Miss => match sp_list(s, i, lock) {
                PRes::Abort(p) => PRes::Abort(p),
                PRes::Found { next, val } => if i < next <= s.len() {
                    match sp_page(s, next, None) {
                        PRes::Found { next: j, val: rest } => PRes::Found {
                            next: j,
                            val: seq![nrep(KindRep::List(val))] + rest,
                        },
                        PRes::Abort(p) => PRes::Abort(p),
                        PRes::Miss => PRes::Miss,
                    }
                } else {
                    PRes::Found { next: i, val: Seq::empty() }
                },
                PRes::Miss => match sp_paragraph(s, i) {
                    PRes::Abort(p) => PRes::Abort(p),
                    PRes::Found { next, val } => if i < next <= s.len() {
                        match sp_page(s, next, lock) {
                            PRes::Found { next: j, val: rest } => PRes::Found {
                                next: j,
                                val: seq![nrep(KindRep::Paragraph(val))] + rest,
                            },
                            PRes::Abort(p) => PRes::Abort(p),
                            PRes::Miss => PRes::Miss,
                        }
                    } else {
                        PRes::Found { next: i, val: Seq::empty() }
                    },
                    PRes::Miss => match sp_node(s, i) {
                        PRes::Abort(p) => PRes::Abort(p),
                        PRes::Found { next, val } => if i < next <= s.len() {
                            match sp_page(s, next, lock) {
                                PRes::Found { next: j, val: rest } => PRes::Found {
                                    next: j,
                                    val: seq![val] + rest,
                                },
                                PRes::Abort(p) => PRes::Abort(p),
                                PRes::Miss => PRes::Miss,
                            }
                        } else {
                            PRes::Found { next: i, val: Seq::empty() }
                        },
                        PRes::Miss => PRes::Found { next: i, val: Seq::empty() },
                    },
                },
            },
        },
    }
}

pub fn page(s: &str, i: usize, ctx: MarkdownParserContext) -> (r: Result<(usize, Page), PFail>)
    requires
        i <= s@.len(),
    ensures
        match r {
            Ok((j, p)) => sp_page(s@, i as int, ctx.indent) matches PRes::Found { next, val }
                && j as int == next && p@ == val && i <= j <= s@.len(),
            Err(PFail::Mismatch) => sp_page(s@, i as int, ctx.indent) is Miss,
            Err(PFail::Internal(p)) => sp_page(s@, i as int, ctx.indent) matches PRes::Abort(q)
                && p == q,
        },
    decreases s@.len() - i,
{
    let step: Result<(usize, Node, MarkdownParserContext), PFail> = {
        match code_block(s, i) {
            Ok((j, v)) => Ok((j, Node::new(NodeKind::CodeBlock(v)), ctx)),
            Err(PFail::Internal(p)) => Err(PFail::Internal(p)),
            Err(PFail::Mismatch) => {
                match table(s, i) {
                    Ok((j, v)) => Ok((j, Node::new(NodeKind::Table(v)), ctx)),
                    Err(PFail::Internal(p)) => Err(PFail::Internal(p)),
                    Err(PFail::Mismatch) => {
                        match list(s, i, ctx) {
                            Ok((j, v, ctx2)) => Ok((j, Node::new(NodeKind::List(v)), ctx2)),
                            Err(PFail::Internal(p)) => Err(PFail::Internal(p)),
                            Err(PFail::Mismatch) => {
                                match paragraph(s, i) {
                                    Ok((j, v)) => Ok(
                                        (j, Node::new(NodeKind::Paragraph(v)), ctx),
                                    ),
                                    Err(PFail::Internal(p)) => Err(PFail::Internal(p)),
                                    Err(PFail::Mismatch) => {
                                        match node(s, i) {
                                            Ok((j, v)) => Ok((j, v, ctx)),
                                            Err(e) => Err(e),
                                        }
                                    },
                                }
                            },
                        }
                    },
                }
            },
        }
    };
    match step {
        Err(PFail::Internal(p)) => Err(PFail::Internal(p)),
        Err(PFail::Mismatch) => {
            let empty: Page = Page { nodes: Vec::new() };
            proof {
                assert(nodes_rep(empty.nodes@) =~= Seq::<NodeRep>::empty());
            }
            Ok((i, empty))
        },
        Ok((next, nd, ctx2)) => {
            match page(s, next, ctx2) {
                Ok((j, mut rest)) => {
                    let ghost old_rest = rest.nodes@;
                    rest.nodes.insert(0, nd);
                    proof {
                        crate::ast::lemma_nodes_rep_cons(old_rest, nd);
                        assert(rest.nodes@ =~= old_rest.insert(0, nd));
                        assert(nodes_rep(rest.nodes@) =~= seq![crate::ast::node_rep(nd)]
                            + nodes_rep(old_rest));
                    }
                    Ok((j, rest))
                },
                Err(e) => Err(e),
            }
        },
    }
}

} // verus!
