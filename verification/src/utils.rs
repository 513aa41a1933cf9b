//! Dialect-agnostic combinator toolkit: character-class scanners, delimited
//! extraction, URL token scanning, whitespace classes and the shortest-match
//! free-text resolver.  Every executable operation returns exactly what its
//! specification twin computes on the view of the input.
use vstd::prelude::*;

use crate::ast::BlockQuate;
use crate::ast::ExternalLink;
use crate::ast::HashTag;
use crate::ast::Text;
use crate::error::PFail;
use crate::error::PRes;
use crate::error::agrees;

verus! {

// ---------------------------------------------------------------------------
// Character classes
// ---------------------------------------------------------------------------
/// ASCII space or the full-width space.
pub open spec fn sp_is_space(c: char) -> bool {
    c == ' ' || c == '\u{3000}'
}

pub fn is_space(c: char) -> (r: bool)
    ensures
        r == sp_is_space(c),
{
    c == ' ' || c == '\u{3000}'
}

/// A character that ends a hashtag value.
pub open spec fn sp_is_tag_end(c: char) -> bool {
    c == ' ' || c == '\u{3000}' || c == '\n'
}

/// A "printable token" character of a URL: printable ASCII.
pub open spec fn sp_is_token(c: char) -> bool {
    33 <= (c as u32) <= 126
}

/// An emphasis marker inside a Scrapbox decoration bracket.
pub open spec fn sp_is_mark(c: char) -> bool {
    c == '*' || c == '/' || c == '-'
}

pub open spec fn sp_is_digit(c: char) -> bool {
    '0' <= c <= '9'
}

/// An indentation character of the Scrapbox list grammar.
pub open spec fn sp_is_sb_indent(c: char) -> bool {
    c == '\t' || c == ' ' || c == '\u{3000}'
}

/// An indentation character of the Markdown list grammar.
pub open spec fn sp_is_md_indent(c: char) -> bool {
    c == ' ' || c == '\t'
}


pub fn is_token_char(c: char) -> (r: bool)
    ensures
        r == sp_is_token(c),
{
    let v = c as u32;
    33 <= v && v <= 126
}

pub fn is_mark_char(c: char) -> (r: bool)
    ensures
        r == sp_is_mark(c),
{
    c == '*' || c == '/' || c == '-'
}

pub fn is_digit_char(c: char) -> (r: bool)
    ensures
        r == sp_is_digit(c),
{
    '0' <= c && c <= '9'
}

pub fn is_sb_indent_char(c: char) -> (r: bool)
    ensures
        r == sp_is_sb_indent(c),
{
    c == '\t' || c == ' ' || c == '\u{3000}'
}

pub fn is_md_indent_char(c: char) -> (r: bool)
    ensures
        r == sp_is_md_indent(c),
{
    c == ' ' || c == '\t'
}

pub fn is_tag_end_char(c: char) -> (r: bool)
    ensures
        r == sp_is_tag_end(c),
{
    c == ' ' || c == '\u{3000}' || c == '\n'
}

// ---------------------------------------------------------------------------
// Scanners: first position at or after `i` where a class ends
// ---------------------------------------------------------------------------
/// First position at or after `i` holding `stop`, or the end of input.
pub open spec fn sp_scan_to(s: Seq<char>, i: int, stop: char) -> int
    decreases s.len() - i when 0 <= i <= s.len()
{
    if i < s.len() && s[i] != stop {
        sp_scan_to(s, i + 1, stop)
    } else {
        i
    }
}

pub proof fn lemma_scan_to(s: Seq<char>, i: int, stop: char)
    requires
        0 <= i <= s.len(),
    ensures
        i <= sp_scan_to(s, i, stop) <= s.len(),
        forall|k: int| i <= k < sp_scan_to(s, i, stop) ==> s[k] != stop,
        sp_scan_to(s, i, stop) < s.len() ==> s[sp_scan_to(s, i, stop)] == stop,
    decreases s.len() - i,
{
    if i < s.len() && s[i] != stop {
        lemma_scan_to(s, i + 1, stop);
    }
}

pub fn scan_to(s: &str, from: usize, stop: char) -> (j: usize)
    requires
        from <= s@.len(),
    ensures
        j as int == sp_scan_to(s@, from as int, stop),
        from <= j <= s@.len(),
{
    proof {
        lemma_scan_to(s@, from as int, stop);
    }
    let n = s.unicode_len();
    let mut j = from;
    while j < n && s.get_char(j) != stop
        invariant
            from <= j <= n,
            n == s@.len(),
            sp_scan_to(s@, from as int, stop) == sp_scan_to(s@, j as int, stop),
        decreases n - j,
    {
        j = j + 1;
    }
    j
}

/// The scan is pinned down by what stands in the text: nothing stops it
/// before `j`, and `j` is a stop or the end.
pub proof fn lemma_scan_to_is(s: Seq<char>, i: int, stop: char, j: int)
    requires
        0 <= i <= j <= s.len(),
        forall|k: int| i <= k < j ==> s[k] != stop,
        j < s.len() ==> s[j] == stop,
    ensures
        sp_scan_to(s, i, stop) == j,
    decreases j - i,
{
    if i < j {
        lemma_scan_to_is(s, i + 1, stop, j);
    }
}

pub proof fn lemma_scan_run_is(s: Seq<char>, i: int, c: char, j: int)
    requires
        0 <= i <= j <= s.len(),
        forall|k: int| i <= k < j ==> s[k] == c,
        j < s.len() ==> s[j] != c,
    ensures
        sp_scan_run(s, i, c) == j,
    decreases j - i,
{
    if i < j {
        lemma_scan_run_is(s, i + 1, c, j);
    }
}

pub proof fn lemma_scan_tag_value_is(s: Seq<char>, i: int, j: int)
    requires
        0 <= i <= j <= s.len(),
        forall|k: int| i <= k < j ==> !sp_is_tag_end(s[k]),
        j < s.len() ==> sp_is_tag_end(s[j]),
    ensures
        sp_scan_tag_value(s, i) == j,
    decreases j - i,
{
    if i < j {
        lemma_scan_tag_value_is(s, i + 1, j);
    }
}

pub proof fn lemma_scan_spaces_is(s: Seq<char>, i: int, j: int)
    requires
        0 <= i <= j <= s.len(),
        forall|k: int| i <= k < j ==> sp_is_space(s[k]),
        j < s.len() ==> !sp_is_space(s[j]),
    ensures
        sp_scan_spaces(s, i) == j,
    decreases j - i,
{
    if i < j {
        lemma_scan_spaces_is(s, i + 1, j);
    }
}

pub proof fn lemma_scan_marks_is(s: Seq<char>, i: int, j: int)
    requires
        0 <= i <= j <= s.len(),
        forall|k: int| i <= k < j ==> sp_is_mark(s[k]),
        j < s.len() ==> !sp_is_mark(s[j]),
    ensures
        sp_scan_marks(s, i) == j,
    decreases j - i,
{
    if i < j {
        lemma_scan_marks_is(s, i + 1, j);
    }
}

pub proof fn lemma_scan_tokens_is(s: Seq<char>, i: int, j: int)
    requires
        0 <= i <= j <= s.len(),
        forall|k: int| i <= k < j ==> sp_is_token(s[k]),
        j < s.len() ==> !sp_is_token(s[j]),
    ensures
        sp_scan_tokens(s, i) == j,
    decreases j - i,
{
    if i < j {
        lemma_scan_tokens_is(s, i + 1, j);
    }
}

pub proof fn lemma_scan_md_indent_is(s: Seq<char>, i: int, j: int)
    requires
        0 <= i <= j <= s.len(),
        forall|k: int| i <= k < j ==> sp_is_md_indent(s[k]),
        j < s.len() ==> !sp_is_md_indent(s[j]),
    ensures
        sp_scan_md_indent(s, i) == j,
    decreases j - i,
{
    if i < j {
        lemma_scan_md_indent_is(s, i + 1, j);
    }
}

pub proof fn lemma_scan_sb_indent_is(s: Seq<char>, i: int, j: int)
    requires
        0 <= i <= j <= s.len(),
        forall|k: int| i <= k < j ==> sp_is_sb_indent(s[k]),
        j < s.len() ==> !sp_is_sb_indent(s[j]),
    ensures
        sp_scan_sb_indent(s, i) == j,
    decreases j - i,
{
    if i < j {
        lemma_scan_sb_indent_is(s, i + 1, j);
    }
}

pub proof fn lemma_scan_triple_is(s: Seq<char>, i: int, c0: char, c1: char, c2: char, j: int)
    requires
        0 <= i <= j <= s.len(),
        forall|k: int|
            i <= k < j && k + 2 < s.len() ==> !(#[trigger] s[k] == c0 && s[k + 1] == c1 && s[k
                + 2] == c2),
        j < s.len() ==> j + 2 < s.len() && s[j] == c0 && s[j + 1] == c1 && s[j + 2] == c2,
    ensures
        sp_scan_triple(s, i, c0, c1, c2) == if j < s.len() {
            j
        } else {
            s.len() as int
        },
    decreases j - i,
{
    if i < j {
        lemma_scan_triple_is(s, i + 1, c0, c1, c2, j);
    }
}

/// First position at or after `i` whose character ends a hashtag value.
pub open spec fn sp_scan_tag_value(s: Seq<char>, i: int) -> int
    decreases s.len() - i when 0 <= i <= s.len()
{
    if i < s.len() && !sp_is_tag_end(s[i]) {
        sp_scan_tag_value(s, i + 1)
    } else {
        i
    }
}

pub proof fn lemma_scan_tag_value(s: Seq<char>, i: int)
    requires
        0 <= i <= s.len(),
    ensures
        i <= sp_scan_tag_value(s, i) <= s.len(),
    decreases s.len() - i,
{
    if i < s.len() && !sp_is_tag_end(s[i]) {
        lemma_scan_tag_value(s, i + 1);
    }
}

pub fn scan_tag_value(s: &str, from: usize) -> (j: usize)
    requires
        from <= s@.len(),
    ensures
        j as int == sp_scan_tag_value(s@, from as int),
        from <= j <= s@.len(),
{
    proof {
        lemma_scan_tag_value(s@, from as int);
    }
    let n = s.unicode_len();
    let mut j = from;
    while j < n && !is_tag_end_char(s.get_char(j))
        invariant
            from <= j <= n,
            n == s@.len(),
            sp_scan_tag_value(s@, from as int) == sp_scan_tag_value(s@, j as int),
        decreases n - j,
    {
        j = j + 1;
    }
    j
}

/// First position at or after `i` that is not a space character.
pub open spec fn sp_scan_spaces(s: Seq<char>, i: int) -> int
    decreases s.len() - i when 0 <= i <= s.len()
{
    if i < s.len() && sp_is_space(s[i]) {
        sp_scan_spaces(s, i + 1)
    } else {
        i
    }
}

pub proof fn lemma_scan_spaces(s: Seq<char>, i: int)
    requires
        0 <= i <= s.len(),
    ensures
        i <= sp_scan_spaces(s, i) <= s.len(),
        forall|k: int| i <= k < sp_scan_spaces(s, i) ==> sp_is_space(s[k]),
        sp_scan_spaces(s, i) < s.len() ==> !sp_is_space(s[sp_scan_spaces(s, i)]),
    decreases s.len() - i,
{
    if i < s.len() && sp_is_space(s[i]) {
        lemma_scan_spaces(s, i + 1);
    }
}

pub fn scan_spaces(s: &str, from: usize) -> (j: usize)
    requires
        from <= s@.len(),
    ensures
        j as int == sp_scan_spaces(s@, from as int),
        from <= j <= s@.len(),
{
    proof {
        lemma_scan_spaces(s@, from as int);
    }
    let n = s.unicode_len();
    let mut j = from;
    while j < n && is_space(s.get_char(j))
        invariant
            from <= j <= n,
            n == s@.len(),
            sp_scan_spaces(s@, from as int) == sp_scan_spaces(s@, j as int),
        decreases n - j,
    {
        j = j + 1;
    }
    j
}

/// First position at or after `i` that is not a URL token character.
pub open spec fn sp_scan_tokens(s: Seq<char>, i: int) -> int
    decreases s.len() - i when 0 <= i <= s.len()
{
    if i < s.len() && sp_is_token(s[i]) {
        sp_scan_tokens(s, i + 1)
    } else {
        i
    }
}

pub proof fn lemma_scan_tokens(s: Seq<char>, i: int)
    requires
        0 <= i <= s.len(),
    ensures
        i <= sp_scan_tokens(s, i) <= s.len(),
    decreases s.len() - i,
{
    if i < s.len() && sp_is_token(s[i]) {
        lemma_scan_tokens(s, i + 1);
    }
}

pub fn scan_tokens(s: &str, from: usize) -> (j: usize)
    requires
        from <= s@.len(),
    ensures
        j as int == sp_scan_tokens(s@, from as int),
        from <= j <= s@.len(),
{
    proof {
        lemma_scan_tokens(s@, from as int);
    }
    let n = s.unicode_len();
    let mut j = from;
    while j < n && is_token_char(s.get_char(j))
        invariant
            from <= j <= n,
            n == s@.len(),
            sp_scan_tokens(s@, from as int) == sp_scan_tokens(s@, j as int),
        decreases n - j,
    {
        j = j + 1;
    }
    j
}

/// First position at or after `i` that is not an emphasis marker.
pub open spec fn sp_scan_marks(s: Seq<char>, i: int) -> int
    decreases s.len() - i when 0 <= i <= s.len()
{
    if i < s.len() && sp_is_mark(s[i]) {
        sp_scan_marks(s, i + 1)
    } else {
        i
    }
}

pub proof fn lemma_scan_marks(s: Seq<char>, i: int)
    requires
        0 <= i <= s.len(),
    ensures
        i <= sp_scan_marks(s, i) <= s.len(),
        forall|k: int| i <= k < sp_scan_marks(s, i) ==> sp_is_mark(s[k]),
        sp_scan_marks(s, i) < s.len() ==> !sp_is_mark(s[sp_scan_marks(s, i)]),
    decreases s.len() - i,
{
    if i < s.len() && sp_is_mark(s[i]) {
        lemma_scan_marks(s, i + 1);
    }
}

pub fn scan_marks(s: &str, from: usize) -> (j: usize)
    requires
        from <= s@.len(),
    ensures
        j as int == sp_scan_marks(s@, from as int),
        from <= j <= s@.len(),
{
    proof {
        lemma_scan_marks(s@, from as int);
    }
    let n = s.unicode_len();
    let mut j = from;
    while j < n && is_mark_char(s.get_char(j))
        invariant
            from <= j <= n,
            n == s@.len(),
            sp_scan_marks(s@, from as int) == sp_scan_marks(s@, j as int),
        decreases n - j,
    {
        j = j + 1;
    }
    j
}

/// First position at or after `i` that is not a decimal digit.
pub open spec fn sp_scan_digits(s: Seq<char>, i: int) -> int
    decreases s.len() - i when 0 <= i <= s.len()
{
    if i < s.len() && sp_is_digit(s[i]) {
        sp_scan_digits(s, i + 1)
    } else {
        i
    }
}

pub proof fn lemma_scan_digits(s: Seq<char>, i: int)
    requires
        0 <= i <= s.len(),
    ensures
        i <= sp_scan_digits(s, i) <= s.len(),
    decreases s.len() - i,
{
    if i < s.len() && sp_is_digit(s[i]) {
        lemma_scan_digits(s, i + 1);
    }
}

pub fn scan_digits(s: &str, from: usize) -> (j: usize)
    requires
        from <= s@.len(),
    ensures
        j as int == sp_scan_digits(s@, from as int),
        from <= j <= s@.len(),
{
    proof {
        lemma_scan_digits(s@, from as int);
    }
    let n = s.unicode_len();
    let mut j = from;
    while j < n && is_digit_char(s.get_char(j))
        invariant
            from <= j <= n,
            n == s@.len(),
            sp_scan_digits(s@, from as int) == sp_scan_digits(s@, j as int),
        decreases n - j,
    {
        j = j + 1;
    }
    j
}

/// First position at or after `i` that is not a Scrapbox indent character.
pub open spec fn sp_scan_sb_indent(s: Seq<char>, i: int) -> int
    decreases s.len() - i when 0 <= i <= s.len()
{
    if i < s.len() && sp_is_sb_indent(s[i]) {
        sp_scan_sb_indent(s, i + 1)
    } else {
        i
    }
}

pub proof fn lemma_scan_sb_indent(s: Seq<char>, i: int)
    requires
        0 <= i <= s.len(),
    ensures
        i <= sp_scan_sb_indent(s, i) <= s.len(),
    decreases s.len() - i,
{
    if i < s.len() && sp_is_sb_indent(s[i]) {
        lemma_scan_sb_indent(s, i + 1);
    }
}

pub fn scan_sb_indent(s: &str, from: usize) -> (j: usize)
    requires
        from <= s@.len(),
    ensures
        j as int == sp_scan_sb_indent(s@, from as int),
        from <= j <= s@.len(),
{
    proof {
        lemma_scan_sb_indent(s@, from as int);
    }
    let n = s.unicode_len();
    let mut j = from;
    while j < n && is_sb_indent_char(s.get_char(j))
        invariant
            from <= j <= n,
            n == s@.len(),
            sp_scan_sb_indent(s@, from as int) == sp_scan_sb_indent(s@, j as int),
        decreases n - j,
    {
        j = j + 1;
    }
    j
}

/// First position at or after `i` that is not a Markdown indent character.
pub open spec fn sp_scan_md_indent(s: Seq<char>, i: int) -> int
    decreases s.len() - i when 0 <= i <= s.len()
{
    if i < s.len() && sp_is_md_indent(s[i]) {
        sp_scan_md_indent(s, i + 1)
    } else {
        i
    }
}

pub proof fn lemma_scan_md_indent(s: Seq<char>, i: int)
    requires
        0 <= i <= s.len(),
    ensures
        i <= sp_scan_md_indent(s, i) <= s.len(),
    decreases s.len() - i,
{
    if i < s.len() && sp_is_md_indent(s[i]) {
        lemma_scan_md_indent(s, i + 1);
    }
}

pub fn scan_md_indent(s: &str, from: usize) -> (j: usize)
    requires
        from <= s@.len(),
    ensures
        j as int == sp_scan_md_indent(s@, from as int),
        from <= j <= s@.len(),
{
    proof {
        lemma_scan_md_indent(s@, from as int);
    }
    let n = s.unicode_len();
    let mut j = from;
    while j < n && is_md_indent_char(s.get_char(j))
        invariant
            from <= j <= n,
            n == s@.len(),
            sp_scan_md_indent(s@, from as int) == sp_scan_md_indent(s@, j as int),
        decreases n - j,
    {
        j = j + 1;
    }
    j
}

/// First position `j` at or after `i` where the two characters `c0 c1`
/// stand, or the end of input when there is none.
pub open spec fn sp_scan_pair(s: Seq<char>, i: int, c0: char, c1: char) -> int
    decreases s.len() - i when 0 <= i <= s.len()
{
    if i + 1 < s.len() {
        if s[i] == c0 && s[i + 1] == c1 {
            i
        } else {
            sp_scan_pair(s, i + 1, c0, c1)
        }
    } else {
        s.len() as int
    }
}

pub proof fn lemma_scan_pair(s: Seq<char>, i: int, c0: char, c1: char)
    requires
        0 <= i <= s.len(),
    ensures
        i <= sp_scan_pair(s, i, c0, c1) <= s.len(),
    decreases s.len() - i,
{
    if i + 1 < s.len() && !(s[i] == c0 && s[i + 1] == c1) {
        lemma_scan_pair(s, i + 1, c0, c1);
    }
}

pub fn scan_pair(s: &str, from: usize, c0: char, c1: char) -> (j: usize)
    requires
        from <= s@.len(),
    ensures
        j as int == sp_scan_pair(s@, from as int, c0, c1),
        from <= j <= s@.len(),
{
    proof {
        lemma_scan_pair(s@, from as int, c0, c1);
    }
    let n = s.unicode_len();
    let mut j = from;
    while j < n && n - j > 1 && !(s.get_char(j) == c0 && s.get_char(j + 1) == c1)
        invariant
            from <= j <= n,
            n == s@.len(),
            sp_scan_pair(s@, from as int, c0, c1) == sp_scan_pair(s@, j as int, c0, c1),
        decreases n - j,
    {
        j = j + 1;
    }
    if j < n && n - j > 1 {
        j
    } else {
        n
    }
}

/// First position `j` at or after `i` where `c0 c1 c2` stand in a row, or
/// the end of input when there is none.
pub open spec fn sp_scan_triple(s: Seq<char>, i: int, c0: char, c1: char, c2: char) -> int
    decreases s.len() - i when 0 <= i <= s.len()
{
    if i + 2 < s.len() {
        if s[i] == c0 && s[i + 1] == c1 && s[i + 2] == c2 {
            i
        } else {
            sp_scan_triple(s, i + 1, c0, c1, c2)
        }
    } else {
        s.len() as int
    }
}

pub proof fn lemma_scan_triple(s: Seq<char>, i: int, c0: char, c1: char, c2: char)
    requires
        0 <= i <= s.len(),
    ensures
        i <= sp_scan_triple(s, i, c0, c1, c2) <= s.len(),
    decreases s.len() - i,
{
    if i + 2 < s.len() && !(s[i] == c0 && s[i + 1] == c1 && s[i + 2] == c2) {
        lemma_scan_triple(s, i + 1, c0, c1, c2);
    }
}

pub fn scan_triple(s: &str, from: usize, c0: char, c1: char, c2: char) -> (j: usize)
    requires
        from <= s@.len(),
    ensures
        j as int == sp_scan_triple(s@, from as int, c0, c1, c2),
        from <= j <= s@.len(),
{
    proof {
        lemma_scan_triple(s@, from as int, c0, c1, c2);
    }
    let n = s.unicode_len();
    let mut j = from;
    while j < n && n - j > 2 && !(s.get_char(j) == c0 && s.get_char(j + 1) == c1 && s.get_char(
        j + 2,
    ) == c2)
        invariant
            from <= j <= n,
            n == s@.len(),
            sp_scan_triple(s@, from as int, c0, c1, c2) == sp_scan_triple(
                s@,
                j as int,
                c0,
                c1,
                c2,
            ),
        decreases n - j,
    {
        j = j + 1;
    }
    if j < n && n - j > 2 {
        j
    } else {
        n
    }
}

// ---------------------------------------------------------------------------
// Shared grammar rules
// ---------------------------------------------------------------------------
/// Everything up to the next line break (or all of the rest): never fails.
pub open spec fn sp_take_until_eol(s: Seq<char>, i: int) -> (int, Seq<char>) {
    let j = sp_scan_to(s, i, '\n');
    (j, s.subrange(i, j))
}

pub fn take_until_eol(s: &str, i: usize) -> (r: (usize, String))
    requires
        i <= s@.len(),
    ensures
        r.0 as int == sp_take_until_eol(s@, i as int).0,
        r.1@ == sp_take_until_eol(s@, i as int).1,
        i <= r.0 <= s@.len(),
{
    let j = scan_to(s, i, '\n');
    let v = s.substring_char(i, j).to_owned();
    (j, v)
}

/// Content strictly between `open_c` and `close_c`, both single characters;
/// fails when the closing delimiter is absent.
pub open spec fn sp_delimited(s: Seq<char>, i: int, open_c: char, close_c: char) -> PRes<
    Seq<char>,
> {
    if i < s.len() && s[i] == open_c {
        let j = sp_scan_to(s, i + 1, close_c);
        if j < s.len() {
            PRes::Found { next: j + 1, val: s.subrange(i + 1, j) }
        } else {
            PRes::Miss
        }
    } else {
        PRes::Miss
    }
}

fn delimited(s: &str, i: usize, open_c: char, close_c: char) -> (r: Result<
    (usize, String),
    PFail,
>)
    requires
        i <= s@.len(),
    ensures
        agrees(r, sp_delimited(s@, i as int, open_c, close_c)),
        r matches Ok((j, _)) ==> i < j <= s@.len(),
{
    let n = s.unicode_len();
    if i < n && s.get_char(i) == open_c {
        let j = scan_to(s, i + 1, close_c);
        if j < n {
            Ok((j + 1, s.substring_char(i + 1, j).to_owned()))
        } else {
            Err(PFail::Mismatch)
        }
    } else {
        Err(PFail::Mismatch)
    }
}

/// [abc]
pub open spec fn sp_brackets(s: Seq<char>, i: int) -> PRes<Seq<char>> {
    sp_delimited(s, i, '[', ']')
}

pub fn brackets(s: &str, i: usize) -> (r: Result<(usize, String), PFail>)
    requires
        i <= s@.len(),
    ensures
        agrees(r, sp_brackets(s@, i as int)),
        r matches Ok((j, _)) ==> i < j <= s@.len(),
{
    delimited(s, i, '[', ']')
}

/// (abc)
pub open spec fn sp_parentheses(s: Seq<char>, i: int) -> PRes<Seq<char>> {
    sp_delimited(s, i, '(', ')')
}

pub fn parentheses(s: &str, i: usize) -> (r: Result<(usize, String), PFail>)
    requires
        i <= s@.len(),
    ensures
        agrees(r, sp_parentheses(s@, i as int)),
        r matches Ok((j, _)) ==> i < j <= s@.len(),
{
    delimited(s, i, '(', ')')
}

/// `block_quate`
pub open spec fn sp_block_quate(s: Seq<char>, i: int) -> PRes<Seq<char>> {
    sp_delimited(s, i, '`', '`')
}

pub fn block_quate(s: &str, i: usize) -> (r: Result<(usize, BlockQuate), PFail>)
    requires
        i <= s@.len(),
    ensures
        agrees(r, sp_block_quate(s@, i as int)),
        r matches Ok((j, _)) ==> i < j <= s@.len(),
{
    match delimited(s, i, '`', '`') {
        Ok((j, v)) => Ok((j, BlockQuate { value: v })),
        Err(e) => Err(e),
    }
}

/// Position right after an `https://` or `http://` prefix at `i`, if any.
pub open spec fn sp_url_protocol(s: Seq<char>, i: int) -> Option<int> {
    if i + 8 <= s.len() && s[i] == 'h' && s[i + 1] == 't' && s[i + 2] == 't' && s[i + 3] == 'p'
        && s[i + 4] == 's' && s[i + 5] == ':' && s[i + 6] == '/' && s[i + 7] == '/' {
        Some(i + 8)
    } else if i + 7 <= s.len() && s[i] == 'h' && s[i + 1] == 't' && s[i + 2] == 't' && s[i + 3]
        == 'p' && s[i + 4] == ':' && s[i + 5] == '/' && s[i + 6] == '/' {
        Some(i + 7)
    } else {
        None
    }
}

fn url_protocol(s: &str, i: usize) -> (r: Option<usize>)
    requires
        i <= s@.len(),
    ensures
        match r {
            Some(p) => sp_url_protocol(s@, i as int) == Some(p as int) && i < p <= s@.len(),
            None => sp_url_protocol(s@, i as int) is None,
        },
{
    let n = s.unicode_len();
    if n - i >= 8 && s.get_char(i) == 'h' && s.get_char(i + 1) == 't' && s.get_char(i + 2) == 't'
        && s.get_char(i + 3) == 'p' && s.get_char(i + 4) == 's' && s.get_char(i + 5) == ':'
        && s.get_char(i + 6) == '/' && s.get_char(i + 7) == '/' {
        Some(i + 8)
    } else if n - i >= 7 && s.get_char(i) == 'h' && s.get_char(i + 1) == 't' && s.get_char(i + 2)
        == 't' && s.get_char(i + 3) == 'p' && s.get_char(i + 4) == ':' && s.get_char(i + 5) == '/'
        && s.get_char(i + 6) == '/' {
        Some(i + 7)
    } else {
        None
    }
}

/// An `http(s)://` prefix followed by a maximal run of printable token
/// characters; the value is the whole match including the protocol.
pub open spec fn sp_url(s: Seq<char>, i: int) -> PRes<Seq<char>> {
    match sp_url_protocol(s, i) {
        Some(p) => {
            let j = sp_scan_tokens(s, p);
            PRes::Found { next: j, val: s.subrange(i, j) }
        },
        None => PRes::Miss,
    }
}

pub fn url(s: &str, i: usize) -> (r: Result<(usize, String), PFail>)
    requires
        i <= s@.len(),
    ensures
        agrees(r, sp_url(s@, i as int)),
        r matches Ok((j, _)) ==> i < j <= s@.len(),
{
    match url_protocol(s, i) {
        Some(p) => {
            let j = scan_tokens(s, p);
            Ok((j, s.substring_char(i, j).to_owned()))
        },
        None => Err(PFail::Mismatch),
    }
}

/// https://www.rust-lang.org/
pub open spec fn sp_external_link_plain(s: Seq<char>, i: int) -> PRes<
    (Option<Seq<char>>, Seq<char>),
> {
    match sp_url(s, i) {
        PRes::Found { next, val } => PRes::Found { next, val: (None, val) },
        PRes::Miss => PRes::Miss,
        PRes::Abort(p) => PRes::Abort(p),
    }
}

pub fn external_link_plain(s: &str, i: usize) -> (r: Result<(usize, ExternalLink), PFail>)
    requires
        i <= s@.len(),
    ensures
        agrees(r, sp_external_link_plain(s@, i as int)),
        r matches Ok((j, _)) ==> i < j <= s@.len(),
{
    match url(s, i) {
        Ok((j, u)) => Ok((j, ExternalLink { title: None, url: u })),
        Err(e) => Err(e),
    }
}

/// #tag
pub open spec fn sp_hashtag(s: Seq<char>, i: int) -> PRes<Seq<char>> {
    if i < s.len() && s[i] == '#' {
        let j = sp_scan_tag_value(s, i + 1);
        PRes::Found { next: j, val: s.subrange(i + 1, j) }
    } else {
        PRes::Miss
    }
}

pub fn hashtag(s: &str, i: usize) -> (r: Result<(usize, HashTag), PFail>)
    requires
        i <= s@.len(),
    ensures
        agrees(r, sp_hashtag(s@, i as int)),
        r matches Ok((j, _)) ==> i < j <= s@.len(),
{
    let n = s.unicode_len();
    if i < n && s.get_char(i) == '#' {
        let j = scan_tag_value(s, i + 1);
        Ok((j, HashTag { value: s.substring_char(i + 1, j).to_owned() }))
    } else {
        Err(PFail::Mismatch)
    }
}

/// Zero or more space characters: the position after them.
pub fn space0(s: &str, i: usize) -> (j: usize)
    requires
        i <= s@.len(),
    ensures
        j as int == sp_scan_spaces(s@, i as int),
        i <= j <= s@.len(),
{
    scan_spaces(s, i)
}

/// One or more space characters: the position after them, or a mismatch.
pub fn space1(s: &str, i: usize) -> (r: Result<usize, PFail>)
    requires
        i <= s@.len(),
    ensures
        match r {
            Ok(j) => j as int == sp_scan_spaces(s@, i as int) && i < j <= s@.len(),
            Err(e) => e == PFail::Mismatch && sp_scan_spaces(s@, i as int) == i as int,
        },
{
    let j = scan_spaces(s, i);
    if j > i {
        Ok(j)
    } else {
        Err(PFail::Mismatch)
    }
}

/// The smaller of two optional lengths; `None` means the lookahead failed.
pub open spec fn min_opt(a: Option<int>, b: Option<int>) -> Option<int> {
    match (a, b) {
        (Some(x), Some(y)) => Some(
            if x <= y {
                x
            } else {
                y
            },
        ),
        (Some(x), None) => Some(x),
        (None, other) => other,
    }
}

pub open spec fn oint(o: Option<usize>) -> Option<int> {
    match o {
        Some(x) => Some(x as int),
        None => None,
    }
}

fn min_opt_len(a: Option<usize>, b: Option<usize>) -> (r: Option<usize>)
    ensures
        oint(r) == min_opt(oint(a), oint(b)),
{
    match (a, b) {
        (Some(x), Some(y)) => Some(
            if x <= y {
                x
            } else {
                y
            },
        ),
        (Some(x), None) => Some(x),
        (None, other) => other,
    }
}

/// The length of the shortest successful lookahead of the free-text
/// resolver: up to the next hashtag (gated on a ` #` occurrence), the next
/// bracket, the end of the line, or the next backtick.
pub open spec fn sp_text_min(s: Seq<char>, i: int) -> Option<int> {
    let c_tag: Option<int> = if sp_scan_pair(s, i, ' ', '#') < s.len() {
        Some(sp_scan_to(s, i, '#') - i)
    } else {
        None
    };
    let c_bracket: Option<int> = Some(sp_scan_to(s, i, '[') - i);
    let c_eol: Option<int> = Some(sp_scan_to(s, i, '\n') - i);
    let c_tick: Option<int> = if sp_scan_to(s, i, '`') < s.len() {
        Some(sp_scan_to(s, i, '`') - i)
    } else {
        None
    };
    min_opt(min_opt(min_opt(c_tag, c_bracket), c_eol), c_tick)
}

/// Shortest-match free text.  Fails on empty input, at a hashtag, and when
/// the shortest lookahead is empty; a lone opening bracket is consumed as
/// the literal text "[".
pub open spec fn sp_text(s: Seq<char>, i: int) -> PRes<Seq<char>> {
    if i >= s.len() {
        PRes::Miss
    } else if s[i] == '#' {
        PRes::Miss
    } else if s[i] == '[' {
        PRes::Found { next: i + 1, val: s.subrange(i, i + 1) }
    } else {
        match sp_text_min(s, i) {
            Some(m) => if m == 0 {
                PRes::Miss
            } else {
                PRes::Found { next: i + m, val: s.subrange(i, i + m) }
            },
            None => PRes::Miss,
        }
    }
}

pub fn text(s: &str, i: usize) -> (r: Result<(usize, Text), PFail>)
    requires
        i <= s@.len(),
    ensures
        agrees(r, sp_text(s@, i as int)),
        r matches Ok((j, _)) ==> i < j <= s@.len(),
{
    let n = s.unicode_len();
    if i >= n {
        return Err(PFail::Mismatch);
    }
    let c0 = s.get_char(i);
    if c0 == '#' {
        return Err(PFail::Mismatch);
    }
    if c0 == '[' {
        return Ok((i + 1, Text { value: s.substring_char(i, i + 1).to_owned() }));
    }
    let gate = scan_pair(s, i, ' ', '#');
    let c_tag: Option<usize> = if gate < n {
        let j = scan_to(s, i, '#');
        Some(j - i)
    } else {
        None
    };
    let jb = scan_to(s, i, '[');
    let c_bracket: Option<usize> = Some(jb - i);
    let je = scan_to(s, i, '\n');
    let c_eol: Option<usize> = Some(je - i);
    let jt = scan_to(s, i, '`');
    let c_tick: Option<usize> = if jt < n {
        Some(jt - i)
    } else {
        None
    };
    let best = min_opt_len(min_opt_len(min_opt_len(c_tag, c_bracket), c_eol), c_tick);
    proof {
        assert(oint(best) == sp_text_min(s@, i as int));
    }
    match best {
        Some(m) => {
            if m == 0 {
                Err(PFail::Mismatch)
            } else {
                proof {
                    lemma_scan_to(s@, i as int, '[');
                }
                Ok((i + m, Text { value: s.substring_char(i, i + m).to_owned() }))
            }
        },
        None => Err(PFail::Mismatch),
    }
}

/// First position at or after `i` that does not hold `c`.
pub open spec fn sp_scan_run(s: Seq<char>, i: int, c: char) -> int
    decreases s.len() - i when 0 <= i <= s.len()
{
    if i < s.len() && s[i] == c {
        sp_scan_run(s, i + 1, c)
    } else {
        i
    }
}

pub proof fn lemma_scan_run(s: Seq<char>, i: int, c: char)
    requires
        0 <= i <= s.len(),
    ensures
        i <= sp_scan_run(s, i, c) <= s.len(),
        forall|k: int| i <= k < sp_scan_run(s, i, c) ==> s[k] == c,
        sp_scan_run(s, i, c) < s.len() ==> s[sp_scan_run(s, i, c)] != c,
    decreases s.len() - i,
{
    if i < s.len() && s[i] == c {
        lemma_scan_run(s, i + 1, c);
    }
}

pub fn scan_run(s: &str, from: usize, c: char) -> (j: usize)
    requires
        from <= s@.len(),
    ensures
        j as int == sp_scan_run(s@, from as int, c),
        from <= j <= s@.len(),
{
    proof {
        lemma_scan_run(s@, from as int, c);
    }
    let n = s.unicode_len();
    let mut j = from;
    while j < n && s.get_char(j) == c
        invariant
            from <= j <= n,
            n == s@.len(),
            sp_scan_run(s@, from as int, c) == sp_scan_run(s@, j as int, c),
        decreases n - j,
    {
        j = j + 1;
    }
    j
}

/// The characters of `u` stand at position `i` of `s`.
pub open spec fn sp_prefix_at(s: Seq<char>, i: int, u: Seq<char>) -> bool {
    i + u.len() <= s.len() && s.subrange(i, i + u.len()) == u
}

pub fn prefix_at(s: &str, i: usize, u: &str) -> (r: bool)
    requires
        i <= s@.len(),
    ensures
        r == sp_prefix_at(s@, i as int, u@),
{
    let n = s.unicode_len();
    let m = u.unicode_len();
    if m > n - i {
        return false;
    }
    let mut k: usize = 0;
    while k < m
        invariant
            0 <= k <= m,
            m == u@.len(),
            n == s@.len(),
            i + m <= n,
            forall|x: int| 0 <= x < k ==> s@[i + x] == u@[x],
        decreases m - k,
    {
        if s.get_char(i + k) != u.get_char(k) {
            proof {
                assert(s@.subrange(i as int, i + m) != u@) by {
                    assert(s@.subrange(i as int, i + m)[k as int] != u@[k as int]);
                }
            }
            return false;
        }
        k = k + 1;
    }
    proof {
        assert(s@.subrange(i as int, i + m) =~= u@);
    }
    true
}

/// How many copies of `u` stand in a row at position `i` of `s`.
pub open spec fn sp_count_prefix(s: Seq<char>, i: int, u: Seq<char>) -> int
    decreases s.len() - i when 0 <= i <= s.len() && u.len() >= 1
{
    if u.len() >= 1 && sp_prefix_at(s, i, u) {
        1 + sp_count_prefix(s, i + u.len(), u)
    } else {
        0
    }
}

/// The position after the maximal run of copies of `u` at `i`.
pub open spec fn sp_after_prefix(s: Seq<char>, i: int, u: Seq<char>) -> int
    decreases s.len() - i when 0 <= i <= s.len() && u.len() >= 1
{
    if u.len() >= 1 && sp_prefix_at(s, i, u) {
        sp_after_prefix(s, i + u.len(), u)
    } else {
        i
    }
}

pub proof fn lemma_after_prefix(s: Seq<char>, i: int, u: Seq<char>)
    requires
        0 <= i <= s.len(),
        u.len() >= 1,
    ensures
        i <= sp_after_prefix(s, i, u) <= s.len(),
        sp_count_prefix(s, i, u) >= 0,
    decreases s.len() - i,
{
    if sp_prefix_at(s, i, u) {
        lemma_after_prefix(s, i + u.len(), u);
    }
}

/// Counts the maximal run of copies of `u` at `i` and returns the count and
/// the position after it.
pub fn count_prefix(s: &str, i: usize, u: &str) -> (r: (usize, usize))
    requires
        i <= s@.len(),
        u@.len() >= 1,
    ensures
        r.0 as int == sp_count_prefix(s@, i as int, u@),
        r.1 as int == sp_after_prefix(s@, i as int, u@),
        i <= r.1 <= s@.len(),
{
    proof {
        lemma_after_prefix(s@, i as int, u@);
    }
    let n = s.unicode_len();
    let m = u.unicode_len();
    let mut cnt: usize = 0;
    let mut j = i;
    while prefix_at(s, j, u)
        invariant
            n == s@.len(),
            i <= j <= s@.len(),
            m == u@.len(),
            m >= 1,
            cnt as int + sp_count_prefix(s@, j as int, u@) == sp_count_prefix(s@, i as int, u@),
            sp_after_prefix(s@, j as int, u@) == sp_after_prefix(s@, i as int, u@),
            cnt <= j,
        decreases s@.len() - j,
    {
        proof {
            lemma_after_prefix(s@, j + u@.len(), u@);
        }
        j = j + m;
        cnt = cnt + 1;
    }
    (cnt, j)
}

// ---------------------------------------------------------------------------
// Whitespace trimming, counting, image suffixes
// ---------------------------------------------------------------------------
/// A Unicode white-space character, as `char::is_whitespace` decides it.
pub open spec fn sp_is_white(c: char) -> bool {
    ('\u{0009}' <= c <= '\u{000D}') || c == ' ' || c == '\u{0085}' || c == '\u{00A0}' || c
        == '\u{1680}' || ('\u{2000}' <= c <= '\u{200A}') || c == '\u{2028}' || c == '\u{2029}'
        || c == '\u{202F}' || c == '\u{205F}' || c == '\u{3000}'
}

pub fn is_white_char(c: char) -> (r: bool)
    ensures
        r == sp_is_white(c),
{
    ('\u{0009}' <= c && c <= '\u{000D}') || c == ' ' || c == '\u{0085}' || c == '\u{00A0}' || c
        == '\u{1680}' || ('\u{2000}' <= c && c <= '\u{200A}') || c == '\u{2028}' || c
        == '\u{2029}' || c == '\u{202F}' || c == '\u{205F}' || c == '\u{3000}'
}

/// First position at or after `i` that is not white space.
pub open spec fn sp_scan_white(s: Seq<char>, i: int) -> int
    decreases s.len() - i when 0 <= i <= s.len()
{
    if i < s.len() && sp_is_white(s[i]) {
        sp_scan_white(s, i + 1)
    } else {
        i
    }
}

pub proof fn lemma_scan_white(s: Seq<char>, i: int)
    requires
        0 <= i <= s.len(),
    ensures
        i <= sp_scan_white(s, i) <= s.len(),
        forall|k: int| i <= k < sp_scan_white(s, i) ==> sp_is_white(s[k]),
        sp_scan_white(s, i) < s.len() ==> !sp_is_white(s[sp_scan_white(s, i)]),
    decreases s.len() - i,
{
    if i < s.len() && sp_is_white(s[i]) {
        lemma_scan_white(s, i + 1);
    }
}

/// Last position at or before `e` such that everything from it to `e` is
/// white space.
pub open spec fn sp_scan_white_back(s: Seq<char>, e: int) -> int
    decreases e when 0 <= e <= s.len()
{
    if e > 0 && sp_is_white(s[e - 1]) {
        sp_scan_white_back(s, e - 1)
    } else {
        e
    }
}

pub proof fn lemma_scan_white_back(s: Seq<char>, e: int)
    requires
        0 <= e <= s.len(),
    ensures
        0 <= sp_scan_white_back(s, e) <= e,
        forall|k: int| sp_scan_white_back(s, e) <= k < e ==> sp_is_white(s[k]),
        sp_scan_white_back(s, e) > 0 ==> !sp_is_white(s[sp_scan_white_back(s, e) - 1]),
    decreases e,
{
    if e > 0 && sp_is_white(s[e - 1]) {
        lemma_scan_white_back(s, e - 1);
    }
}

proof fn lemma_scan_white_back_all(s: Seq<char>, e: int)
    requires
        0 <= e <= s.len(),
        forall|k: int| 0 <= k < e ==> sp_is_white(s[k]),
    ensures
        sp_scan_white_back(s, e) == 0,
    decreases e,
{
    if e > 0 {
        lemma_scan_white_back_all(s, e - 1);
    }
}

/// `s` with white space removed from both ends, as `str::trim` does.
pub open spec fn sp_trim(s: Seq<char>) -> Seq<char> {
    let a = sp_scan_white(s, 0);
    let b = sp_scan_white_back(s, s.len() as int);
    if a < b {
        s.subrange(a, b)
    } else {
        Seq::empty()
    }
}

/// The trimmed copy of `s[from..to]`.
pub fn trim_range(s: &str, from: usize, to: usize) -> (r: String)
    requires
        from <= to <= s@.len(),
    ensures
        r@ == sp_trim(s@.subrange(from as int, to as int)),
{
    let ghost t = s@.subrange(from as int, to as int);
    proof {
        lemma_scan_white(t, 0);
        lemma_scan_white_back(t, t.len() as int);
    }
    let mut a = from;
    while a < to && is_white_char(s.get_char(a))
        invariant
            from <= a <= to,
            to <= s@.len(),
            t == s@.subrange(from as int, to as int),
            sp_scan_white(t, 0) == sp_scan_white(t, a - from),
            a - from <= t.len(),
        decreases to - a,
    {
        proof {
            assert(t[a - from] == s@[a as int]);
        }
        a = a + 1;
    }
    proof {
        if a < to {
            assert(t[a - from] == s@[a as int]);
        }
        assert(sp_scan_white(t, 0) == a - from);
    }
    let mut b = to;
    while b > a && is_white_char(s.get_char(b - 1))
        invariant
            a <= b <= to,
            a < to ==> !sp_is_white(s@[a as int]),
            to <= s@.len(),
            t == s@.subrange(from as int, to as int),
            from <= a <= to,
            sp_scan_white_back(t, t.len() as int) == sp_scan_white_back(t, b - from),
        decreases b,
    {
        proof {
            assert(t[b - from - 1] == s@[b - 1]);
        }
        b = b - 1;
    }
    proof {
        if b > a {
            assert(t[b - from - 1] == s@[b - 1]);
            assert(sp_scan_white_back(t, t.len() as int) == b - from);
            assert(sp_scan_white(t, 0) == a - from);
            assert(s@.subrange(a as int, b as int) =~= t.subrange(a - from, b - from));
            assert(sp_trim(t) == t.subrange(a - from, b - from));
        } else {
            assert(b == a);
            assert(forall|k: int| 0 <= k < a - from ==> sp_is_white(t[k]));
            lemma_scan_white_back_all(t, a - from);
            assert(sp_scan_white_back(t, t.len() as int) == 0);
            assert(sp_scan_white(t, 0) == a - from);
            assert(sp_trim(t) =~= Seq::<char>::empty());
            assert(s@.subrange(a as int, b as int) =~= Seq::<char>::empty());
        }
    }
    s.substring_char(a, b).to_owned()
}

/// How many times `c` occurs in `s[i..]`.
pub open spec fn sp_count_char(s: Seq<char>, i: int, c: char) -> nat
    decreases s.len() - i when 0 <= i <= s.len()
{
    if i < s.len() {
        sp_count_char(s, i + 1, c) + if s[i] == c {
            1nat
        } else {
            0nat
        }
    } else {
        0
    }
}

pub proof fn lemma_count_char_bound(s: Seq<char>, i: int, c: char)
    requires
        0 <= i <= s.len(),
    ensures
        sp_count_char(s, i, c) <= s.len() - i,
    decreases s.len() - i,
{
    if i < s.len() {
        lemma_count_char_bound(s, i + 1, c);
    }
}

/// Counts occurrences of `c` in `s[from..to]`... the scan stops at `to`.
pub fn count_char_to(s: &str, from: usize, to: usize, c: char) -> (r: usize)
    requires
        from <= to <= s@.len(),
    ensures
        r as nat == sp_count_char(s@.subrange(from as int, to as int), 0, c),
{
    let ghost t = s@.subrange(from as int, to as int);
    proof {
        lemma_count_char_bound(t, 0, c);
        lemma_count_sub(t, 0, c);
    }
    let mut r: usize = 0;
    let mut k = from;
    while k < to
        invariant
            from <= k <= to,
            to <= s@.len(),
            t == s@.subrange(from as int, to as int),
            r as nat + sp_count_char(t, k - from, c) == sp_count_char(t, 0, c),
            r as nat <= k - from,
        decreases to - k,
    {
        proof {
            assert(t[k - from] == s@[k as int]);
            lemma_count_sub(t, k - from + 1, c);
        }
        if s.get_char(k) == c {
            r = r + 1;
        }
        k = k + 1;
    }
    r
}

proof fn lemma_count_sub(s: Seq<char>, i: int, c: char)
    requires
        0 <= i <= s.len(),
    ensures
        sp_count_char(s, i, c) <= s.len() - i,
    decreases s.len() - i,
{
    if i < s.len() {
        lemma_count_sub(s, i + 1, c);
    }
}

/// The URL names an image file: it ends in a whitelisted extension.
pub open spec fn sp_is_image_url(u: Seq<char>) -> bool {
    let n = u.len() as int;
    (n >= 3 && u[n - 3] == 's' && u[n - 2] == 'v' && u[n - 1] == 'g') || (n >= 3 && u[n - 3]
        == 'j' && u[n - 2] == 'p' && u[n - 1] == 'g') || (n >= 4 && u[n - 4] == 'j' && u[n - 3]
        == 'p' && u[n - 2] == 'e' && u[n - 1] == 'g') || (n >= 3 && u[n - 3] == 'p' && u[n - 2]
        == 'n' && u[n - 1] == 'g') || (n >= 3 && u[n - 3] == 'g' && u[n - 2] == 'i' && u[n - 1]
        == 'f')
}

pub fn is_image_url(u: &str) -> (r: bool)
    ensures
        r == sp_is_image_url(u@),
{
    let n = u.unicode_len();
    if n >= 3 {
        let a = u.get_char(n - 3);
        let b = u.get_char(n - 2);
        let c = u.get_char(n - 1);
        (a == 's' && b == 'v' && c == 'g') || (a == 'j' && b == 'p' && c == 'g') || (a == 'p' && b
            == 'n' && c == 'g') || (a == 'g' && b == 'i' && c == 'f') || (n >= 4 && u.get_char(
            n - 4,
        ) == 'j' && a == 'p' && b == 'e' && c == 'g')
    } else {
        false
    }
}

/// `count` plain spaces stand at position `i`.
pub open spec fn sp_spaces_at(s: Seq<char>, i: int, count: int) -> bool {
    i + count <= s.len() && forall|k: int| i <= k < i + count ==> s[k] == ' '
}

pub fn spaces_at(s: &str, from: usize, count: usize) -> (r: bool)
    requires
        from <= s@.len(),
    ensures
        r == sp_spaces_at(s@, from as int, count as int),
{
    let n = s.unicode_len();
    if count > n - from {
        return false;
    }
    let mut k = from;
    while k < from + count
        invariant
            from <= k <= from + count,
            from + count <= n,
            n == s@.len(),
            forall|m: int| from <= m < k ==> s@[m] == ' ',
        decreases from + count - k,
    {
        if s.get_char(k) != ' ' {
            return false;
        }
        k = k + 1;
    }
    true
}

} // verus!
