//! Low-level scanners over CSS text: whitespace and comments, identifiers,
//! quoted strings, and error-recovery skips (to the end of a rule, of a
//! block, or of a declaration).
//!
//! Every scanner exists twice: as a spec function over a character
//! sequence, which the grammar above is written in terms of, and as an
//! executable twin proved to return exactly the spec function's answer.

use crate::strutil::is_space_char;
use crate::strutil::space_char;
use vstd::prelude::*;

verus! {

/// `x` clamped into `[lo, hi]`.
pub open spec fn cl(lo: int, x: int, hi: int) -> int {
    if x < lo {
        lo
    } else if x > hi {
        hi
    } else {
        x
    }
}

/// The position after any run of whitespace and `/* ... */` comments.
pub open spec fn spec_skip_space(s: Seq<char>, i: int) -> int
    decreases s.len() - i, 1int,
{
    if 0 <= i && i < s.len() && is_space_char(s[i]) {
        spec_skip_space(s, i + 1)
    } else if 0 <= i && i + 1 < s.len() && s[i] == '/' && s[i + 1] == '*' {
        spec_skip_comment(s, i + 2)
    } else {
        i
    }
}

/// Inside a comment: the position after its `*/` (end of text closes it),
/// with any following blank space skipped too.
pub open spec fn spec_skip_comment(s: Seq<char>, i: int) -> int
    decreases s.len() - i, 0int,
{
    if 0 <= i && i + 1 < s.len() {
        if s[i] == '*' && s[i + 1] == '/' {
            spec_skip_space(s, i + 2)
        } else {
            spec_skip_comment(s, i + 1)
        }
    } else {
        s.len() as int
    }
}


/// Executable whitespace-and-comment skip.
pub fn skip_space(cs: &Vec<char>, i: usize) -> (r: usize)
    requires
        i <= cs@.len(),
    ensures
        r == spec_skip_space(cs@, i as int),
        i <= r <= cs@.len(),
    decreases cs@.len() - i, 1int,
{
    let n = cs.len();
    if i < n && space_char(cs[i]) {
        skip_space(cs, i + 1)
    } else if i < n && i + 1 < n && cs[i] == '/' && cs[i + 1] == '*' {
        skip_comment(cs, i + 2)
    } else {
        i
    }
}

fn skip_comment(cs: &Vec<char>, i: usize) -> (r: usize)
    requires
        i <= cs@.len(),
    ensures
        r == spec_skip_comment(cs@, i as int),
        i <= r <= cs@.len(),
    decreases cs@.len() - i, 0int,
{
    let n = cs.len();
    if i < n && i + 1 < n {
        if cs[i] == '*' && cs[i + 1] == '/' {
            skip_space(cs, i + 2)
        } else {
            skip_comment(cs, i + 1)
        }
    } else {
        n
    }
}

/// A CSS identifier character: ASCII letter, digit, `-` or `_`.
pub open spec fn is_ident_char(c: char) -> bool {
    (97 <= c as u32 && c as u32 <= 122) || (65 <= c as u32 && c as u32 <= 90) || (48 <= c as u32
        && c as u32 <= 57) || c == '-' || c == '_'
}

/// Executable identifier-character test.
pub fn ident_char(c: char) -> (r: bool)
    ensures
        r == is_ident_char(c),
{
    let u = c as u32;
    (97 <= u && u <= 122) || (65 <= u && u <= 90) || (48 <= u && u <= 57) || c == '-' || c == '_'
}

/// The end of the identifier run starting at `i`.
pub open spec fn spec_scan_ident(s: Seq<char>, i: int) -> int
    decreases s.len() - i,
{
    if 0 <= i && i < s.len() && is_ident_char(s[i]) {
        spec_scan_ident(s, i + 1)
    } else {
        i
    }
}

/// Executable identifier scan.
pub fn scan_ident(cs: &Vec<char>, i: usize) -> (r: usize)
    requires
        i <= cs@.len(),
    ensures
        r == spec_scan_ident(cs@, i as int),
        i <= r <= cs@.len(),
    decreases cs@.len() - i,
{
    let n = cs.len();
    if i < n && ident_char(cs[i]) {
        scan_ident(cs, i + 1)
    } else {
        i
    }
}

/// The body of a quoted string: characters until the closing quote, a
/// backslash taking the next character literally.  `None` when the text
/// ends before the quote closes.
pub open spec fn spec_string_body(s: Seq<char>, i: int, q: char, acc: Seq<char>) -> Option<
    (Seq<char>, int),
>
    decreases s.len() - i,
{
    if i < 0 || i >= s.len() {
        None
    } else if s[i] == q {
        Some((acc, i + 1))
    } else if s[i] == '\\' && i + 1 < s.len() {
        spec_string_body(s, i + 2, q, acc.push(s[i + 1]))
    } else {
        spec_string_body(s, i + 1, q, acc.push(s[i]))
    }
}

/// Executable string-body scan.
pub fn string_body(cs: &Vec<char>, i: usize, q: char, acc: Vec<char>) -> (r: Option<
    (Vec<char>, usize),
>)
    requires
        i <= cs@.len(),
    ensures
        match r {
            Some(p) => spec_string_body(cs@, i as int, q, acc@) == Some((p.0@, p.1 as int)) && i
                < p.1 <= cs@.len(),
            None => spec_string_body(cs@, i as int, q, acc@) is None,
        },
    decreases cs@.len() - i,
{
    let n = cs.len();
    if i >= n {
        None
    } else if cs[i] == q {
        Some((acc, i + 1))
    } else if cs[i] == '\\' && i + 1 < n {
        let mut acc2 = acc;
        acc2.push(cs[i + 1]);
        string_body(cs, i + 2, q, acc2)
    } else {
        let mut acc2 = acc;
        acc2.push(cs[i]);
        string_body(cs, i + 1, q, acc2)
    }
}

/// Whether the character opens a string.
pub open spec fn is_quote(c: char) -> bool {
    c == '"' || c == '\''
}

/// Executable quote test.
pub fn quote_char(c: char) -> (r: bool)
    ensures
        r == is_quote(c),
{
    c == '"' || c == '\''
}

/// After an invalid at-rule: the position past its terminating `;`, or
/// past its block, or the end of the text.  Quoted strings are skipped
/// whole.
pub open spec fn spec_skip_rule_end(s: Seq<char>, i: int) -> int
    decreases s.len() - i, 1int,
{
    let n = s.len() as int;
    if i < 0 || i >= n {
        n
    } else if s[i] == ';' {
        i + 1
    } else if s[i] == '{' {
        let ce = spec_skip_block(s, i + 1, 1);
        if ce < n {
            ce + 1
        } else {
            n
        }
    } else if is_quote(s[i]) {
        match spec_string_body(s, i + 1, s[i], Seq::empty()) {
            Some(p) => spec_skip_rule_end(s, cl(i + 1, p.1, n)),
            None => n,
        }
    } else {
        spec_skip_rule_end(s, i + 1)
    }
}

/// Inside a block opened at depth `depth`: the index of the `}` that
/// closes depth 1, or the end of the text.
pub open spec fn spec_skip_block(s: Seq<char>, i: int, depth: int) -> int
    decreases s.len() - i, 0int,
{
    let n = s.len() as int;
    if i < 0 || i >= n {
        n
    } else if s[i] == '}' {
        if depth <= 1 {
            i
        } else {
            spec_skip_block(s, i + 1, depth - 1)
        }
    } else if s[i] == '{' {
        spec_skip_block(s, i + 1, depth + 1)
    } else if is_quote(s[i]) {
        match spec_string_body(s, i + 1, s[i], Seq::empty()) {
            Some(p) => spec_skip_block(s, cl(i + 1, p.1, n), depth),
            None => n,
        }
    } else {
        spec_skip_block(s, i + 1, depth)
    }
}


/// Executable skip past an invalid at-rule.
pub fn skip_rule_end(cs: &Vec<char>, i: usize) -> (r: usize)
    requires
        i <= cs@.len(),
    ensures
        r == spec_skip_rule_end(cs@, i as int),
        r <= cs@.len(),
    decreases cs@.len() - i, 1int,
{
    let n = cs.len();
    if i >= n {
        n
    } else if cs[i] == ';' {
        i + 1
    } else if cs[i] == '{' {
        let ce = skip_block(cs, i + 1, 1);
        if ce < n {
            ce + 1
        } else {
            n
        }
    } else if quote_char(cs[i]) {
        match string_body(cs, i + 1, cs[i], Vec::new()) {
            Some(p) => skip_rule_end(cs, p.1),
            None => n,
        }
    } else {
        skip_rule_end(cs, i + 1)
    }
}

/// Executable skip to a block's closing `}`.
pub fn skip_block(cs: &Vec<char>, i: usize, depth: usize) -> (r: usize)
    requires
        i <= cs@.len(),
        1 <= depth <= i,
    ensures
        r == spec_skip_block(cs@, i as int, depth as int),
        i <= r <= cs@.len(),
    decreases cs@.len() - i, 0int,
{
    let n = cs.len();
    if i >= n {
        n
    } else if cs[i] == '}' {
        if depth <= 1 {
            i
        } else {
            skip_block(cs, i + 1, depth - 1)
        }
    } else if cs[i] == '{' {
        skip_block(cs, i + 1, depth + 1)
    } else if quote_char(cs[i]) {
        match string_body(cs, i + 1, cs[i], Vec::new()) {
            Some(p) => skip_block(cs, p.1, depth),
            None => n,
        }
    } else {
        skip_block(cs, i + 1, depth)
    }
}

/// The position of the next top-level `{`, or the end of the text;
/// comments and quoted strings are skipped whole.
pub open spec fn spec_find_open(s: Seq<char>, i: int) -> int
    decreases s.len() - i,
{
    let n = s.len() as int;
    if i < 0 || i >= n {
        n
    } else if s[i] == '{' {
        i
    } else if s[i] == '/' && i + 1 < n && s[i + 1] == '*' {
        spec_find_open(s, cl(i + 1, spec_comment_end(s, i + 2), n))
    } else if is_quote(s[i]) {
        match spec_string_body(s, i + 1, s[i], Seq::empty()) {
            Some(p) => spec_find_open(s, cl(i + 1, p.1, n)),
            None => n,
        }
    } else {
        spec_find_open(s, i + 1)
    }
}

/// The position after `*/`, or the end of the text.
pub open spec fn spec_comment_end(s: Seq<char>, i: int) -> int
    decreases s.len() - i,
{
    if 0 <= i && i + 1 < s.len() {
        if s[i] == '*' && s[i + 1] == '/' {
            i + 2
        } else {
            spec_comment_end(s, i + 1)
        }
    } else {
        s.len() as int
    }
}

fn comment_end(cs: &Vec<char>, i: usize) -> (r: usize)
    requires
        i <= cs@.len(),
    ensures
        r == spec_comment_end(cs@, i as int),
        r <= cs@.len(),
    decreases cs@.len() - i,
{
    let n = cs.len();
    if i < n && i + 1 < n {
        if cs[i] == '*' && cs[i + 1] == '/' {
            i + 2
        } else {
            comment_end(cs, i + 1)
        }
    } else {
        n
    }
}

/// Executable search for the next top-level `{`.
pub fn find_open(cs: &Vec<char>, i: usize) -> (r: usize)
    requires
        i <= cs@.len(),
    ensures
        r == spec_find_open(cs@, i as int),
        i <= r <= cs@.len(),
        r < cs@.len() ==> cs@[r as int] == '{',
    decreases cs@.len() - i,
{
    let n = cs.len();
    if i >= n {
        n
    } else if cs[i] == '{' {
        i
    } else if cs[i] == '/' && i + 1 < n && cs[i + 1] == '*' {
        let e = comment_end(cs, i + 2);
        let e2 = if e <= i { i + 1 } else { e };
        find_open(cs, e2)
    } else if quote_char(cs[i]) {
        match string_body(cs, i + 1, cs[i], Vec::new()) {
            Some(p) => find_open(cs, p.1),
            None => n,
        }
    } else {
        find_open(cs, i + 1)
    }
}

/// Right trim: the end of `[v0, t)` with trailing whitespace dropped.
pub open spec fn spec_trim_end(s: Seq<char>, v0: int, t: int) -> int
    decreases t,
{
    if t > v0 && 0 <= t - 1 && t - 1 < s.len() && is_space_char(s[t - 1]) {
        spec_trim_end(s, v0, t - 1)
    } else {
        t
    }
}

/// Executable right trim.
pub fn trim_end(cs: &Vec<char>, v0: usize, t: usize) -> (r: usize)
    requires
        v0 <= t <= cs@.len(),
    ensures
        r == spec_trim_end(cs@, v0 as int, t as int),
        v0 <= r <= t,
    decreases t,
{
    if t > v0 && space_char(cs[t - 1]) {
        trim_end(cs, v0, t - 1)
    } else {
        t
    }
}

} // verus!
