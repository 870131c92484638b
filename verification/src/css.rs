//! CSS parsing and the rule store: qualified rules (selector list plus
//! declaration block), the `@import` at-rule, and the cascade that applies
//! a stylesheet to a document tree.
//!
//! The grammar is given as spec functions over the text; every executable
//! parsing function is proved to return exactly what the grammar says.
//! Rule- and declaration-level errors are swallowed at the smallest
//! granularity: an invalid declaration is dropped, an invalid rule (bad
//! selector, unknown at-rule, bad import) is skipped, and the rest of the
//! stylesheet still parses.

use crate::scan::{
    cl, find_open, is_quote, quote_char, scan_ident, skip_block, skip_rule_end, skip_space,
    spec_find_open, spec_scan_ident, spec_skip_block, spec_skip_rule_end, spec_skip_space,
    spec_string_body, spec_trim_end, string_body, trim_end,
};
use crate::selector::{
    views_of_rest, views_of_selectors, views_of_simples, Combinator, Compound, CompoundShape,
    Selector, SelectorShape, SimpleSelector, SimpleSelectorShape,
};
use crate::strutil::{chars_of, str_eq, string_of};
use crate::style::{
    decl_lookup, decls_unique, lemma_important_survives, lemma_later_rule_wins, spec_decl_list,
    spec_style_merge, spec_style_merge_all, DeclShape, Declaration, DeclarationList,
};
use vstd::prelude::*;

verus! {

/// Progress clamp: `x` forced into `(lo, hi]` so that every parsing step
/// advances and stays inside the text.
pub open spec fn prog(lo: int, x: int, hi: int) -> int {
    if x <= lo {
        lo + 1
    } else if x > hi {
        hi
    } else {
        x
    }
}

/// Executable progress clamp.
fn prog_exec(lo: usize, x: usize, hi: usize) -> (r: usize)
    requires
        lo < hi,
    ensures
        r == prog(lo as int, x as int, hi as int),
        lo < r <= hi,
{
    if x <= lo {
        lo + 1
    } else if x > hi {
        hi
    } else {
        x
    }
}

/// The simple selectors after the leading type part: `#id`, `.class`, or
/// the supported pseudo-classes `:empty` and `:root`.  An empty name or an
/// unsupported pseudo-class makes the whole selector invalid.
pub open spec fn spec_parse_simples(
    s: Seq<char>,
    i: int,
    end: int,
    acc: Seq<SimpleSelectorShape>,
) -> Option<(Seq<SimpleSelectorShape>, int)>
    decreases end - i,
{
    if !(0 <= i && i < end && (s[i] == '#' || s[i] == '.' || s[i] == ':')) {
        Some((acc, i))
    } else {
        let e = spec_scan_ident(s, i + 1);
        if e <= i + 1 || e > end {
            None
        } else {
            let name = s.subrange(i + 1, e);
            if s[i] == '#' {
                spec_parse_simples(s, e, end, acc.push(SimpleSelectorShape::Id(name)))
            } else if s[i] == '.' {
                spec_parse_simples(s, e, end, acc.push(SimpleSelectorShape::Class(name)))
            } else if name == "empty"@ {
                spec_parse_simples(s, e, end, acc.push(SimpleSelectorShape::Empty))
            } else if name == "root"@ {
                spec_parse_simples(s, e, end, acc.push(SimpleSelectorShape::Root))
            } else {
                None
            }
        }
    }
}

/// One compound selector: an optional `*` or type name, then simple
/// selectors; at least one part in all.
pub open spec fn spec_parse_compound(s: Seq<char>, i: int, end: int) -> Option<
    (CompoundShape, int),
> {
    if 0 <= i && i < end && s[i] == '*' {
        match spec_parse_simples(s, i + 1, end, seq![SimpleSelectorShape::Universal]) {
            Some(rp) => Some((CompoundShape { parts: rp.0 }, rp.1)),
            None => None,
        }
    } else {
        let e = spec_scan_ident(s, i);
        if 0 <= i && e > i && e <= end {
            match spec_parse_simples(
                s,
                e,
                end,
                seq![SimpleSelectorShape::LocalName(s.subrange(i, e))],
            ) {
                Some(rp) => Some((CompoundShape { parts: rp.0 }, rp.1)),
                None => None,
            }
        } else {
            match spec_parse_simples(s, i, end, Seq::empty()) {
                Some(rp) => if rp.0.len() == 0 {
                    None
                } else {
                    Some((CompoundShape { parts: rp.0 }, rp.1))
                },
                None => None,
            }
        }
    }
}

/// The combinator-joined tail of a selector, ending at `,` or at `end`.
pub open spec fn spec_parse_sel_rest(
    s: Seq<char>,
    i: int,
    end: int,
    first: CompoundShape,
    rest: Seq<(Combinator, CompoundShape)>,
) -> Option<(SelectorShape, int)>
    decreases end - i,
{
    let j = cl(i, spec_skip_space(s, i), end);
    if j >= end {
        Some((SelectorShape { first, rest }, j))
    } else if s[j] == ',' {
        Some((SelectorShape { first, rest }, j))
    } else if s[j] == '>' || s[j] == '+' || s[j] == '~' {
        let comb = if s[j] == '>' {
            Combinator::Child
        } else if s[j] == '+' {
            Combinator::NextSibling
        } else {
            Combinator::LaterSibling
        };
        let m = cl(j + 1, spec_skip_space(s, j + 1), end);
        match spec_parse_compound(s, m, end) {
            None => None,
            Some(cp) => spec_parse_sel_rest(s, prog(i, cp.1, end), end, first, rest.push(
                (comb, cp.0),
            )),
        }
    } else if j > i {
        match spec_parse_compound(s, j, end) {
            None => None,
            Some(cp) => spec_parse_sel_rest(s, prog(i, cp.1, end), end, first, rest.push(
                (Combinator::Descendant, cp.0),
            )),
        }
    } else {
        None
    }
}

/// One full selector starting at `i` (whitespace already skipped).
pub open spec fn spec_parse_selector(s: Seq<char>, i: int, end: int) -> Option<
    (SelectorShape, int),
> {
    match spec_parse_compound(s, i, end) {
        None => None,
        Some(cp) => spec_parse_sel_rest(s, cp.1, end, cp.0, Seq::empty()),
    }
}

/// A comma-separated selector list filling the whole prelude `[i, end)`.
/// Any invalid selector invalidates the whole list (and so the rule).
pub open spec fn spec_parse_selector_list(
    s: Seq<char>,
    i: int,
    end: int,
    acc: Seq<SelectorShape>,
) -> Option<Seq<SelectorShape>>
    decreases end - i,
{
    let j = cl(i, spec_skip_space(s, i), end);
    match spec_parse_selector(s, j, end) {
        None => None,
        Some(selp) => {
            if selp.1 >= end {
                Some(acc.push(selp.0))
            } else {
                spec_parse_selector_list(s, prog(i, selp.1 + 1, end), end, acc.push(selp.0))
            }
        },
    }
}

/// Executable twin of `spec_parse_simples`.
fn parse_simples(cs: &Vec<char>, i: usize, end: usize, acc: Vec<SimpleSelector>) -> (r: Option<
    (Vec<SimpleSelector>, usize),
>)
    requires
        end <= cs@.len(),
        i <= end,
    ensures
        match r {
            Some(p) => spec_parse_simples(cs@, i as int, end as int, views_of_simples(acc@))
                == Some((views_of_simples(p.0@), p.1 as int)) && i <= p.1 <= end,
            None => spec_parse_simples(cs@, i as int, end as int, views_of_simples(acc@)) is None,
        },
    decreases end - i,
{
    if !(i < end && (cs[i] == '#' || cs[i] == '.' || cs[i] == ':')) {
        Some((acc, i))
    } else {
        let e = scan_ident(cs, i + 1);
        if e <= i + 1 || e > end {
            None
        } else {
            let name = string_of(cs, i + 1, e);
            let part: Option<SimpleSelector> = if cs[i] == '#' {
                Some(SimpleSelector::Id(name))
            } else if cs[i] == '.' {
                Some(SimpleSelector::Class(name))
            } else if str_eq(name.as_str(), "empty") {
                Some(SimpleSelector::Empty)
            } else if str_eq(name.as_str(), "root") {
                Some(SimpleSelector::Root)
            } else {
                None
            };
            match part {
                None => None,
                Some(p) => {
                    let mut acc2 = acc;
                    let ghost old_acc = acc2@;
                    acc2.push(p);
                    proof {
                        assert(views_of_simples(acc2@) =~= views_of_simples(old_acc).push(p@));
                    }
                    parse_simples(cs, e, end, acc2)
                },
            }
        }
    }
}

/// Executable twin of `spec_parse_compound`.
fn parse_compound(cs: &Vec<char>, i: usize, end: usize) -> (r: Option<(Compound, usize)>)
    requires
        end <= cs@.len(),
        i <= end,
    ensures
        match r {
            Some(p) => spec_parse_compound(cs@, i as int, end as int) == Some(
                (p.0@, p.1 as int),
            ) && i <= p.1 <= end,
            None => spec_parse_compound(cs@, i as int, end as int) is None,
        },
{
    if i < end && cs[i] == '*' {
        let mut lead: Vec<SimpleSelector> = Vec::new();
        lead.push(SimpleSelector::Universal);
        proof {
            assert(views_of_simples(lead@) =~= seq![SimpleSelectorShape::Universal]);
        }
        match parse_simples(cs, i + 1, end, lead) {
            Some(p) => Some((Compound { parts: p.0 }, p.1)),
            None => None,
        }
    } else {
        let e = scan_ident(cs, i);
        if e > i && e <= end {
            let name = string_of(cs, i, e);
            let mut lead: Vec<SimpleSelector> = Vec::new();
            lead.push(SimpleSelector::LocalName(name));
            proof {
                assert(views_of_simples(lead@) =~= seq![
                    SimpleSelectorShape::LocalName(cs@.subrange(i as int, e as int)),
                ]);
            }
            match parse_simples(cs, e, end, lead) {
                Some(p) => Some((Compound { parts: p.0 }, p.1)),
                None => None,
            }
        } else {
            proof {
                assert(views_of_simples(Seq::<SimpleSelector>::empty())
                    =~= Seq::<SimpleSelectorShape>::empty());
            }
            match parse_simples(cs, i, end, Vec::new()) {
                Some(p) => {
                    if p.0.len() == 0 {
                        proof {
                            assert(views_of_simples(p.0@).len() == 0);
                        }
                        None
                    } else {
                        Some((Compound { parts: p.0 }, p.1))
                    }
                },
                None => None,
            }
        }
    }
}

/// Executable twin of `spec_parse_sel_rest`.
fn parse_sel_rest(
    cs: &Vec<char>,
    i: usize,
    end: usize,
    first: Compound,
    rest: Vec<(Combinator, Compound)>,
) -> (r: Option<(Selector, usize)>)
    requires
        end <= cs@.len(),
        i <= end,
    ensures
        match r {
            Some(p) => spec_parse_sel_rest(
                cs@,
                i as int,
                end as int,
                first@,
                views_of_rest(rest@),
            ) == Some((p.0@, p.1 as int)) && i <= p.1 <= end,
            None => spec_parse_sel_rest(cs@, i as int, end as int, first@, views_of_rest(rest@))
                is None,
        },
    decreases end - i,
{
    let sk = skip_space(cs, i);
    let j = if sk > end {
        end
    } else {
        sk
    };
    if j >= end {
        let sel = Selector { first, rest };
        return Some((sel, j));
    }
    if cs[j] == ',' {
        let sel = Selector { first, rest };
        return Some((sel, j));
    }
    if cs[j] == '>' || cs[j] == '+' || cs[j] == '~' {
        let comb = if cs[j] == '>' {
            Combinator::Child
        } else if cs[j] == '+' {
            Combinator::NextSibling
        } else {
            Combinator::LaterSibling
        };
        let m0 = skip_space(cs, j + 1);
        let m = if m0 > end {
            end
        } else {
            m0
        };
        match parse_compound(cs, m, end) {
            None => None,
            Some(cp) => {
                let mut rest2 = rest;
                let ghost old_rest = rest2@;
                rest2.push((comb, cp.0));
                proof {
                    assert(views_of_rest(rest2@) =~= views_of_rest(old_rest).push(
                        (comb, rest2@[rest2@.len() - 1].1@),
                    ));
                }
                parse_sel_rest(cs, prog_exec(i, cp.1, end), end, first, rest2)
            },
        }
    } else if j > i {
        match parse_compound(cs, j, end) {
            None => None,
            Some(cp) => {
                let mut rest2 = rest;
                let ghost old_rest = rest2@;
                rest2.push((Combinator::Descendant, cp.0));
                proof {
                    assert(views_of_rest(rest2@) =~= views_of_rest(old_rest).push(
                        (Combinator::Descendant, rest2@[rest2@.len() - 1].1@),
                    ));
                }
                parse_sel_rest(cs, prog_exec(i, cp.1, end), end, first, rest2)
            },
        }
    } else {
        None
    }
}

/// Executable twin of `spec_parse_selector_list`.
fn parse_selector_list(cs: &Vec<char>, i: usize, end: usize, acc: Vec<Selector>) -> (r: Option<
    Vec<Selector>,
>)
    requires
        end <= cs@.len(),
        i <= end,
    ensures
        match r {
            Some(v) => spec_parse_selector_list(cs@, i as int, end as int, views_of_selectors(acc@))
                == Some(views_of_selectors(v@)),
            None => spec_parse_selector_list(cs@, i as int, end as int, views_of_selectors(acc@))
                is None,
        },
    decreases end - i,
{
    let j0 = skip_space(cs, i);
    let j = if j0 > end {
        end
    } else {
        j0
    };
    proof {
        assert(views_of_rest(Seq::<(Combinator, Compound)>::empty()) =~= Seq::<
            (Combinator, CompoundShape),
        >::empty());
    }
    match parse_compound(cs, j, end) {
        None => None,
        Some(cp) => {
            match parse_sel_rest(cs, cp.1, end, cp.0, Vec::new()) {
                None => None,
                Some(selp) => {
                    let mut acc2 = acc;
                    let ghost old_acc = acc2@;
                    acc2.push(selp.0);
                    proof {
                        assert(views_of_selectors(acc2@) =~= views_of_selectors(old_acc).push(
                            acc2@[acc2@.len() - 1]@,
                        ));
                    }
                    if selp.1 >= end {
                        Some(acc2)
                    } else {
                        parse_selector_list(cs, prog_exec(i, selp.1 + 1, end), end, acc2)
                    }
                },
            }
        },
    }
}

/// Either of two characters (used for ASCII case-insensitive keywords).
pub open spec fn ci2(c: char, l: char, u: char) -> bool {
    c == l || c == u
}

/// `important`, ASCII case-insensitively, standing at `p`.
pub open spec fn spec_is_important_at(s: Seq<char>, p: int) -> bool {
    &&& 0 <= p
    &&& p + 9 <= s.len()
    &&& ci2(s[p], 'i', 'I')
    &&& ci2(s[p + 1], 'm', 'M')
    &&& ci2(s[p + 2], 'p', 'P')
    &&& ci2(s[p + 3], 'o', 'O')
    &&& ci2(s[p + 4], 'r', 'R')
    &&& ci2(s[p + 5], 't', 'T')
    &&& ci2(s[p + 6], 'a', 'A')
    &&& ci2(s[p + 7], 'n', 'N')
    &&& ci2(s[p + 8], 't', 'T')
}

fn important_at(cs: &Vec<char>, p: usize) -> (r: bool)
    requires
        p + 9 <= cs@.len(),
    ensures
        r == spec_is_important_at(cs@, p as int),
{
    let n = cs.len();
    (cs[p] == 'i' || cs[p] == 'I') && (cs[p + 1] == 'm' || cs[p + 1] == 'M') && (cs[p + 2] == 'p'
        || cs[p + 2] == 'P') && (cs[p + 3] == 'o' || cs[p + 3] == 'O') && (cs[p + 4] == 'r' || cs[p
        + 4] == 'R') && (cs[p + 5] == 't' || cs[p + 5] == 'T') && (cs[p + 6] == 'a' || cs[p + 6]
        == 'A') && (cs[p + 7] == 'n' || cs[p + 7] == 'N') && (cs[p + 8] == 't' || cs[p + 8] == 'T')
}

/// The value `[v0, w)` with a trailing `!important` marker (and blank
/// space) stripped: the new end of the value, and whether the marker was
/// present.
pub open spec fn spec_strip_important(s: Seq<char>, v0: int, w: int) -> (int, bool) {
    if w - v0 >= 9 && spec_is_important_at(s, w - 9) {
        let b = spec_trim_end(s, v0, w - 9);
        if b > v0 && b - 1 < s.len() && s[b - 1] == '!' {
            (spec_trim_end(s, v0, b - 1), true)
        } else {
            (w, false)
        }
    } else {
        (w, false)
    }
}

fn strip_important(cs: &Vec<char>, v0: usize, w: usize) -> (r: (usize, bool))
    requires
        v0 <= w <= cs@.len(),
    ensures
        (r.0 as int, r.1) == spec_strip_important(cs@, v0 as int, w as int),
        v0 <= r.0 <= w,
{
    if w - v0 >= 9 && important_at(cs, w - 9) {
        let b = trim_end(cs, v0, w - 9);
        if b > v0 && cs[b - 1] == '!' {
            (trim_end(cs, v0, b - 1), true)
        } else {
            (w, false)
        }
    } else {
        (w, false)
    }
}

/// Past the next `;` (or to `end`), for dropping one bad declaration;
/// quoted strings are skipped whole.
pub open spec fn spec_skip_decl(s: Seq<char>, i: int, end: int) -> int
    decreases end - i,
{
    if !(0 <= i && i < end) {
        end
    } else if s[i] == ';' {
        i + 1
    } else if is_quote(s[i]) {
        match spec_string_body(s, i + 1, s[i], Seq::empty()) {
            Some(p) => spec_skip_decl(s, prog(i, p.1, end), end),
            None => end,
        }
    } else {
        spec_skip_decl(s, i + 1, end)
    }
}

fn skip_decl(cs: &Vec<char>, i: usize, end: usize) -> (r: usize)
    requires
        i <= end <= cs@.len(),
    ensures
        r == spec_skip_decl(cs@, i as int, end as int),
        i <= r <= end,
    decreases end - i,
{
    if i >= end {
        end
    } else if cs[i] == ';' {
        i + 1
    } else if quote_char(cs[i]) {
        match string_body(cs, i + 1, cs[i], Vec::new()) {
            Some(p) => skip_decl(cs, prog_exec(i, p.1, end), end),
            None => end,
        }
    } else {
        skip_decl(cs, i + 1, end)
    }
}

/// The position of the `;` ending the current value, or `end`; quoted
/// strings are skipped whole.
pub open spec fn spec_value_end(s: Seq<char>, i: int, end: int) -> int
    decreases end - i,
{
    if !(0 <= i && i < end) {
        end
    } else if s[i] == ';' {
        i
    } else if is_quote(s[i]) {
        match spec_string_body(s, i + 1, s[i], Seq::empty()) {
            Some(p) => spec_value_end(s, prog(i, p.1, end), end),
            None => end,
        }
    } else {
        spec_value_end(s, i + 1, end)
    }
}

fn value_end(cs: &Vec<char>, i: usize, end: usize) -> (r: usize)
    requires
        i <= end <= cs@.len(),
    ensures
        r == spec_value_end(cs@, i as int, end as int),
        i <= r <= end,
    decreases end - i,
{
    if i >= end {
        end
    } else if cs[i] == ';' {
        i
    } else if quote_char(cs[i]) {
        match string_body(cs, i + 1, cs[i], Vec::new()) {
            Some(p) => value_end(cs, prog_exec(i, p.1, end), end),
            None => end,
        }
    } else {
        value_end(cs, i + 1, end)
    }
}

/// The raw declarations of a block `[i, end)`, in source order: each is
/// `name : value` with an optional `!important` marker, ended by `;` or by
/// the block's end.  A declaration with a missing name, missing colon or
/// empty value is dropped by itself.
pub open spec fn spec_parse_declarations(
    s: Seq<char>,
    i: int,
    end: int,
    acc: Seq<DeclShape>,
) -> Seq<DeclShape>
    decreases end - i,
{
    let j = cl(i, spec_skip_space(s, i), end);
    if j >= end {
        acc
    } else {
        let e = spec_scan_ident(s, j);
        if e <= j || e > end {
            spec_parse_declarations(s, prog(i, spec_skip_decl(s, j, end), end), end, acc)
        } else {
            let k = cl(e, spec_skip_space(s, e), end);
            if k >= end || s[k] != ':' {
                spec_parse_declarations(s, prog(i, spec_skip_decl(s, k, end), end), end, acc)
            } else {
                let v0 = cl(k + 1, spec_skip_space(s, k + 1), end);
                let ve = spec_value_end(s, v0, end);
                let w = spec_trim_end(s, v0, ve);
                let sw = spec_strip_important(s, v0, w);
                let nxt = prog(
                    i,
                    if ve < end {
                        ve + 1
                    } else {
                        end
                    },
                    end,
                );
                if sw.0 <= v0 {
                    spec_parse_declarations(s, nxt, end, acc)
                } else {
                    spec_parse_declarations(
                        s,
                        nxt,
                        end,
                        acc.push(
                            DeclShape {
                                prop_name: s.subrange(j, e),
                                value: s.subrange(v0, sw.0),
                                important: sw.1,
                            },
                        ),
                    )
                }
            }
        }
    }
}

/// Executable declaration-block parse, folding straight into a
/// `DeclarationList` (last declaration for a property wins).
fn parse_decls(
    cs: &Vec<char>,
    i: usize,
    end: usize,
    dl: DeclarationList,
    Ghost(acc): Ghost<Seq<DeclShape>>,
) -> (r: DeclarationList)
    requires
        end <= cs@.len(),
        i <= end,
        dl.wf(),
        dl@ == spec_decl_list(acc),
    ensures
        r.wf(),
        r@ == spec_decl_list(spec_parse_declarations(cs@, i as int, end as int, acc)),
    decreases end - i,
{
    let j0 = skip_space(cs, i);
    let j = if j0 > end {
        end
    } else {
        j0
    };
    if j >= end {
        return dl;
    }
    let e = scan_ident(cs, j);
    if e <= j || e > end {
        let nxt = prog_exec(i, skip_decl(cs, j, end), end);
        return parse_decls(cs, nxt, end, dl, Ghost(acc));
    }
    let k0 = skip_space(cs, e);
    let k = if k0 > end {
        end
    } else {
        k0
    };
    if k >= end || cs[k] != ':' {
        let nxt = prog_exec(i, skip_decl(cs, k, end), end);
        return parse_decls(cs, nxt, end, dl, Ghost(acc));
    }
    let v00 = skip_space(cs, k + 1);
    let v0 = if v00 > end {
        end
    } else {
        v00
    };
    proof {
        assert(v0 as int == cl(k as int + 1, spec_skip_space(cs@, k as int + 1), end as int));
    }
    let ve = value_end(cs, v0, end);
    let w = trim_end(cs, v0, ve);
    let sw = strip_important(cs, v0, w);
    let nxt = prog_exec(
        i,
        if ve < end {
            ve + 1
        } else {
            end
        },
        end,
    );
    if sw.0 <= v0 {
        parse_decls(cs, nxt, end, dl, Ghost(acc))
    } else {
        let d = Declaration {
            prop_name: string_of(cs, j, e),
            value: string_of(cs, v0, sw.0),
            important: sw.1,
        };
        let ghost d_shape = d@;
        let mut dl2 = dl;
        dl2.add(d);
        proof {
            assert((acc.push(d_shape)).drop_last() =~= acc);
            assert((acc.push(d_shape)).last() == d_shape);
            assert(dl2@ == spec_decl_list(acc.push(d_shape)));
        }
        parse_decls(cs, nxt, end, dl2, Ghost(acc.push(d_shape)))
    }
}

/// One fetched resource: its declared content type, and its body where the
/// transport could decode it as UTF-8 text (`None` marks undecodable
/// bytes).
#[derive(Debug, Clone, PartialEq)]
pub struct Resource {
    pub content_type: Option<String>,
    pub body: Option<String>,
}

/// What the security boundary and the transport answered for this load
/// session: which reference strings may be fetched (and their canonical
/// URL), and what each canonical URL yielded.  The boundary and the
/// transport themselves live outside this library; their answers are
/// handed in as plain values.
#[derive(Debug, Clone, PartialEq)]
pub struct ResourceEnv {
    /// Reference string, as written, to its canonical allow-listed URL.
    pub allowed: Vec<(String, String)>,
    /// Canonical URL to the resource it yields; an absent URL failed to
    /// fetch.
    pub fetched: Vec<(String, Resource)>,
}

/// Errors from loading a stylesheet by reference.
#[derive(Debug, PartialEq, Eq, Structural, Clone, Copy)]
pub enum LoadingError {
    /// The security boundary rejected the URL.
    BadUrl,
    /// The resource could not be fetched.
    FetchFailed,
    /// The resource is not usable CSS: wrong content type or not UTF-8.
    BadCss,
}

/// First match in the allow list.
pub open spec fn spec_allowed_lookup(a: Seq<(String, String)>, href: Seq<char>) -> Option<
    Seq<char>,
>
    decreases a.len(),
{
    if a.len() == 0 {
        None
    } else if a[0].0@ == href {
        Some(a[0].1@)
    } else {
        spec_allowed_lookup(a.drop_first(), href)
    }
}

/// First match in the fetched-resource list.
pub open spec fn spec_fetched_lookup(f: Seq<(String, Resource)>, url: Seq<char>) -> Option<
    Resource,
>
    decreases f.len(),
{
    if f.len() == 0 {
        None
    } else if f[0].0@ == url {
        Some(f[0].1)
    } else {
        spec_fetched_lookup(f.drop_first(), url)
    }
}

pub(crate) fn allowed_lookup(v: &Vec<(String, String)>, idx: usize, href: &str) -> (r: Option<String>)
    requires
        idx <= v@.len(),
    ensures
        match r {
            Some(u) => spec_allowed_lookup(v@.skip(idx as int), href@) == Some(u@),
            None => spec_allowed_lookup(v@.skip(idx as int), href@) is None,
        },
    decreases v@.len() - idx,
{
    if idx >= v.len() {
        proof {
            assert(v@.skip(idx as int) =~= Seq::<(String, String)>::empty());
        }
        None
    } else if str_eq(v[idx].0.as_str(), href) {
        proof {
            assert(v@.skip(idx as int)[0] == v@[idx as int]);
        }
        Some(v[idx].1.clone())
    } else {
        proof {
            assert(v@.skip(idx as int)[0] == v@[idx as int]);
            assert(v@.skip(idx as int).drop_first() =~= v@.skip(idx as int + 1));
        }
        allowed_lookup(v, idx + 1, href)
    }
}

fn fetched_index(v: &Vec<(String, Resource)>, idx: usize, url: &str) -> (r: Option<usize>)
    requires
        idx <= v@.len(),
    ensures
        match r {
            Some(ix) => idx <= ix < v@.len() && spec_fetched_lookup(v@.skip(idx as int), url@)
                == Some(v@[ix as int].1),
            None => spec_fetched_lookup(v@.skip(idx as int), url@) is None,
        },
    decreases v@.len() - idx,
{
    if idx >= v.len() {
        proof {
            assert(v@.skip(idx as int) =~= Seq::<(String, Resource)>::empty());
        }
        None
    } else if str_eq(v[idx].0.as_str(), url) {
        proof {
            assert(v@.skip(idx as int)[0] == v@[idx as int]);
        }
        Some(idx)
    } else {
        proof {
            assert(v@.skip(idx as int)[0] == v@[idx as int]);
            assert(v@.skip(idx as int).drop_first() =~= v@.skip(idx as int + 1));
        }
        fetched_index(v, idx + 1, url)
    }
}

/// A qualified rule: a selector list (OR semantics) and its declaration
/// block.
#[derive(Debug, Clone, PartialEq)]
pub struct QualifiedRule {
    pub selectors: Vec<Selector>,
    pub declarations: DeclarationList,
}

/// The shape of a qualified rule.
pub struct QualifiedRuleShape {
    pub selectors: Seq<SelectorShape>,
    pub declarations: Seq<DeclShape>,
}

impl View for QualifiedRule {
    type V = QualifiedRuleShape;

    open spec fn view(&self) -> QualifiedRuleShape {
        QualifiedRuleShape {
            selectors: views_of_selectors(self.selectors@),
            declarations: self.declarations@,
        }
    }
}

/// The shapes of a sequence of rules.
pub open spec fn views_of_rules(v: Seq<QualifiedRule>) -> Seq<QualifiedRuleShape> {
    v.map(|i: int, r: QualifiedRule| r@)
}

/// `import`, ASCII case-insensitively, filling `[a, e)`.
pub open spec fn spec_is_import_name(s: Seq<char>, a: int, e: int) -> bool {
    &&& e - a == 6
    &&& 0 <= a
    &&& e <= s.len()
    &&& ci2(s[a], 'i', 'I')
    &&& ci2(s[a + 1], 'm', 'M')
    &&& ci2(s[a + 2], 'p', 'P')
    &&& ci2(s[a + 3], 'o', 'O')
    &&& ci2(s[a + 4], 'r', 'R')
    &&& ci2(s[a + 5], 't', 'T')
}

fn is_import_name(cs: &Vec<char>, a: usize, e: usize) -> (r: bool)
    requires
        a <= e <= cs@.len(),
    ensures
        r == spec_is_import_name(cs@, a as int, e as int),
{
    e - a == 6 && (cs[a] == 'i' || cs[a] == 'I') && (cs[a + 1] == 'm' || cs[a + 1] == 'M') && (cs[a
        + 2] == 'p' || cs[a + 2] == 'P') && (cs[a + 3] == 'o' || cs[a + 3] == 'O') && (cs[a + 4]
        == 'r' || cs[a + 4] == 'R') && (cs[a + 5] == 't' || cs[a + 5] == 'T')
}

/// `url(`, ASCII case-insensitively, standing at `m`.
pub open spec fn spec_is_url_start(s: Seq<char>, m: int) -> bool {
    &&& 0 <= m
    &&& m + 4 <= s.len()
    &&& ci2(s[m], 'u', 'U')
    &&& ci2(s[m + 1], 'r', 'R')
    &&& ci2(s[m + 2], 'l', 'L')
    &&& s[m + 3] == '('
}

fn is_url_start(cs: &Vec<char>, m: usize) -> (r: bool)
    requires
        m <= cs@.len(),
    ensures
        r == spec_is_url_start(cs@, m as int),
{
    let n = cs.len();
    m < n && n - m >= 4 && (cs[m] == 'u' || cs[m] == 'U') && (cs[m + 1] == 'r' || cs[m + 1] == 'R')
        && (cs[m + 2] == 'l' || cs[m + 2] == 'L') && cs[m + 3] == '('
}

/// The position of the next `)`, or the end of the text.
pub open spec fn spec_scan_to_close(s: Seq<char>, i: int) -> int
    decreases s.len() - i,
{
    if !(0 <= i && i < s.len()) {
        s.len() as int
    } else if s[i] == ')' {
        i
    } else {
        spec_scan_to_close(s, i + 1)
    }
}

fn scan_to_close(cs: &Vec<char>, i: usize) -> (r: usize)
    requires
        i <= cs@.len(),
    ensures
        r == spec_scan_to_close(cs@, i as int),
        i <= r <= cs@.len(),
    decreases cs@.len() - i,
{
    let n = cs.len();
    if i >= n {
        n
    } else if cs[i] == ')' {
        i
    } else {
        scan_to_close(cs, i + 1)
    }
}

/// After the URL of an `@import`: blank space and then `;` (or the end of
/// the text).  Anything else invalidates the rule.
pub open spec fn spec_import_terminated(s: Seq<char>, url: Seq<char>, i: int) -> Option<
    (Seq<char>, int),
> {
    let n = s.len() as int;
    let q = cl(i, spec_skip_space(s, i), n);
    if q >= n {
        Some((url, n))
    } else if s[q] == ';' {
        Some((url, q + 1))
    } else {
        None
    }
}

/// The URL of an `@import` prelude starting after the at-keyword: a quoted
/// string or a `url(...)` token, then `;`.
pub open spec fn spec_import_prelude(s: Seq<char>, i: int) -> Option<(Seq<char>, int)> {
    let n = s.len() as int;
    let m = cl(i, spec_skip_space(s, i), n);
    if 0 <= m && m < n && is_quote(s[m]) {
        match spec_string_body(s, m + 1, s[m], Seq::empty()) {
            Some(p) => spec_import_terminated(s, p.0, p.1),
            None => None,
        }
    } else if spec_is_url_start(s, m) {
        let p0 = cl(m + 4, spec_skip_space(s, m + 4), n);
        if 0 <= p0 && p0 < n && is_quote(s[p0]) {
            match spec_string_body(s, p0 + 1, s[p0], Seq::empty()) {
                Some(p) => {
                    let q = cl(p.1, spec_skip_space(s, p.1), n);
                    if q < n && s[q] == ')' {
                        spec_import_terminated(s, p.0, q + 1)
                    } else {
                        None
                    }
                },
                None => None,
            }
        } else {
            let ue = spec_scan_to_close(s, p0);
            if ue < n {
                let w = spec_trim_end(s, p0, ue);
                if w > p0 {
                    spec_import_terminated(s, s.subrange(p0, w), ue + 1)
                } else {
                    None
                }
            } else {
                None
            }
        }
    } else {
        None
    }
}

fn import_terminated(cs: &Vec<char>, url: String, i: usize) -> (r: Option<(String, usize)>)
    requires
        i <= cs@.len(),
    ensures
        match r {
            Some(p) => spec_import_terminated(cs@, url@, i as int) == Some((p.0@, p.1 as int))
                && p.1 <= cs@.len(),
            None => spec_import_terminated(cs@, url@, i as int) is None,
        },
{
    let n = cs.len();
    let q = skip_space(cs, i);
    if q >= n {
        Some((url, n))
    } else if cs[q] == ';' {
        Some((url, q + 1))
    } else {
        None
    }
}

fn parse_import_prelude(cs: &Vec<char>, i: usize) -> (r: Option<(String, usize)>)
    requires
        i <= cs@.len(),
    ensures
        match r {
            Some(p) => spec_import_prelude(cs@, i as int) == Some((p.0@, p.1 as int)) && p.1
                <= cs@.len(),
            None => spec_import_prelude(cs@, i as int) is None,
        },
{
    let n = cs.len();
    let m = skip_space(cs, i);
    if m < n && quote_char(cs[m]) {
        match string_body(cs, m + 1, cs[m], Vec::new()) {
            Some(p) => {
                let url = string_of(&p.0, 0, p.0.len());
                import_terminated(cs, url, p.1)
            },
            None => None,
        }
    } else if is_url_start(cs, m) {
        let p0 = skip_space(cs, m + 4);
        if p0 < n && quote_char(cs[p0]) {
            match string_body(cs, p0 + 1, cs[p0], Vec::new()) {
                Some(p) => {
                    let q = skip_space(cs, p.1);
                    if q < n && cs[q] == ')' {
                        let url = string_of(&p.0, 0, p.0.len());
                        import_terminated(cs, url, q + 1)
                    } else {
                        None
                    }
                },
                None => None,
            }
        } else {
            let ue = scan_to_close(cs, p0);
            if ue < n {
                let w = trim_end(cs, p0, ue);
                if w > p0 {
                    let url = string_of(cs, p0, w);
                    import_terminated(cs, url, ue + 1)
                } else {
                    None
                }
            } else {
                None
            }
        }
    } else {
        None
    }
}

/// Import depth is bounded by the number of fetchable resources: a deeper
/// acyclic chain would have to revisit a URL, and a cyclic one is cut off
/// (a detected cycle yields nothing rather than recursing forever).
pub open spec fn spec_env_fuel(env: ResourceEnv) -> nat {
    env.fetched@.len()
}

/// The qualified rules of the text `[i, ..)`, with imports expanded in
/// place, depth-first, and every invalid rule dropped by itself.
pub open spec fn spec_rule_list(
    s: Seq<char>,
    i: int,
    env: ResourceEnv,
    fuel: nat,
    acc: Seq<QualifiedRuleShape>,
) -> Seq<QualifiedRuleShape>
    decreases fuel, s.len() - i, 1int,
{
    let n = s.len() as int;
    let j = cl(i, spec_skip_space(s, i), n);
    if j >= n {
        acc
    } else if s[j] == '@' {
        let e = spec_scan_ident(s, j + 1);
        if spec_is_import_name(s, j + 1, e) {
            match spec_import_prelude(s, e) {
                Some(up) => spec_rule_list(
                    s,
                    prog(i, up.1, n),
                    env,
                    fuel,
                    acc + spec_import_rules(up.0, env, fuel),
                ),
                None => spec_rule_list(s, prog(i, spec_skip_rule_end(s, e), n), env, fuel, acc),
            }
        } else {
            spec_rule_list(s, prog(i, spec_skip_rule_end(s, e), n), env, fuel, acc)
        }
    } else {
        let b = spec_find_open(s, j);
        if b >= n {
            acc
        } else {
            let ce = spec_skip_block(s, b + 1, 1);
            let after = if ce < n {
                ce + 1
            } else {
                n
            };
            let acc2 = match spec_parse_selector_list(s, j, b, Seq::empty()) {
                Some(sels) => acc.push(
                    QualifiedRuleShape {
                        selectors: sels,
                        declarations: spec_decl_list(
                            spec_parse_declarations(s, b + 1, ce, Seq::empty()),
                        ),
                    },
                ),
                None => acc,
            };
            spec_rule_list(s, prog(i, after, n), env, fuel, acc2)
        }
    }
}

/// The rules contributed by one `@import`: nothing unless the boundary
/// allows the URL, the fetch succeeded, the content type is exactly
/// `text/css`, the body is UTF-8 text, and fuel remains; otherwise the
/// imported text parsed as a nested stylesheet.
pub open spec fn spec_import_rules(url: Seq<char>, env: ResourceEnv, fuel: nat) -> Seq<
    QualifiedRuleShape,
>
    decreases fuel, 0int, 0int,
{
    if fuel == 0 {
        Seq::empty()
    } else {
        match spec_allowed_lookup(env.allowed@, url) {
            None => Seq::empty(),
            Some(canon) => match spec_fetched_lookup(env.fetched@, canon) {
                None => Seq::empty(),
                Some(res) => {
                    let ok_type = match res.content_type {
                        Some(ct) => ct@ == "text/css"@,
                        None => false,
                    };
                    if ok_type {
                        match res.body {
                            Some(text) => spec_rule_list(
                                text@,
                                0,
                                env,
                                (fuel - 1) as nat,
                                Seq::empty(),
                            ),
                            None => Seq::empty(),
                        }
                    } else {
                        Seq::empty()
                    }
                },
            },
        }
    }
}

fn rule_list(cs: &Vec<char>, i: usize, env: &ResourceEnv, fuel: usize, acc: Vec<QualifiedRule>) -> (r:
    Vec<QualifiedRule>)
    requires
        i <= cs@.len(),
    ensures
        views_of_rules(r@) == spec_rule_list(
            cs@,
            i as int,
            *env,
            fuel as nat,
            views_of_rules(acc@),
        ),
    decreases fuel, cs@.len() - i, 1int,
{
    let n = cs.len();
    let j = skip_space(cs, i);
    if j >= n {
        return acc;
    }
    if cs[j] == '@' {
        let e = scan_ident(cs, j + 1);
        if is_import_name(cs, j + 1, e) {
            match parse_import_prelude(cs, e) {
                Some(up) => {
                    let mut imported = import_rules(up.0.as_str(), env, fuel);
                    let mut acc2 = acc;
                    let ghost acc_v = acc2@;
                    let ghost imp_v = imported@;
                    acc2.append(&mut imported);
                    proof {
                        assert(views_of_rules(acc2@) =~= views_of_rules(acc_v) + views_of_rules(
                            imp_v,
                        ));
                    }
                    rule_list(cs, prog_exec(i, up.1, n), env, fuel, acc2)
                },
                None => rule_list(cs, prog_exec(i, skip_rule_end(cs, e), n), env, fuel, acc),
            }
        } else {
            rule_list(cs, prog_exec(i, skip_rule_end(cs, e), n), env, fuel, acc)
        }
    } else {
        let b = find_open(cs, j);
        if b >= n {
            return acc;
        }
        let ce = skip_block(cs, b + 1, 1);
        let after = if ce < n {
            ce + 1
        } else {
            n
        };
        proof {
            assert(views_of_selectors(Seq::<Selector>::empty()) =~= Seq::<SelectorShape>::empty());
        }
        let acc2 = match parse_selector_list(cs, j, b, Vec::new()) {
            Some(sels) => {
                let dl = parse_decls(
                    cs,
                    b + 1,
                    ce,
                    DeclarationList::new(),
                    Ghost(Seq::<DeclShape>::empty()),
                );
                let rule = QualifiedRule { selectors: sels, declarations: dl };
                let mut a2 = acc;
                let ghost acc_v = a2@;
                let ghost rule_v = rule@;
                a2.push(rule);
                proof {
                    assert(views_of_rules(a2@) =~= views_of_rules(acc_v).push(rule_v));
                }
                a2
            },
            None => acc,
        };
        rule_list(cs, prog_exec(i, after, n), env, fuel, acc2)
    }
}

fn import_rules(url: &str, env: &ResourceEnv, fuel: usize) -> (r: Vec<QualifiedRule>)
    ensures
        views_of_rules(r@) == spec_import_rules(url@, *env, fuel as nat),
    decreases fuel, 0int, 0int,
{
    if fuel == 0 {
        let r: Vec<QualifiedRule> = Vec::new();
        proof {
            assert(views_of_rules(r@) =~= Seq::<QualifiedRuleShape>::empty());
        }
        return r;
    }
    proof {
        assert(env.allowed@.skip(0) =~= env.allowed@);
        assert(env.fetched@.skip(0) =~= env.fetched@);
    }
    let canon = match allowed_lookup(&env.allowed, 0, url) {
        Some(c) => c,
        None => {
            let r: Vec<QualifiedRule> = Vec::new();
            proof {
                assert(views_of_rules(r@) =~= Seq::<QualifiedRuleShape>::empty());
            }
            return r;
        },
    };
    let ix = match fetched_index(&env.fetched, 0, canon.as_str()) {
        Some(ix) => ix,
        None => {
            let r: Vec<QualifiedRule> = Vec::new();
            proof {
                assert(views_of_rules(r@) =~= Seq::<QualifiedRuleShape>::empty());
            }
            return r;
        },
    };
    let res = &env.fetched[ix].1;
    let ok_type = match &res.content_type {
        Some(ct) => str_eq(ct.as_str(), "text/css"),
        None => false,
    };
    if !ok_type {
        let r: Vec<QualifiedRule> = Vec::new();
        proof {
            assert(views_of_rules(r@) =~= Seq::<QualifiedRuleShape>::empty());
        }
        return r;
    }
    match &res.body {
        Some(text) => {
            let tcs = chars_of(text.as_str());
            proof {
                assert(views_of_rules(Seq::<QualifiedRule>::empty()) =~= Seq::<
                    QualifiedRuleShape,
                >::empty());
            }
            rule_list(&tcs, 0, env, fuel - 1, Vec::new())
        },
        None => {
            let r: Vec<QualifiedRule> = Vec::new();
            proof {
                assert(views_of_rules(r@) =~= Seq::<QualifiedRuleShape>::empty());
            }
            r
        },
    }
}

/// A parsed CSS stylesheet: its qualified rules in cascade order, imports
/// already expanded.
#[derive(Debug, Clone, PartialEq)]
pub struct Stylesheet {
    pub qualified_rules: Vec<QualifiedRule>,
}

impl View for Stylesheet {
    type V = Seq<QualifiedRuleShape>;

    open spec fn view(&self) -> Seq<QualifiedRuleShape> {
        views_of_rules(self.qualified_rules@)
    }
}

/// What parsing a whole stylesheet text yields.
pub open spec fn spec_stylesheet_from_data(text: Seq<char>, env: ResourceEnv) -> Seq<
    QualifiedRuleShape,
> {
    spec_rule_list(text, 0, env, spec_env_fuel(env), Seq::empty())
}

/// What loading a stylesheet by reference yields: each error comes exactly
/// when its stage fails, in order (boundary, fetch, content type and
/// encoding), and success parses the fetched text.
pub open spec fn spec_stylesheet_from_href(href: Seq<char>, env: ResourceEnv) -> Result<
    Seq<QualifiedRuleShape>,
    LoadingError,
> {
    match spec_allowed_lookup(env.allowed@, href) {
        None => Err(LoadingError::BadUrl),
        Some(canon) => match spec_fetched_lookup(env.fetched@, canon) {
            None => Err(LoadingError::FetchFailed),
            Some(res) => {
                let ok_type = match res.content_type {
                    Some(ct) => ct@ == "text/css"@,
                    None => false,
                };
                if !ok_type {
                    Err(LoadingError::BadCss)
                } else {
                    match res.body {
                        Some(text) => Ok(spec_stylesheet_from_data(text@, env)),
                        None => Err(LoadingError::BadCss),
                    }
                }
            },
        },
    }
}

/// The computed style of node `i` after the rules are applied in order:
/// each rule whose selector list matches the node merges its declarations
/// into the style, `!important` entries shielded from later normal ones.
pub open spec fn spec_apply_rules(
    rules: Seq<QualifiedRuleShape>,
    t: crate::tree::Tree,
    i: int,
    style: Seq<DeclShape>,
) -> Seq<DeclShape>
    decreases rules.len(),
{
    if rules.len() == 0 {
        style
    } else {
        let prev = spec_apply_rules(rules.drop_last(), t, i, style);
        if crate::selector::spec_matches_list(t, i, rules.last().selectors) {
            crate::style::spec_style_merge_all(prev, rules.last().declarations)
        } else {
            prev
        }
    }
}

/// The cascade reads the tree only through matching, and matching reads
/// only structure: trees that agree on parent links and node data give
/// every node the same computed style, whatever styles they carry going
/// in.  This is the cascade's determinism: no hidden state influences the
/// result of `apply`.
pub proof fn lemma_apply_rules_structure_only(
    rules: Seq<QualifiedRuleShape>,
    t1: crate::tree::Tree,
    t2: crate::tree::Tree,
    i: int,
    style: Seq<DeclShape>,
)
    requires
        crate::selector::same_structure(t1, t2),
        crate::tree::parents_ordered(t1),
        0 <= i < t1.nodes@.len(),
        i <= usize::MAX,
    ensures
        spec_apply_rules(rules, t1, i, style) == spec_apply_rules(rules, t2, i, style),
    decreases rules.len(),
{
    if rules.len() > 0 {
        lemma_apply_rules_structure_only(rules.drop_last(), t1, t2, i, style);
        crate::selector::lemma_matches_list_structure_only(t1, t2, i, rules.last().selectors);
    }
}

/// An `@import` whose resource is not `text/css` contributes nothing (the
/// import is silently ignored; the surrounding stylesheet still parses).
pub proof fn lemma_import_not_css_ignored(url: Seq<char>, env: ResourceEnv, fuel: nat)
    requires
        match spec_allowed_lookup(env.allowed@, url) {
            Some(canon) => match spec_fetched_lookup(env.fetched@, canon) {
                Some(res) => match res.content_type {
                    Some(ct) => ct@ != "text/css"@,
                    None => true,
                },
                None => true,
            },
            None => true,
        },
    ensures
        spec_import_rules(url, env, fuel) == Seq::<QualifiedRuleShape>::empty(),
{
}


/// Rule-order precedence, at the cascade level: two rules that both match
/// a node and declare the same property with equal importance leave the
/// later rule's value in force (provided no earlier `!important` entry
/// outranks them both).
pub proof fn lemma_rule_order_precedence(
    r1: QualifiedRuleShape,
    r2: QualifiedRuleShape,
    t: crate::tree::Tree,
    i: int,
    style: Seq<DeclShape>,
    d1: DeclShape,
    d2: DeclShape,
)
    requires
        decls_unique(style),
        r1.declarations == seq![d1],
        r2.declarations == seq![d2],
        d1.prop_name == d2.prop_name,
        d1.important == d2.important,
        crate::selector::spec_matches_list(t, i, r1.selectors),
        crate::selector::spec_matches_list(t, i, r2.selectors),
        match decl_lookup(style, d1.prop_name) {
            Some(p) => !p.important || d1.important,
            None => true,
        },
    ensures
        decl_lookup(spec_apply_rules(seq![r1, r2], t, i, style), d1.prop_name) == Some(d2),
{
    let rules = seq![r1, r2];
    assert(rules.last() == r2);
    assert(rules.drop_last() =~= seq![r1]);
    assert(seq![r1].last() == r1);
    assert(seq![r1].drop_last() =~= Seq::<QualifiedRuleShape>::empty());
    assert(spec_apply_rules(Seq::<QualifiedRuleShape>::empty(), t, i, style) == style);
    assert(seq![d1].last() == d1);
    assert(seq![d1].drop_last() =~= Seq::<DeclShape>::empty());
    assert(seq![d2].last() == d2);
    assert(seq![d2].drop_last() =~= Seq::<DeclShape>::empty());
    assert(spec_style_merge_all(style, Seq::<DeclShape>::empty()) == style);
    let s1 = spec_apply_rules(seq![r1], t, i, style);
    assert(s1 == spec_style_merge(style, d1));
    let s2 = spec_apply_rules(rules, t, i, style);
    assert(spec_style_merge_all(s1, Seq::<DeclShape>::empty()) == s1);
    assert(s2 == spec_style_merge(s1, d2));
    lemma_later_rule_wins(style, d1, d2);
}

/// `!important` precedence, at the cascade level: once a property stands
/// `!important` in a node's style, a later rule all of whose declarations
/// are normal leaves that entry untouched, whether or not it matches.
pub proof fn lemma_important_rule_precedence(
    r2: QualifiedRuleShape,
    t: crate::tree::Tree,
    i: int,
    style: Seq<DeclShape>,
    name: Seq<char>,
)
    requires
        decls_unique(style),
        decl_lookup(style, name) matches Some(p) && p.important,
        forall|k: int| 0 <= k < r2.declarations.len() ==> !(#[trigger] r2.declarations[k]).important,
    ensures
        decl_lookup(spec_apply_rules(seq![r2], t, i, style), name) == decl_lookup(style, name),
{
    assert(seq![r2].last() == r2);
    assert(seq![r2].drop_last() =~= Seq::<QualifiedRuleShape>::empty());
    assert(spec_apply_rules(Seq::<QualifiedRuleShape>::empty(), t, i, style) == style);
    if crate::selector::spec_matches_list(t, i, r2.selectors) {
        lemma_important_survives(style, r2.declarations, name);
    }
}

impl Stylesheet {
    /// Parses a stylesheet from CSS text.  Rule-level errors are swallowed
    /// (the bad rule is dropped), so this never fails: the worst outcome
    /// is an empty stylesheet.
    pub fn from_data(buf: &str, env: &ResourceEnv) -> (r: Result<Stylesheet, LoadingError>)
        ensures
            match r {
                Ok(sheet) => sheet@ == spec_stylesheet_from_data(buf@, *env),
                Err(_) => false,
            },
    {
        let cs = chars_of(buf);
        let fuel = env.fetched.len();
        proof {
            assert(views_of_rules(Seq::<QualifiedRule>::empty()) =~= Seq::<
                QualifiedRuleShape,
            >::empty());
        }
        let rules = rule_list(&cs, 0, env, fuel, Vec::new());
        Ok(Stylesheet { qualified_rules: rules })
    }

    /// Loads a stylesheet referenced by a URL: the reference must pass the
    /// security boundary, the fetch must succeed, and the resource must be
    /// UTF-8 text declared exactly `text/css`.
    pub fn from_href(href: &str, env: &ResourceEnv) -> (r: Result<Stylesheet, LoadingError>)
        ensures
            match r {
                Ok(sheet) => spec_stylesheet_from_href(href@, *env) == Ok::<
                    Seq<QualifiedRuleShape>,
                    LoadingError,
                >(sheet@),
                Err(e) => spec_stylesheet_from_href(href@, *env) == Err::<
                    Seq<QualifiedRuleShape>,
                    LoadingError,
                >(e),
            },
    {
        proof {
            assert(env.allowed@.skip(0) =~= env.allowed@);
            assert(env.fetched@.skip(0) =~= env.fetched@);
        }
        let canon = match allowed_lookup(&env.allowed, 0, href) {
            Some(c) => c,
            None => {
                return Err(LoadingError::BadUrl);
            },
        };
        let ix = match fetched_index(&env.fetched, 0, canon.as_str()) {
            Some(ix) => ix,
            None => {
                return Err(LoadingError::FetchFailed);
            },
        };
        let res = &env.fetched[ix].1;
        let ok_type = match &res.content_type {
            Some(ct) => str_eq(ct.as_str(), "text/css"),
            None => false,
        };
        if !ok_type {
            return Err(LoadingError::BadCss);
        }
        match &res.body {
            Some(text) => Self::from_data(text.as_str(), env),
            None => Err(LoadingError::BadCss),
        }
    }

    /// The main CSS matching function: merges into the computed style of
    /// node `idx` the declarations of every rule that matches it, in rule
    /// order.  No other node, and nothing of the tree's structure, is
    /// touched.
    pub fn apply_matches_to_node(&self, tree: &mut crate::tree::Tree, idx: usize)
        requires
            crate::tree::tree_wf(*old(tree)),
            idx < old(tree).nodes@.len(),
        ensures
            crate::tree::tree_wf(*final(tree)),
            final(tree).nodes@.len() == old(tree).nodes@.len(),
            forall|q: int|
                0 <= q < old(tree).nodes@.len() && q != idx ==> final(tree).nodes@[q] == old(
                    tree,
                ).nodes@[q],
            final(tree).nodes@[idx as int].parent == old(tree).nodes@[idx as int].parent,
            final(tree).nodes@[idx as int].data == old(tree).nodes@[idx as int].data,
            final(tree).nodes@[idx as int].style@ == spec_apply_rules(
                self@,
                *old(tree),
                idx as int,
                old(tree).nodes@[idx as int].style@,
            ),
    {
        let ghost t0 = *tree;
        let ghost style0 = tree.nodes@[idx as int].style@;
        let nrules = self.qualified_rules.len();
        let mut r: usize = 0;
        while r < nrules
            invariant
                crate::tree::tree_wf(*tree),
                idx < tree.nodes@.len(),
                nrules == self.qualified_rules@.len(),
                r <= nrules,
                crate::tree::tree_wf(t0),
                idx < t0.nodes@.len(),
                style0 == t0.nodes@[idx as int].style@,
                tree.nodes@.len() == t0.nodes@.len(),
                forall|q: int|
                    0 <= q < t0.nodes@.len() && q != idx ==> tree.nodes@[q] == t0.nodes@[q],
                tree.nodes@[idx as int].parent == t0.nodes@[idx as int].parent,
                tree.nodes@[idx as int].data == t0.nodes@[idx as int].data,
                tree.nodes@[idx as int].style@ == spec_apply_rules(
                    self@.take(r as int),
                    t0,
                    idx as int,
                    style0,
                ),
            decreases nrules - r,
        {
            let rule = &self.qualified_rules[r];
            proof {
                assert(crate::selector::same_structure(t0, *tree));
                crate::selector::lemma_matches_list_structure_only(
                    t0,
                    *tree,
                    idx as int,
                    rule@.selectors,
                );
            }
            let matched = crate::selector::matches_selector_list(tree, idx, &rule.selectors);
            let ghost style_r = tree.nodes@[idx as int].style@;
            if matched {
                let ndecl = rule.declarations.len();
                let mut d: usize = 0;
                while d < ndecl
                    invariant
                        crate::tree::tree_wf(*tree),
                        idx < tree.nodes@.len(),
                        r < nrules,
                        nrules == self.qualified_rules@.len(),
                        ndecl == self.qualified_rules@[r as int].declarations@.len(),
                        d <= ndecl,
                        tree.nodes@.len() == t0.nodes@.len(),
                        forall|q: int|
                            0 <= q < t0.nodes@.len() && q != idx ==> tree.nodes@[q] == t0.nodes@[q],
                        tree.nodes@[idx as int].parent == t0.nodes@[idx as int].parent,
                        tree.nodes@[idx as int].data == t0.nodes@[idx as int].data,
                        tree.nodes@[idx as int].style@ == crate::style::spec_style_merge_all(
                            style_r,
                            self.qualified_rules@[r as int].declarations@.take(d as int),
                        ),
                    decreases ndecl - d,
                {
                    let decl = self.qualified_rules[r].declarations.get(d);
                    let ghost decls = self.qualified_rules@[r as int].declarations@;
                    tree.apply_declaration_to_node(idx, decl);
                    proof {
                        assert(decls.take(d + 1).drop_last() =~= decls.take(d as int));
                        assert(decls.take(d + 1).last() == decls[d as int]);
                    }
                    d = d + 1;
                }
                proof {
                    let decls = self.qualified_rules@[r as int].declarations@;
                    assert(decls.take(ndecl as int) =~= decls);
                }
            }
            proof {
                assert(self@.take(r + 1).drop_last() =~= self@.take(r as int));
                assert(self@.take(r + 1).last() == self@[r as int]);
                assert(self@[r as int] == self.qualified_rules@[r as int]@);
            }
            r = r + 1;
        }
        proof {
            assert(self@.take(nrules as int) =~= self@);
        }
    }

    /// The cascade: applies the stylesheet to every node of the tree, in
    /// node order; each node ends with exactly the style the rule order
    /// dictates, computed against the tree's (unchanged) structure.
    pub fn apply(&self, tree: &mut crate::tree::Tree)
        requires
            crate::tree::tree_wf(*old(tree)),
        ensures
            crate::tree::tree_wf(*final(tree)),
            final(tree).nodes@.len() == old(tree).nodes@.len(),
            forall|q: int|
                0 <= q < old(tree).nodes@.len() ==> final(tree).nodes@[q].parent == old(
                    tree,
                ).nodes@[q].parent && final(tree).nodes@[q].data == old(tree).nodes@[q].data
                    && final(tree).nodes@[q].style@ == spec_apply_rules(
                    self@,
                    *old(tree),
                    q,
                    old(tree).nodes@[q].style@,
                ),
    {
        let ghost t0 = *tree;
        let n = tree.len();
        let mut idx: usize = 0;
        while idx < n
            invariant
                crate::tree::tree_wf(*tree),
                crate::tree::tree_wf(t0),
                n == tree.nodes@.len(),
                n == t0.nodes@.len(),
                idx <= n,
                forall|q: int|
                    0 <= q < n ==> tree.nodes@[q].parent == t0.nodes@[q].parent
                        && tree.nodes@[q].data == t0.nodes@[q].data,
                forall|q: int| idx <= q < n ==> tree.nodes@[q].style@ == t0.nodes@[q].style@,
                forall|q: int|
                    0 <= q < idx ==> tree.nodes@[q].style@ == spec_apply_rules(
                        self@,
                        t0,
                        q,
                        t0.nodes@[q].style@,
                    ),
            decreases n - idx,
        {
            let ghost t_before = *tree;
            self.apply_matches_to_node(tree, idx);
            proof {
                assert(crate::selector::same_structure(t0, t_before));
                lemma_apply_rules_structure_only(
                    self@,
                    t0,
                    t_before,
                    idx as int,
                    t0.nodes@[idx as int].style@,
                );
            }
            idx = idx + 1;
        }
    }
}

} // verus!
