//! Selectors and the matching engine.
//!
//! A selector is a chain of compound selectors joined by combinators
//! (descendant, child, next sibling, later sibling); a compound selector is
//! a set of simple selectors that must all hold of one element.  Matching
//! is right to left: the last compound must match the candidate node, and
//! each combinator walks the tree toward an element matching the rest.
//!
//! Attribute selectors, non-structural pseudo-classes and pseudo-elements
//! are deliberately unsupported; the grammar in the parser rejects them,
//! so a rule using them is dropped.

use crate::tree::{
    is_element, parent_of, parents_ordered, prev_elem_sib_from, same_parent, spec_has_class,
    spec_has_id, spec_has_local_name, spec_has_namespace, spec_is_empty, spec_is_root,
    spec_prev_sibling_element, tree_wf, NodeData, Tree,
};
use vstd::prelude::*;

verus! {

/// A simple selector: `*`, a type name, `#id`, `.class`, `:empty` or
/// `:root`.
#[derive(Debug, Clone, PartialEq)]
pub enum SimpleSelector {
    Universal,
    LocalName(String),
    Id(String),
    Class(String),
    Empty,
    Root,
}

/// The shape of a simple selector, over character sequences.
pub enum SimpleSelectorShape {
    Universal,
    LocalName(Seq<char>),
    Id(Seq<char>),
    Class(Seq<char>),
    Empty,
    Root,
}

impl View for SimpleSelector {
    type V = SimpleSelectorShape;

    open spec fn view(&self) -> SimpleSelectorShape {
        match self {
            SimpleSelector::Universal => SimpleSelectorShape::Universal,
            SimpleSelector::LocalName(n) => SimpleSelectorShape::LocalName(n@),
            SimpleSelector::Id(n) => SimpleSelectorShape::Id(n@),
            SimpleSelector::Class(n) => SimpleSelectorShape::Class(n@),
            SimpleSelector::Empty => SimpleSelectorShape::Empty,
            SimpleSelector::Root => SimpleSelectorShape::Root,
        }
    }
}

/// How two compound selectors are joined.
#[derive(Debug, Clone, Copy, PartialEq, Eq, Structural)]
pub enum Combinator {
    Descendant,
    Child,
    NextSibling,
    LaterSibling,
}

/// A compound selector: all parts must hold of one element.
#[derive(Debug, Clone, PartialEq)]
pub struct Compound {
    pub parts: Vec<SimpleSelector>,
}

/// The shape of a compound selector.
pub struct CompoundShape {
    pub parts: Seq<SimpleSelectorShape>,
}

/// The shapes of a sequence of simple selectors.
pub open spec fn views_of_simples(v: Seq<SimpleSelector>) -> Seq<SimpleSelectorShape> {
    v.map(|i: int, p: SimpleSelector| p@)
}

impl View for Compound {
    type V = CompoundShape;

    open spec fn view(&self) -> CompoundShape {
        CompoundShape { parts: views_of_simples(self.parts@) }
    }
}

/// A full selector: a first compound and combinator-joined later ones,
/// left to right in source order.
#[derive(Debug, Clone, PartialEq)]
pub struct Selector {
    pub first: Compound,
    pub rest: Vec<(Combinator, Compound)>,
}

/// The shape of a selector.
pub struct SelectorShape {
    pub first: CompoundShape,
    pub rest: Seq<(Combinator, CompoundShape)>,
}

/// The shapes of a combinator-compound chain.
pub open spec fn views_of_rest(v: Seq<(Combinator, Compound)>) -> Seq<(Combinator, CompoundShape)> {
    v.map(|i: int, rc: (Combinator, Compound)| (rc.0, rc.1@))
}

/// The shapes of a sequence of selectors.
pub open spec fn views_of_selectors(v: Seq<Selector>) -> Seq<SelectorShape> {
    v.map(|i: int, s: Selector| s@)
}

impl View for Selector {
    type V = SelectorShape;

    open spec fn view(&self) -> SelectorShape {
        SelectorShape { first: self.first@, rest: views_of_rest(self.rest@) }
    }
}

/// The native element namespace of the documents this library styles.
pub open spec fn spec_svg_ns() -> Seq<char> {
    "http://www.w3.org/2000/svg"@
}

/// The native element namespace, for matching type selectors.
pub fn svg_ns() -> (r: &'static str)
    ensures
        r@ == spec_svg_ns(),
{
    "http://www.w3.org/2000/svg"
}

/// One simple selector holding of node `i`.  A type selector checks the
/// local name together with the document's native namespace.
pub open spec fn spec_matches_simple(t: Tree, i: int, s: SimpleSelectorShape) -> bool {
    is_element(t, i) && match s {
        SimpleSelectorShape::Universal => true,
        SimpleSelectorShape::LocalName(n) => spec_has_local_name(t, i, n) && spec_has_namespace(
            t,
            i,
            spec_svg_ns(),
        ),
        SimpleSelectorShape::Id(n) => spec_has_id(t, i, n),
        SimpleSelectorShape::Class(n) => spec_has_class(t, i, n),
        SimpleSelectorShape::Empty => spec_is_empty(t, i),
        SimpleSelectorShape::Root => spec_is_root(t, i),
    }
}

/// A compound selector holding of node `i`: an element, of which every
/// part holds.
pub open spec fn spec_matches_compound(t: Tree, i: int, c: CompoundShape) -> bool {
    is_element(t, i) && forall|k: int|
        0 <= k < c.parts.len() ==> spec_matches_simple(t, i, #[trigger] c.parts[k])
}

/// Whether `a` lies on the parent chain of `i`.  A malformed link (parent
/// at or above its child) counts as no ancestor, so the walk terminates.
pub open spec fn is_ancestor(t: Tree, i: int, a: int) -> bool
    decreases i,
{
    if i < 0 || i >= t.nodes@.len() {
        false
    } else {
        match parent_of(t, i) {
            None => false,
            Some(p) => if (p as int) < i {
                a == p as int || is_ancestor(t, p as int, a)
            } else {
                false
            },
        }
    }
}

/// The compound at position `k` of the chain, counting the first as 0.
pub open spec fn compound_at(sel: SelectorShape, k: int) -> CompoundShape {
    if k == 0 {
        sel.first
    } else {
        sel.rest[k - 1].1
    }
}

/// The selector chain up to compound `k` holding of node `i`: compound `k`
/// matches `i`, and its combinator links `i` to some node of which the
/// chain up to `k - 1` holds.
pub open spec fn spec_matches_upto(t: Tree, i: int, sel: SelectorShape, k: int) -> bool
    decreases k,
{
    if k < 0 || k > sel.rest.len() {
        false
    } else if !spec_matches_compound(t, i, compound_at(sel, k)) {
        false
    } else if k == 0 {
        true
    } else {
        match sel.rest[k - 1].0 {
            Combinator::Child => match parent_of(t, i) {
                Some(p) => spec_matches_upto(t, p as int, sel, k - 1),
                None => false,
            },
            Combinator::Descendant => exists|a: int|
                #[trigger] is_ancestor(t, i, a) && spec_matches_upto(t, a, sel, k - 1),
            Combinator::NextSibling => match spec_prev_sibling_element(t, i) {
                Some(s) => spec_matches_upto(t, s as int, sel, k - 1),
                None => false,
            },
            Combinator::LaterSibling => exists|j: int|
                0 <= j < i && #[trigger] same_parent(t, i, j) && is_element(t, j)
                    && spec_matches_upto(t, j, sel, k - 1),
        }
    }
}

/// The whole selector holding of node `i`.
pub open spec fn spec_matches(t: Tree, i: int, sel: SelectorShape) -> bool {
    spec_matches_upto(t, i, sel, sel.rest.len() as int)
}

/// OR semantics over a selector list.
pub open spec fn spec_matches_list(t: Tree, i: int, sels: Seq<SelectorShape>) -> bool {
    exists|q: int| 0 <= q < sels.len() && spec_matches(t, i, #[trigger] sels[q])
}

proof fn lemma_prev_sib_bounds(t: Tree, i: int, j: int)
    requires
        j <= usize::MAX,
    ensures
        match prev_elem_sib_from(t, i, j) {
            Some(s) => 0 <= s <= j && same_parent(t, i, s as int) && is_element(t, s as int),
            None => true,
        },
    decreases j + 1,
{
    if j < 0 {
        assert(prev_elem_sib_from(t, i, j) is None);
    } else if same_parent(t, i, j) && is_element(t, j) {
        assert(prev_elem_sib_from(t, i, j) == Some(j as usize));
    } else {
        lemma_prev_sib_bounds(t, i, j - 1);
        assert(prev_elem_sib_from(t, i, j) == prev_elem_sib_from(t, i, j - 1));
    }
}

proof fn lemma_ancestor_parent(t: Tree, i: int, c: int, p: int)
    requires
        is_ancestor(t, i, c),
        0 <= c < t.nodes@.len(),
        parent_of(t, c) == Some(p as usize),
        0 <= p < c,
    ensures
        is_ancestor(t, i, p),
    decreases i,
{
    if 0 <= i < t.nodes@.len() {
        match parent_of(t, i) {
            Some(q) => {
                if (q as int) < i {
                    if c == q as int {
                        assert(is_ancestor(t, c, p));
                        assert(is_ancestor(t, i, p));
                    } else {
                        lemma_ancestor_parent(t, q as int, c, p);
                    }
                }
            },
            None => {},
        }
    }
}

impl Tree {
    fn node_is_element(&self, i: usize) -> (r: bool)
        requires
            i < self.nodes@.len(),
        ensures
            r == is_element(*self, i as int),
    {
        match &self.nodes[i].data {
            NodeData::Element(_) => true,
            NodeData::Chars(_) => false,
        }
    }
}

/// One simple selector, tested against the tree.
fn matches_simple(t: &Tree, i: usize, s: &SimpleSelector) -> (r: bool)
    requires
        i < t.nodes@.len(),
    ensures
        r == spec_matches_simple(*t, i as int, s@),
{
    if !t.node_is_element(i) {
        return false;
    }
    match s {
        SimpleSelector::Universal => true,
        SimpleSelector::LocalName(n) => t.has_local_name(i, n.as_str()) && t.has_namespace(
            i,
            svg_ns(),
        ),
        SimpleSelector::Id(n) => t.has_id(i, n.as_str()),
        SimpleSelector::Class(n) => t.has_class(i, n.as_str()),
        SimpleSelector::Empty => t.is_empty(i),
        SimpleSelector::Root => t.is_root(i),
    }
}

/// A compound selector, tested against the tree.
fn matches_compound(t: &Tree, i: usize, c: &Compound) -> (r: bool)
    requires
        i < t.nodes@.len(),
    ensures
        r == spec_matches_compound(*t, i as int, c@),
{
    if !t.node_is_element(i) {
        return false;
    }
    let n = c.parts.len();
    let mut k: usize = 0;
    while k < n
        invariant
            k <= n,
            n == c.parts@.len(),
            i < t.nodes@.len(),
            forall|q: int| 0 <= q < k ==> spec_matches_simple(*t, i as int, #[trigger] c@.parts[q]),
        decreases n - k,
    {
        if !matches_simple(t, i, &c.parts[k]) {
            proof {
                assert(c@.parts[k as int] == c.parts@[k as int]@);
            }
            return false;
        }
        proof {
            assert(c@.parts[k as int] == c.parts@[k as int]@);
        }
        k = k + 1;
    }
    true
}

/// The chain up to compound `k`, tested right to left.
#[verifier::loop_isolation(false)]
fn matches_upto(t: &Tree, i: usize, sel: &Selector, k: usize) -> (r: bool)
    requires
        tree_wf(*t),
        i < t.nodes@.len(),
        k <= sel.rest@.len(),
    ensures
        r == spec_matches_upto(*t, i as int, sel@, k as int),
    decreases k,
{
    proof {
        assert(sel@.rest.len() == sel.rest@.len());
    }
    let matched = if k == 0 {
        matches_compound(t, i, &sel.first)
    } else {
        proof {
            assert(sel@.rest[k - 1] == (sel.rest@[k - 1].0, sel.rest@[k - 1].1@));
        }
        matches_compound(t, i, &sel.rest[k - 1].1)
    };
    if !matched {
        return false;
    }
    if k == 0 {
        return true;
    }
    let comb = sel.rest[k - 1].0;
    proof {
        assert(sel@.rest[k - 1] == (sel.rest@[k - 1].0, sel.rest@[k - 1].1@));
    }
    match comb {
        Combinator::Child => {
            match t.parent_element(i) {
                Some(p) => matches_upto(t, p, sel, k - 1),
                None => false,
            }
        },
        Combinator::NextSibling => {
            proof {
                lemma_prev_sib_bounds(*t, i as int, i - 1);
            }
            match t.prev_sibling_element(i) {
                Some(s) => matches_upto(t, s, sel, k - 1),
                None => false,
            }
        },
        Combinator::Descendant => {
            let mut cur: usize = i;
            loop
                invariant
                    tree_wf(*t),
                    i < t.nodes@.len(),
                    cur <= i,
                    cur < t.nodes@.len(),
                    k <= sel.rest@.len(),
                    0 < k,
                    cur == i || is_ancestor(*t, i as int, cur as int),
                    forall|a: int|
                        #[trigger] is_ancestor(*t, i as int, a) && spec_matches_upto(
                            *t,
                            a,
                            sel@,
                            k - 1,
                        ) ==> is_ancestor(*t, cur as int, a),
                decreases cur,
            {
                let p = match t.parent_element(cur) {
                    Some(p) => p,
                    None => {
                        proof {
                            assert forall|a: int| !(#[trigger] is_ancestor(*t, i as int, a)
                                && spec_matches_upto(*t, a, sel@, k - 1)) by {
                                if is_ancestor(*t, i as int, a) && spec_matches_upto(
                                    *t,
                                    a,
                                    sel@,
                                    k - 1,
                                ) {
                                    assert(is_ancestor(*t, cur as int, a));
                                }
                            }
                        }
                        return false;
                    },
                };
                proof {
                    if cur == i {
                        assert(is_ancestor(*t, i as int, p as int));
                    } else {
                        lemma_ancestor_parent(*t, i as int, cur as int, p as int);
                    }
                }
                if matches_upto(t, p, sel, k - 1) {
                    proof {
                        assert(is_ancestor(*t, i as int, p as int));
                        assert(spec_matches_upto(*t, i as int, sel@, k as int));
                    }
                    return true;
                }
                cur = p;
            }
        },
        Combinator::LaterSibling => {
            let mut j: usize = i;
            while j > 0
                invariant
                    tree_wf(*t),
                    i < t.nodes@.len(),
                    j <= i,
                    k <= sel.rest@.len(),
                    0 < k,
                    forall|q: int|
                        j <= q < i && #[trigger] same_parent(*t, i as int, q) && is_element(*t, q)
                            ==> !spec_matches_upto(*t, q, sel@, k - 1),
                decreases j,
            {
                let jj = j - 1;
                let same = match (&t.nodes[jj].parent, &t.nodes[i].parent) {
                    (Some(a), Some(b)) => *a == *b,
                    (None, None) => true,
                    _ => false,
                };
                if same && t.node_is_element(jj) {
                    if matches_upto(t, jj, sel, k - 1) {
                        proof {
                            assert(same_parent(*t, i as int, jj as int));
                            assert(is_element(*t, jj as int));
                            assert(spec_matches_upto(*t, jj as int, sel@, k - 1));
                            assert(spec_matches_upto(*t, i as int, sel@, k as int));
                        }
                        return true;
                    }
                }
                j = jj;
            }
            false
        },
    }
}

/// The whole selector, tested against node `i`.
pub fn matches_selector(t: &Tree, i: usize, sel: &Selector) -> (r: bool)
    requires
        tree_wf(*t),
        i < t.nodes@.len(),
    ensures
        r == spec_matches(*t, i as int, sel@),
{
    let k = sel.rest.len();
    proof {
        assert(sel@.rest.len() == sel.rest@.len());
    }
    matches_upto(t, i, sel, k)
}

/// A selector list, tested with OR semantics.
pub fn matches_selector_list(t: &Tree, i: usize, sels: &Vec<Selector>) -> (r: bool)
    requires
        tree_wf(*t),
        i < t.nodes@.len(),
    ensures
        r == spec_matches_list(*t, i as int, sels@.map(|q: int, s: Selector| s@)),
{
    let ghost sv = sels@.map(|q: int, s: Selector| s@);
    let n = sels.len();
    let mut q: usize = 0;
    while q < n
        invariant
            q <= n,
            n == sels@.len(),
            tree_wf(*t),
            i < t.nodes@.len(),
            sv == views_of_selectors(sels@),
            forall|p: int| 0 <= p < q ==> !spec_matches(*t, i as int, #[trigger] sv[p]),
        decreases n - q,
    {
        if matches_selector(t, i, &sels[q]) {
            proof {
                assert(sv[q as int] == sels@[q as int]@);
            }
            return true;
        }
        proof {
            assert(sv[q as int] == sels@[q as int]@);
        }
        q = q + 1;
    }
    false
}

/// Two trees with the same structure: node for node the same parent link
/// and the same data, whatever their computed styles.
pub open spec fn same_structure(t1: Tree, t2: Tree) -> bool {
    t1.nodes@.len() == t2.nodes@.len() && forall|i: int|
        #![trigger t1.nodes@[i]]
        0 <= i < t1.nodes@.len() ==> t1.nodes@[i].parent == t2.nodes@[i].parent
            && t1.nodes@[i].data == t2.nodes@[i].data
}

proof fn lemma_ancestor_bounds(t: Tree, i: int, a: int)
    requires
        is_ancestor(t, i, a),
    ensures
        0 <= a < t.nodes@.len(),
        a < i,
    decreases i,
{
    if 0 <= i < t.nodes@.len() {
        match parent_of(t, i) {
            Some(p) => {
                if (p as int) < i && a != p as int {
                    lemma_ancestor_bounds(t, p as int, a);
                }
            },
            None => {},
        }
    }
}

proof fn lemma_prev_sib_structure(t1: Tree, t2: Tree, i: int, j: int)
    requires
        same_structure(t1, t2),
        0 <= i < t1.nodes@.len(),
        j < t1.nodes@.len(),
    ensures
        prev_elem_sib_from(t1, i, j) == prev_elem_sib_from(t2, i, j),
    decreases j + 1,
{
    if j >= 0 {
        lemma_prev_sib_structure(t1, t2, i, j - 1);
    }
}

proof fn lemma_ancestor_structure(t1: Tree, t2: Tree, i: int, a: int)
    requires
        same_structure(t1, t2),
    ensures
        is_ancestor(t1, i, a) == is_ancestor(t2, i, a),
    decreases i,
{
    if 0 <= i < t1.nodes@.len() {
        match parent_of(t1, i) {
            Some(p) => {
                if (p as int) < i {
                    lemma_ancestor_structure(t1, t2, p as int, a);
                }
            },
            None => {},
        }
    }
}

proof fn lemma_compound_structure(t1: Tree, t2: Tree, i: int, c: CompoundShape)
    requires
        same_structure(t1, t2),
        0 <= i < t1.nodes@.len(),
    ensures
        spec_matches_compound(t1, i, c) == spec_matches_compound(t2, i, c),
{
    assert(t1.nodes@[i].data == t2.nodes@[i].data);
    assert forall|k: int| 0 <= k < c.parts.len() implies (spec_matches_simple(
        t1,
        i,
        #[trigger] c.parts[k],
    ) == spec_matches_simple(t2, i, c.parts[k])) by {
        match c.parts[k] {
            SimpleSelectorShape::Empty => {
                assert(spec_is_empty(t1, i) == spec_is_empty(t2, i)) by {
                    if spec_is_empty(t1, i) {
                        assert forall|j: int|
                            0 <= j < t2.nodes@.len() && #[trigger] parent_of(t2, j) == Some(
                                i as usize,
                            ) implies (match t2.nodes@[j].data {
                            NodeData::Element(_) => false,
                            NodeData::Chars(s) => crate::strutil::ws_only(s@),
                        }) by {
                            assert(parent_of(t1, j) == Some(i as usize));
                            assert(t1.nodes@[j].data == t2.nodes@[j].data);
                        }
                    }
                    if spec_is_empty(t2, i) {
                        assert forall|j: int|
                            0 <= j < t1.nodes@.len() && #[trigger] parent_of(t1, j) == Some(
                                i as usize,
                            ) implies (match t1.nodes@[j].data {
                            NodeData::Element(_) => false,
                            NodeData::Chars(s) => crate::strutil::ws_only(s@),
                        }) by {
                            assert(parent_of(t2, j) == Some(i as usize));
                            assert(t1.nodes@[j].data == t2.nodes@[j].data);
                        }
                    }
                }
            },
            _ => {},
        }
    }
}

/// Matching reads only the tree's structure: two trees that agree on
/// parent links and node data (their computed styles may differ) agree on
/// every selector match.  Together with the cascade's exact contract this
/// says that applying a stylesheet never changes which rules match, and
/// that matching hides no other state.
pub proof fn lemma_matches_structure_only(t1: Tree, t2: Tree, i: int, sel: SelectorShape, k: int)
    requires
        same_structure(t1, t2),
        parents_ordered(t1),
        0 <= i < t1.nodes@.len(),
        i <= usize::MAX,
    ensures
        spec_matches_upto(t1, i, sel, k) == spec_matches_upto(t2, i, sel, k),
    decreases k,
{
    if 0 <= k <= sel.rest.len() {
        lemma_compound_structure(t1, t2, i, compound_at(sel, k));
        if k > 0 {
            match sel.rest[k - 1].0 {
                Combinator::Child => {
                    match parent_of(t1, i) {
                        Some(p) => {
                            lemma_matches_structure_only(t1, t2, p as int, sel, k - 1);
                        },
                        None => {},
                    }
                },
                Combinator::NextSibling => {
                    lemma_prev_sib_structure(t1, t2, i, i - 1);
                    match spec_prev_sibling_element(t1, i) {
                        Some(s) => {
                            lemma_prev_sib_in_range(t1, i, i - 1);
                            lemma_matches_structure_only(t1, t2, s as int, sel, k - 1);
                        },
                        None => {},
                    }
                },
                Combinator::Descendant => {
                    if spec_matches_upto(t1, i, sel, k) {
                        let a = choose|a: int|
                            #[trigger] is_ancestor(t1, i, a) && spec_matches_upto(
                                t1,
                                a,
                                sel,
                                k - 1,
                            );
                        lemma_ancestor_bounds(t1, i, a);
                        lemma_ancestor_structure(t1, t2, i, a);
                        lemma_matches_structure_only(t1, t2, a, sel, k - 1);
                        assert(spec_matches_upto(t2, i, sel, k));
                    }
                    if spec_matches_upto(t2, i, sel, k) {
                        let a = choose|a: int|
                            #[trigger] is_ancestor(t2, i, a) && spec_matches_upto(
                                t2,
                                a,
                                sel,
                                k - 1,
                            );
                        lemma_ancestor_structure(t1, t2, i, a);
                        lemma_ancestor_bounds(t1, i, a);
                        lemma_matches_structure_only(t1, t2, a, sel, k - 1);
                        assert(spec_matches_upto(t1, i, sel, k));
                    }
                },
                Combinator::LaterSibling => {
                    if spec_matches_upto(t1, i, sel, k) {
                        let j = choose|j: int|
                            0 <= j < i && #[trigger] same_parent(t1, i, j) && is_element(t1, j)
                                && spec_matches_upto(t1, j, sel, k - 1);
                        lemma_matches_structure_only(t1, t2, j, sel, k - 1);
                        assert(same_parent(t2, i, j));
                        assert(is_element(t2, j));
                        assert(spec_matches_upto(t2, i, sel, k));
                    }
                    if spec_matches_upto(t2, i, sel, k) {
                        let j = choose|j: int|
                            0 <= j < i && #[trigger] same_parent(t2, i, j) && is_element(t2, j)
                                && spec_matches_upto(t2, j, sel, k - 1);
                        lemma_matches_structure_only(t1, t2, j, sel, k - 1);
                        assert(same_parent(t1, i, j));
                        assert(is_element(t1, j));
                        assert(spec_matches_upto(t1, i, sel, k));
                    }
                },
            }
        }
    }
}

/// A found previous element sibling lies in range, below the start.
proof fn lemma_prev_sib_in_range(t: Tree, i: int, j: int)
    requires
        j <= usize::MAX,
    ensures
        match prev_elem_sib_from(t, i, j) {
            Some(s) => 0 <= s <= j,
            None => true,
        },
    decreases j + 1,
{
    if j >= 0 && !(same_parent(t, i, j) && is_element(t, j)) {
        lemma_prev_sib_in_range(t, i, j - 1);
    }
}

/// Structure-only matching, lifted to selector lists.
pub proof fn lemma_matches_list_structure_only(t1: Tree, t2: Tree, i: int, sels: Seq<SelectorShape>)
    requires
        same_structure(t1, t2),
        parents_ordered(t1),
        0 <= i < t1.nodes@.len(),
        i <= usize::MAX,
    ensures
        spec_matches_list(t1, i, sels) == spec_matches_list(t2, i, sels),
{
    assert forall|q: int| 0 <= q < sels.len() implies (spec_matches(t1, i, #[trigger] sels[q])
        == spec_matches(t2, i, sels[q])) by {
        lemma_matches_structure_only(t1, t2, i, sels[q], sels[q].rest.len() as int);
    }
}

} // verus!
