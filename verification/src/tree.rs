//! The document tree the cascade works on, and the element adapter: the
//! capability set a generic selector-matching algorithm needs from a node
//! (tag name, namespace, id, class membership, siblings, structural
//! predicates).
//!
//! Nodes live in an arena; a node's parent always stands at a smaller
//! index, so every walk toward the root terminates.  Character data is a
//! node of its own and is transparently skipped when walking element
//! siblings.

use crate::strutil::{chars_of, is_space_char, space_char, str_eq, ws_only};
use crate::style::{spec_style_merge, ComputedStyle, Declaration};
use vstd::prelude::*;

verus! {

/// What an element carries for matching purposes.
#[derive(Debug, Clone, PartialEq)]
pub struct ElementData {
    pub local_name: String,
    pub namespace: String,
    pub id: Option<String>,
    pub class: Option<String>,
    /// Whether the node's type tag marks it as a hyperlink element.
    pub is_link: bool,
}

/// A node is an element or a run of character data.
#[derive(Debug, Clone, PartialEq)]
pub enum NodeData {
    Element(ElementData),
    Chars(String),
}

/// One tree node: its parent (an earlier index), its data, and the style
/// the cascade has computed for it so far.
#[derive(Debug, Clone, PartialEq)]
pub struct Node {
    pub parent: Option<usize>,
    pub data: NodeData,
    pub style: ComputedStyle,
}

/// The document tree, as an arena in document order.
#[derive(Debug, Clone, PartialEq)]
pub struct Tree {
    pub nodes: Vec<Node>,
}

/// Every parent link points at an earlier index.
pub open spec fn parents_ordered(t: Tree) -> bool {
    forall|i: int|
        0 <= i < t.nodes@.len() ==> (match #[trigger] t.nodes@[i].parent {
            Some(p) => p < i,
            None => true,
        })
}

/// Parents come before their children, and every computed style is well
/// formed.
pub open spec fn tree_wf(t: Tree) -> bool {
    parents_ordered(t) && forall|i: int|
        0 <= i < t.nodes@.len() ==> #[trigger] t.nodes@[i].style.wf()
}

/// The parent index of a node.
pub open spec fn parent_of(t: Tree, i: int) -> Option<usize> {
    t.nodes@[i].parent
}

/// Whether the node is an element (not character data).
pub open spec fn is_element(t: Tree, i: int) -> bool {
    t.nodes@[i].data is Element
}

/// Whether two nodes are siblings (same parent).
pub open spec fn same_parent(t: Tree, i: int, j: int) -> bool {
    parent_of(t, j) == parent_of(t, i)
}

/// The nearest element at or below index `j` that is a sibling of `i`.
pub open spec fn prev_elem_sib_from(t: Tree, i: int, j: int) -> Option<usize>
    decreases j + 1,
{
    if j < 0 {
        None
    } else if same_parent(t, i, j) && is_element(t, j) {
        Some(j as usize)
    } else {
        prev_elem_sib_from(t, i, j - 1)
    }
}

/// The previous element sibling of `i`: character data is skipped.
pub open spec fn spec_prev_sibling_element(t: Tree, i: int) -> Option<usize> {
    prev_elem_sib_from(t, i, i - 1)
}

/// The nearest element at or above index `j` (up to the arena's end) that
/// is a sibling of `i`.
pub open spec fn next_elem_sib_from(t: Tree, i: int, j: int) -> Option<usize>
    decreases t.nodes@.len() - j,
{
    if j >= t.nodes@.len() {
        None
    } else if same_parent(t, i, j) && is_element(t, j) {
        Some(j as usize)
    } else {
        next_elem_sib_from(t, i, j + 1)
    }
}

/// The next element sibling of `i`: character data is skipped.
pub open spec fn spec_next_sibling_element(t: Tree, i: int) -> Option<usize> {
    next_elem_sib_from(t, i, i + 1)
}

/// Local-name equality against an element.
pub open spec fn spec_has_local_name(t: Tree, i: int, name: Seq<char>) -> bool {
    match t.nodes@[i].data {
        NodeData::Element(e) => e.local_name@ == name,
        NodeData::Chars(_) => false,
    }
}

/// Namespace equality against an element.
pub open spec fn spec_has_namespace(t: Tree, i: int, ns: Seq<char>) -> bool {
    match t.nodes@[i].data {
        NodeData::Element(e) => e.namespace@ == ns,
        NodeData::Chars(_) => false,
    }
}

/// Case-sensitive exact id match.
pub open spec fn spec_has_id(t: Tree, i: int, id: Seq<char>) -> bool {
    match t.nodes@[i].data {
        NodeData::Element(e) => match e.id {
            Some(s) => s@ == id,
            None => false,
        },
        NodeData::Chars(_) => false,
    }
}

/// A whitespace-delimited, whitespace-free, non-empty token standing at
/// position `a` of a class attribute.
pub open spec fn is_token_at(cls: Seq<char>, tok: Seq<char>, a: int) -> bool {
    &&& tok.len() > 0
    &&& (forall|k: int| 0 <= k < tok.len() ==> !is_space_char(tok[k]))
    &&& 0 <= a
    &&& a + tok.len() <= cls.len()
    &&& cls.subrange(a, a + tok.len()) == tok
    &&& (a == 0 || is_space_char(cls[a - 1]))
    &&& (a + tok.len() == cls.len() || is_space_char(cls[a + tok.len()]))
}

/// Token membership in a whitespace-split class attribute.
pub open spec fn has_class_token(cls: Seq<char>, tok: Seq<char>) -> bool {
    exists|a: int| is_token_at(cls, tok, a)
}

/// Whitespace-split exact token match against the class attribute.
pub open spec fn spec_has_class(t: Tree, i: int, name: Seq<char>) -> bool {
    match t.nodes@[i].data {
        NodeData::Element(e) => match e.class {
            Some(cls) => has_class_token(cls@, name),
            None => false,
        },
        NodeData::Chars(_) => false,
    }
}

/// Whether the node is the root of the tree (has no parent).
pub open spec fn spec_is_root(t: Tree, i: int) -> bool {
    t.nodes@[i].parent is None
}

/// `:empty`: no child element, and every character-data child holds only
/// whitespace (or nothing).
pub open spec fn spec_is_empty(t: Tree, i: int) -> bool {
    forall|j: int|
        0 <= j < t.nodes@.len() && #[trigger] parent_of(t, j) == Some(i as usize) ==> (
        match t.nodes@[j].data {
            NodeData::Element(_) => false,
            NodeData::Chars(s) => ws_only(s@),
        })
}

/// Whether the node is a hyperlink element.
pub open spec fn spec_is_link(t: Tree, i: int) -> bool {
    match t.nodes@[i].data {
        NodeData::Element(e) => e.is_link,
        NodeData::Chars(_) => false,
    }
}

/// Equality of characters over a window of `cls` against all of `tok`.
fn slice_eq_at(cls: &Vec<char>, tok: &Vec<char>, a: usize) -> (r: bool)
    requires
        a + tok@.len() <= cls@.len(),
    ensures
        r == (cls@.subrange(a as int, a + tok@.len()) == tok@),
{
    let n = cls.len();
    let m = tok.len();
    let mut k: usize = 0;
    while k < m
        invariant
            k <= m,
            m == tok@.len(),
            n == cls@.len(),
            a + m <= n,
            forall|q: int| 0 <= q < k ==> cls@[a + q] == tok@[q],
        decreases m - k,
    {
        if cls[a + k] != tok[k] {
            proof {
                assert(cls@.subrange(a as int, a + tok@.len())[k as int] == cls@[a + k]);
            }
            return false;
        }
        k = k + 1;
    }
    proof {
        assert(cls@.subrange(a as int, a + tok@.len()) =~= tok@);
    }
    true
}

/// Executable test for `is_token_at`.
fn token_at(cls: &Vec<char>, tok: &Vec<char>, a: usize) -> (r: bool)
    requires
        a <= cls@.len(),
    ensures
        r == is_token_at(cls@, tok@, a as int),
{
    let m = tok.len();
    if m == 0 {
        return false;
    }
    let mut k: usize = 0;
    while k < m
        invariant
            k <= m,
            m == tok@.len(),
            forall|q: int| 0 <= q < k ==> !is_space_char(tok@[q]),
        decreases m - k,
    {
        if space_char(tok[k]) {
            return false;
        }
        k = k + 1;
    }
    if m > cls.len() - a {
        return false;
    }
    if !slice_eq_at(cls, tok, a) {
        return false;
    }
    if !(a == 0 || space_char(cls[a - 1])) {
        return false;
    }
    if !(a + m == cls.len() || space_char(cls[a + m])) {
        return false;
    }
    true
}

/// Executable whitespace-split token membership.
fn class_contains_token(cls: &Vec<char>, tok: &Vec<char>) -> (r: bool)
    ensures
        r == has_class_token(cls@, tok@),
{
    let n = cls.len();
    let mut a: usize = 0;
    while a < n
        invariant
            a <= n,
            n == cls@.len(),
            forall|q: int| 0 <= q < a ==> !is_token_at(cls@, tok@, q),
        decreases n - a,
    {
        if token_at(cls, tok, a) {
            return true;
        }
        a = a + 1;
    }
    proof {
        assert forall|q: int| !is_token_at(cls@, tok@, q) by {
            if 0 <= q < n {
                assert(!is_token_at(cls@, tok@, q));
            } else if q >= n {
                assert(!(q + tok@.len() <= cls@.len() && tok@.len() > 0));
            }
        }
    }
    false
}

impl Tree {
    /// An empty tree.
    pub fn new() -> (r: Tree)
        ensures
            r.nodes@.len() == 0,
            tree_wf(r),
    {
        Tree { nodes: Vec::new() }
    }

    pub fn len(&self) -> (r: usize)
        ensures
            r == self.nodes@.len(),
    {
        self.nodes.len()
    }

    /// Appends a node under `parent` (which must already exist) and
    /// returns its index.  New nodes start with an empty computed style.
    pub fn add_node(&mut self, parent: Option<usize>, data: NodeData) -> (r: usize)
        requires
            tree_wf(*old(self)),
            match parent {
                Some(p) => p < old(self).nodes@.len(),
                None => true,
            },
            old(self).nodes@.len() < usize::MAX,
        ensures
            tree_wf(*final(self)),
            r == old(self).nodes@.len(),
            final(self).nodes@.len() == old(self).nodes@.len() + 1,
            forall|i: int| 0 <= i < old(self).nodes@.len() ==> final(self).nodes@[i] == old(
                self,
            ).nodes@[i],
            final(self).nodes@[r as int].parent == parent,
            final(self).nodes@[r as int].data == data,
            final(self).nodes@[r as int].style@ == Seq::<crate::style::DeclShape>::empty(),
    {
        let idx = self.nodes.len();
        let style = ComputedStyle::new();
        self.nodes.push(Node { parent, data, style });
        idx
    }

    /// The parent node, whatever its kind.
    pub fn parent_element(&self, i: usize) -> (r: Option<usize>)
        requires
            i < self.nodes@.len(),
        ensures
            r == parent_of(*self, i as int),
    {
        self.nodes[i].parent
    }

    /// The previous element sibling, skipping character data.
    pub fn prev_sibling_element(&self, i: usize) -> (r: Option<usize>)
        requires
            i < self.nodes@.len(),
        ensures
            r == spec_prev_sibling_element(*self, i as int),
    {
        let mut j: usize = i;
        while j > 0
            invariant
                j <= i < self.nodes@.len(),
                prev_elem_sib_from(*self, i as int, i - 1) == prev_elem_sib_from(
                    *self,
                    i as int,
                    j - 1,
                ),
            decreases j,
        {
            let k = j - 1;
            let same = match (&self.nodes[k].parent, &self.nodes[i].parent) {
                (Some(a), Some(b)) => *a == *b,
                (None, None) => true,
                _ => false,
            };
            let elem = match &self.nodes[k].data {
                NodeData::Element(_) => true,
                NodeData::Chars(_) => false,
            };
            if same && elem {
                return Some(k);
            }
            j = k;
        }
        None
    }

    /// The next element sibling, skipping character data.
    pub fn next_sibling_element(&self, i: usize) -> (r: Option<usize>)
        requires
            i < self.nodes@.len(),
        ensures
            r == spec_next_sibling_element(*self, i as int),
    {
        let n = self.nodes.len();
        let mut j: usize = i + 1;
        while j < n
            invariant
                i < j <= n,
                n == self.nodes@.len(),
                next_elem_sib_from(*self, i as int, i + 1) == next_elem_sib_from(
                    *self,
                    i as int,
                    j as int,
                ),
            decreases n - j,
        {
            let same = match (&self.nodes[j].parent, &self.nodes[i].parent) {
                (Some(a), Some(b)) => *a == *b,
                (None, None) => true,
                _ => false,
            };
            let elem = match &self.nodes[j].data {
                NodeData::Element(_) => true,
                NodeData::Chars(_) => false,
            };
            if same && elem {
                return Some(j);
            }
            j = j + 1;
        }
        None
    }

    /// Local-name equality.
    pub fn has_local_name(&self, i: usize, name: &str) -> (r: bool)
        requires
            i < self.nodes@.len(),
        ensures
            r == spec_has_local_name(*self, i as int, name@),
    {
        match &self.nodes[i].data {
            NodeData::Element(e) => str_eq(e.local_name.as_str(), name),
            NodeData::Chars(_) => false,
        }
    }

    /// Namespace equality; the empty string stands for no namespace.
    pub fn has_namespace(&self, i: usize, ns: &str) -> (r: bool)
        requires
            i < self.nodes@.len(),
        ensures
            r == spec_has_namespace(*self, i as int, ns@),
    {
        match &self.nodes[i].data {
            NodeData::Element(e) => str_eq(e.namespace.as_str(), ns),
            NodeData::Chars(_) => false,
        }
    }

    /// Whether this element and `other` have the same name and namespace.
    pub fn is_same_type(&self, i: usize, j: usize) -> (r: bool)
        requires
            i < self.nodes@.len(),
            j < self.nodes@.len(),
        ensures
            r == (match (self.nodes@[i as int].data, self.nodes@[j as int].data) {
                (NodeData::Element(a), NodeData::Element(b)) => a.local_name@ == b.local_name@
                    && a.namespace@ == b.namespace@,
                _ => false,
            }),
    {
        match (&self.nodes[i].data, &self.nodes[j].data) {
            (NodeData::Element(a), NodeData::Element(b)) => str_eq(
                a.local_name.as_str(),
                b.local_name.as_str(),
            ) && str_eq(a.namespace.as_str(), b.namespace.as_str()),
            _ => false,
        }
    }

    /// Case-sensitive exact id match.
    pub fn has_id(&self, i: usize, id: &str) -> (r: bool)
        requires
            i < self.nodes@.len(),
        ensures
            r == spec_has_id(*self, i as int, id@),
    {
        match &self.nodes[i].data {
            NodeData::Element(e) => match &e.id {
                Some(s) => str_eq(s.as_str(), id),
                None => false,
            },
            NodeData::Chars(_) => false,
        }
    }

    /// Whitespace-split exact token match against the class attribute.
    pub fn has_class(&self, i: usize, name: &str) -> (r: bool)
        requires
            i < self.nodes@.len(),
        ensures
            r == spec_has_class(*self, i as int, name@),
    {
        match &self.nodes[i].data {
            NodeData::Element(e) => match &e.class {
                Some(cls) => {
                    let cv = chars_of(cls.as_str());
                    let tv = chars_of(name);
                    class_contains_token(&cv, &tv)
                },
                None => false,
            },
            NodeData::Chars(_) => false,
        }
    }

    /// Whether the node is the root of the tree.
    pub fn is_root(&self, i: usize) -> (r: bool)
        requires
            i < self.nodes@.len(),
        ensures
            r == spec_is_root(*self, i as int),
    {
        self.nodes[i].parent.is_none()
    }

    /// `:empty`: no child element and no non-blank character data.
    pub fn is_empty(&self, i: usize) -> (r: bool)
        requires
            i < self.nodes@.len(),
        ensures
            r == spec_is_empty(*self, i as int),
    {
        let n = self.nodes.len();
        let mut j: usize = 0;
        while j < n
            invariant
                j <= n,
                n == self.nodes@.len(),
                i < n,
                forall|q: int|
                    0 <= q < j && #[trigger] parent_of(*self, q) == Some(i) ==> (
                    match self.nodes@[q].data {
                        NodeData::Element(_) => false,
                        NodeData::Chars(s) => ws_only(s@),
                    }),
            decreases n - j,
        {
            let is_child = match &self.nodes[j].parent {
                Some(p) => *p == i,
                None => false,
            };
            if is_child {
                match &self.nodes[j].data {
                    NodeData::Element(_) => {
                        proof {
                            assert(parent_of(*self, j as int) == Some(i));
                            assert(!spec_is_empty(*self, i as int));
                        }
                        return false;
                    },
                    NodeData::Chars(s) => {
                        let cv = chars_of(s.as_str());
                        let mut k: usize = 0;
                        let m = cv.len();
                        let mut blank = true;
                        while k < m
                            invariant
                                k <= m,
                                m == cv@.len(),
                                cv@ == s@,
                                blank ==> forall|q: int| 0 <= q < k ==> is_space_char(s@[q]),
                                !blank ==> !ws_only(s@),
                            decreases m - k,
                        {
                            if !space_char(cv[k]) {
                                proof {
                                    assert(!is_space_char(s@[k as int]));
                                }
                                blank = false;
                            }
                            k = k + 1;
                        }
                        if !blank {
                            proof {
                                assert(parent_of(*self, j as int) == Some(i));
                                assert(!spec_is_empty(*self, i as int));
                            }
                            return false;
                        }
                        proof {
                            assert(ws_only(s@));
                        }
                    },
                }
            }
            j = j + 1;
        }
        true
    }

    /// Whether the node is a hyperlink element.
    pub fn is_link(&self, i: usize) -> (r: bool)
        requires
            i < self.nodes@.len(),
        ensures
            r == spec_is_link(*self, i as int),
    {
        match &self.nodes[i].data {
            NodeData::Element(e) => e.is_link,
            NodeData::Chars(_) => false,
        }
    }

    /// The computed style of a node.
    pub fn node_style(&self, i: usize) -> (r: &ComputedStyle)
        requires
            i < self.nodes@.len(),
        ensures
            r == self.nodes@[i as int].style,
    {
        &self.nodes[i].style
    }

    /// Merges one declaration into a node's computed style; the tree's
    /// structure and every other node stay untouched.
    pub fn apply_declaration_to_node(&mut self, i: usize, d: &Declaration)
        requires
            tree_wf(*old(self)),
            i < old(self).nodes@.len(),
        ensures
            tree_wf(*final(self)),
            final(self).nodes@.len() == old(self).nodes@.len(),
            forall|q: int|
                0 <= q < old(self).nodes@.len() && q != i ==> final(self).nodes@[q] == old(
                    self,
                ).nodes@[q],
            final(self).nodes@[i as int].parent == old(self).nodes@[i as int].parent,
            final(self).nodes@[i as int].data == old(self).nodes@[i as int].data,
            final(self).nodes@[i as int].style@ == spec_style_merge(
                old(self).nodes@[i as int].style@,
                d@,
            ),
    {
        let node = &mut self.nodes[i];
        node.style.apply_declaration(d);
    }
}

} // verus!
