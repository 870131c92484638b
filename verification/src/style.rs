//! CSS declarations, declaration lists, and the computed style of a node.
//!
//! A declaration list is what stands between the braces of one rule: one
//! winning declaration per property name, later ones overwriting earlier
//! ones.  A computed style is the per-node result of the cascade; merging a
//! declaration into it respects `!important`: an important entry is never
//! overwritten by a normal one.

use vstd::prelude::*;

verus! {

/// A parsed CSS declaration: property name, raw value text, and whether it
/// carries `!important`.  Interpreting the value text for each individual
/// property belongs to a separate property-value parser outside this core.
#[derive(Debug, Clone, PartialEq)]
pub struct Declaration {
    pub prop_name: String,
    pub value: String,
    pub important: bool,
}

/// The shape of a declaration: its fields as character sequences.
pub struct DeclShape {
    pub prop_name: Seq<char>,
    pub value: Seq<char>,
    pub important: bool,
}

impl View for Declaration {
    type V = DeclShape;

    open spec fn view(&self) -> DeclShape {
        DeclShape { prop_name: self.prop_name@, value: self.value@, important: self.important }
    }
}

/// The shapes of a sequence of declarations.
pub open spec fn views_of_decls(v: Seq<Declaration>) -> Seq<DeclShape> {
    v.map(|i: int, d: Declaration| d@)
}

impl Declaration {
    /// An exact copy of the declaration.
    pub fn duplicate(&self) -> (r: Declaration)
        ensures
            r == *self,
    {
        Declaration {
            prop_name: self.prop_name.clone(),
            value: self.value.clone(),
            important: self.important,
        }
    }
}

/// Index of the declaration for `name` in `s`, or `-1` when there is none.
pub open spec fn decl_index_of(s: Seq<DeclShape>, name: Seq<char>) -> int
    decreases s.len(),
{
    if s.len() == 0 {
        -1
    } else if s[0].prop_name == name {
        0
    } else {
        let r = decl_index_of(s.drop_first(), name);
        if r == -1 {
            -1
        } else {
            r + 1
        }
    }
}

/// The declaration for `name` in `s`, if any.
pub open spec fn decl_lookup(s: Seq<DeclShape>, name: Seq<char>) -> Option<DeclShape> {
    let i = decl_index_of(s, name);
    if i == -1 {
        None
    } else {
        Some(s[i])
    }
}

/// One declaration per property name.
pub open spec fn decls_unique(s: Seq<DeclShape>) -> bool {
    forall|i: int, j: int|
        0 <= i < j < s.len() ==> s[i].prop_name != s[j].prop_name
}

/// Overwrite semantics of a declaration list under construction: a later
/// declaration for the same property replaces the earlier one in place,
/// a new property is appended.
pub open spec fn spec_decl_list_add(s: Seq<DeclShape>, d: DeclShape) -> Seq<DeclShape> {
    let i = decl_index_of(s, d.prop_name);
    if i == -1 {
        s.push(d)
    } else {
        s.update(i, d)
    }
}

/// A whole raw declaration sequence folded into a list, in order.
pub open spec fn spec_decl_list(raw: Seq<DeclShape>) -> Seq<DeclShape>
    decreases raw.len(),
{
    if raw.len() == 0 {
        Seq::empty()
    } else {
        spec_decl_list_add(spec_decl_list(raw.drop_last()), raw.last())
    }
}

/// Merge semantics of the cascade: a declaration replaces an existing entry
/// for its property unless the entry is `!important` and the declaration is
/// not; a new property is appended.
pub open spec fn spec_style_merge(s: Seq<DeclShape>, d: DeclShape) -> Seq<DeclShape> {
    let i = decl_index_of(s, d.prop_name);
    if i == -1 {
        s.push(d)
    } else if s[i].important && !d.important {
        s
    } else {
        s.update(i, d)
    }
}

/// A whole declaration sequence merged into a style, in order.
pub open spec fn spec_style_merge_all(s: Seq<DeclShape>, ds: Seq<DeclShape>) -> Seq<DeclShape>
    decreases ds.len(),
{
    if ds.len() == 0 {
        s
    } else {
        spec_style_merge(spec_style_merge_all(s, ds.drop_last()), ds.last())
    }
}

proof fn lemma_decl_index_of_props(s: Seq<DeclShape>, name: Seq<char>)
    ensures
        -1 <= decl_index_of(s, name) < s.len(),
        decl_index_of(s, name) >= 0 ==> s[decl_index_of(s, name)].prop_name == name,
        decl_index_of(s, name) == -1 ==> forall|i: int|
            0 <= i < s.len() ==> s[i].prop_name != name,
        forall|i: int| 0 <= i < decl_index_of(s, name) ==> s[i].prop_name != name,
    decreases s.len(),
{
    if s.len() > 0 && s[0].prop_name != name {
        let t = s.drop_first();
        lemma_decl_index_of_props(t, name);
        let r = decl_index_of(t, name);
        if r == -1 {
            assert forall|i: int| 0 <= i < s.len() implies s[i].prop_name != name by {
                if i > 0 {
                    assert(t[i - 1] == s[i]);
                }
            }
        } else {
            assert forall|i: int| 0 <= i < decl_index_of(s, name) implies s[i].prop_name
                != name by {
                if i > 0 {
                    assert(t[i - 1] == s[i]);
                }
            }
        }
    }
}

/// `decl_index_of` finds exactly the first occurrence.
pub proof fn lemma_decl_index_of_at(s: Seq<DeclShape>, name: Seq<char>, i: int)
    requires
        0 <= i < s.len(),
        s[i].prop_name == name,
        forall|j: int| 0 <= j < i ==> s[j].prop_name != name,
    ensures
        decl_index_of(s, name) == i,
    decreases s.len(),
{
    if i > 0 {
        lemma_decl_index_of_at(s.drop_first(), name, i - 1);
    }
}

proof fn lemma_decl_index_of_none(s: Seq<DeclShape>, name: Seq<char>)
    requires
        forall|i: int| 0 <= i < s.len() ==> s[i].prop_name != name,
    ensures
        decl_index_of(s, name) == -1,
    decreases s.len(),
{
    if s.len() > 0 {
        assert forall|i: int| 0 <= i < s.drop_first().len() implies s.drop_first()[i].prop_name
            != name by {
            assert(s.drop_first()[i] == s[i + 1]);
        }
        lemma_decl_index_of_none(s.drop_first(), name);
    }
}

/// Merging keeps uniqueness of property names.
pub proof fn lemma_style_merge_unique(s: Seq<DeclShape>, d: DeclShape)
    requires
        decls_unique(s),
    ensures
        decls_unique(spec_style_merge(s, d)),
        decls_unique(spec_decl_list_add(s, d)),
{
    lemma_decl_index_of_props(s, d.prop_name);
}

/// What the style holds for each name after one merge.
pub proof fn lemma_style_merge_lookup(s: Seq<DeclShape>, d: DeclShape, name: Seq<char>)
    requires
        decls_unique(s),
    ensures
        name == d.prop_name ==> decl_lookup(spec_style_merge(s, d), name) == (
        match decl_lookup(s, d.prop_name) {
            Some(p) => if p.important && !d.important {
                Some(p)
            } else {
                Some(d)
            },
            None => Some(d),
        }),
        name != d.prop_name ==> decl_lookup(spec_style_merge(s, d), name) == decl_lookup(s, name),
{
    let i = decl_index_of(s, d.prop_name);
    lemma_decl_index_of_props(s, d.prop_name);
    lemma_decl_index_of_props(s, name);
    let t = spec_style_merge(s, d);
    if i == -1 {
        if name == d.prop_name {
            lemma_decl_index_of_at(t, name, s.len() as int);
        } else {
            let j = decl_index_of(s, name);
            if j == -1 {
                lemma_decl_index_of_none(t, name);
            } else {
                lemma_decl_index_of_at(t, name, j);
            }
        }
    } else if s[i].important && !d.important {
    } else {
        if name == d.prop_name {
            lemma_decl_index_of_at(t, name, i);
        } else {
            let j = decl_index_of(s, name);
            if j == -1 {
                lemma_decl_index_of_none(t, name);
            } else {
                lemma_decl_index_of_at(t, name, j);
            }
        }
    }
}

/// An `!important` entry survives any sequence of later normal
/// declarations for the same or other properties, unchanged.
pub proof fn lemma_important_survives(s: Seq<DeclShape>, ds: Seq<DeclShape>, name: Seq<char>)
    requires
        decls_unique(s),
        decl_lookup(s, name) matches Some(p) && p.important,
        forall|i: int| 0 <= i < ds.len() ==> !ds[i].important,
    ensures
        decl_lookup(spec_style_merge_all(s, ds), name) == decl_lookup(s, name),
        decls_unique(spec_style_merge_all(s, ds)),
    decreases ds.len(),
{
    if ds.len() > 0 {
        lemma_important_survives(s, ds.drop_last(), name);
        let t = spec_style_merge_all(s, ds.drop_last());
        lemma_style_merge_lookup(t, ds.last(), name);
        lemma_style_merge_unique(t, ds.last());
    }
}

/// Later rule wins: two equally-important declarations for one property,
/// merged in order into a style whose existing entry for that property (if
/// any) does not outrank them, leave the later one in force.
pub proof fn lemma_later_rule_wins(s: Seq<DeclShape>, d1: DeclShape, d2: DeclShape)
    requires
        decls_unique(s),
        d1.prop_name == d2.prop_name,
        d1.important == d2.important,
        match decl_lookup(s, d1.prop_name) {
            Some(p) => !p.important || d1.important,
            None => true,
        },
    ensures
        decl_lookup(spec_style_merge(spec_style_merge(s, d1), d2), d1.prop_name) == Some(d2),
{
    lemma_style_merge_lookup(s, d1, d1.prop_name);
    lemma_style_merge_unique(s, d1);
    lemma_style_merge_lookup(spec_style_merge(s, d1), d2, d2.prop_name);
}

/// A list of property/value declarations: the contents of one rule's block,
/// one winner per property name.
#[derive(Debug, Clone, PartialEq)]
pub struct DeclarationList {
    decls: Vec<Declaration>,
}

impl View for DeclarationList {
    type V = Seq<DeclShape>;

    closed spec fn view(&self) -> Seq<DeclShape> {
        views_of_decls(self.decls@)
    }
}

impl DeclarationList {
    pub open spec fn wf(&self) -> bool {
        decls_unique(self@)
    }

    pub fn new() -> (r: DeclarationList)
        ensures
            r@ == Seq::<DeclShape>::empty(),
            r.wf(),
    {
        let r = DeclarationList { decls: Vec::new() };
        proof {
            assert(r@ =~= Seq::<DeclShape>::empty());
        }
        r
    }

    pub fn len(&self) -> (r: usize)
        ensures
            r == self@.len(),
    {
        self.decls.len()
    }

    pub fn get(&self, i: usize) -> (r: &Declaration)
        requires
            i < self@.len(),
        ensures
            r@ == self@[i as int],
    {
        &self.decls[i]
    }

    /// Adds one declaration, overwriting an earlier one for the same
    /// property (last declaration in a block wins).
    pub fn add(&mut self, d: Declaration)
        requires
            old(self).wf(),
        ensures
            final(self)@ == spec_decl_list_add(old(self)@, d@),
            final(self).wf(),
    {
        let ghost s = self@;
        let mut i: usize = 0;
        let n = self.decls.len();
        while i < n
            invariant
                i <= n,
                n == s.len(),
                self@ == s,
                s == old(self)@,
                self.decls@.len() == n,
                decls_unique(s),
                forall|j: int| 0 <= j < i ==> s[j].prop_name != d@.prop_name,
            decreases n - i,
        {
            proof {
                assert(s[i as int] == self.decls@[i as int]@);
            }
            if self.decls[i].prop_name == d.prop_name {
                proof {
                    assert(s[i as int] == self.decls@[i as int]@);
                    lemma_decl_index_of_at(s, d@.prop_name, i as int);
                    lemma_style_merge_unique(s, d@);
                }
                self.decls.set(i, d);
                proof {
                    assert(self@ =~= s.update(i as int, d@));
                }
                return ;
            }
            i = i + 1;
        }
        proof {
            lemma_decl_index_of_none(s, d@.prop_name);
            lemma_style_merge_unique(s, d@);
        }
        self.decls.push(d);
        proof {
            assert(self@ =~= s.push(d@));
        }
    }
}

/// The computed style of one node: the declarations the cascade has applied
/// to it so far, one per property name.
#[derive(Debug, Clone, PartialEq)]
pub struct ComputedStyle {
    entries: Vec<Declaration>,
}

impl View for ComputedStyle {
    type V = Seq<DeclShape>;

    closed spec fn view(&self) -> Seq<DeclShape> {
        views_of_decls(self.entries@)
    }
}

impl ComputedStyle {
    pub open spec fn wf(&self) -> bool {
        decls_unique(self@)
    }

    pub fn new() -> (r: ComputedStyle)
        ensures
            r@ == Seq::<DeclShape>::empty(),
            r.wf(),
    {
        let r = ComputedStyle { entries: Vec::new() };
        proof {
            assert(r@ =~= Seq::<DeclShape>::empty());
        }
        r
    }

    pub fn len(&self) -> (r: usize)
        ensures
            r == self@.len(),
    {
        self.entries.len()
    }

    pub fn get(&self, i: usize) -> (r: &Declaration)
        requires
            i < self@.len(),
        ensures
            r@ == self@[i as int],
    {
        &self.entries[i]
    }

    /// The entry for a property name, if the cascade has set one.
    pub fn lookup(&self, name: &str) -> (r: Option<&Declaration>)
        ensures
            match r {
                Some(d) => decl_lookup(self@, name@) == Some(d@),
                None => decl_lookup(self@, name@) == None::<DeclShape>,
            },
    {
        let ghost s = self@;
        let mut i: usize = 0;
        let n = self.entries.len();
        while i < n
            invariant
                i <= n,
                n == s.len(),
                self@ == s,
                self.entries@.len() == n,
                forall|j: int| 0 <= j < i ==> s[j].prop_name != name@,
            decreases n - i,
        {
            proof {
                assert(s[i as int] == self.entries@[i as int]@);
            }
            if crate::strutil::str_eq(self.entries[i].prop_name.as_str(), name) {
                proof {
                    assert(s[i as int] == self.entries@[i as int]@);
                    lemma_decl_index_of_at(s, name@, i as int);
                }
                return Some(&self.entries[i]);
            }
            i = i + 1;
        }
        proof {
            lemma_decl_index_of_none(s, name@);
        }
        None
    }

    /// Merges one declaration into the style, respecting `!important`: an
    /// important entry is never displaced by a normal declaration.
    pub fn apply_declaration(&mut self, d: &Declaration)
        requires
            old(self).wf(),
        ensures
            final(self)@ == spec_style_merge(old(self)@, d@),
            final(self).wf(),
    {
        let ghost s = self@;
        let mut i: usize = 0;
        let n = self.entries.len();
        while i < n
            invariant
                i <= n,
                n == s.len(),
                self@ == s,
                s == old(self)@,
                self.entries@.len() == n,
                decls_unique(s),
                forall|j: int| 0 <= j < i ==> s[j].prop_name != d@.prop_name,
            decreases n - i,
        {
            proof {
                assert(s[i as int] == self.entries@[i as int]@);
            }
            if self.entries[i].prop_name == d.prop_name {
                proof {
                    assert(s[i as int] == self.entries@[i as int]@);
                    lemma_decl_index_of_at(s, d@.prop_name, i as int);
                    lemma_style_merge_unique(s, d@);
                }
                if self.entries[i].important && !d.important {
                    return ;
                }
                self.entries.set(i, d.duplicate());
                proof {
                    assert(self@ =~= s.update(i as int, d@));
                }
                return ;
            }
            i = i + 1;
        }
        proof {
            lemma_decl_index_of_none(s, d@.prop_name);
            lemma_style_merge_unique(s, d@);
        }
        self.entries.push(d.duplicate());
        proof {
            assert(self@ =~= s.push(d@));
        }
    }
}

} // verus!
