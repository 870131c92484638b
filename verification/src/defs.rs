//! The cross-document reference registry: element ids of the current
//! document, and a cache of externally loaded documents keyed by their
//! canonical URL.
//!
//! Resolution degrades gracefully: a reference the security boundary
//! rejects, a document that fails to load, or a missing id all yield "not
//! found", never an error.  Each external URL is loaded at most once per
//! registry lifetime; the cached outcome (even a failure) is reused.

use crate::href::Href;
use crate::strutil::str_eq;
use vstd::prelude::*;

verus! {

/// Opaque registry handle for callers outside the library (a marker type:
/// foreign code holds pointers to it, never values).
pub enum RsvgDefs {
    Opaque,
}

/// The id table of one externally loaded document: element id to that
/// document's own (opaque) node handle.
#[derive(Debug, Clone, PartialEq)]
#[verifier::ext_equal]
pub struct ExternDocument {
    pub ids: Vec<(String, u64)>,
}

/// What the security boundary and the document loader answered for this
/// registry's lifetime: which reference strings may be fetched (with their
/// canonical URL), and which canonical URLs load into which documents.
/// The boundary and loader themselves live outside this library.
#[derive(Debug, Clone, PartialEq)]
pub struct ReferenceEnv {
    /// Reference string, as written, to its canonical allow-listed URL.
    pub allowed: Vec<(String, String)>,
    /// Canonical URL to the external document it loads; an absent URL
    /// fails to load.
    pub documents: Vec<(String, ExternDocument)>,
}

/// A resolved reference: a node of the current document, or a node handle
/// inside an externally loaded document.
#[derive(Debug, Clone, PartialEq)]
pub enum NodeRef {
    Local(usize),
    External(u64),
}

/// First match in an id table.
pub open spec fn spec_id_lookup(s: Seq<(String, usize)>, id: Seq<char>) -> Option<usize>
    decreases s.len(),
{
    if s.len() == 0 {
        None
    } else if s[0].0@ == id {
        Some(s[0].1)
    } else {
        spec_id_lookup(s.drop_first(), id)
    }
}

/// First match in the extern cache (the cached value may itself record a
/// failed load).
pub open spec fn spec_extern_lookup(
    s: Seq<(String, Option<ExternDocument>)>,
    url: Seq<char>,
) -> Option<Option<ExternDocument>>
    decreases s.len(),
{
    if s.len() == 0 {
        None
    } else if s[0].0@ == url {
        Some(s[0].1)
    } else {
        spec_extern_lookup(s.drop_first(), url)
    }
}

/// First match among the loadable documents.
pub open spec fn spec_doc_lookup(s: Seq<(String, ExternDocument)>, url: Seq<char>) -> Option<
    ExternDocument,
>
    decreases s.len(),
{
    if s.len() == 0 {
        None
    } else if s[0].0@ == url {
        Some(s[0].1)
    } else {
        spec_doc_lookup(s.drop_first(), url)
    }
}

/// First match in an external document's id table.
pub open spec fn spec_ext_id_lookup(s: Seq<(String, u64)>, id: Seq<char>) -> Option<u64>
    decreases s.len(),
{
    if s.len() == 0 {
        None
    } else if s[0].0@ == id {
        Some(s[0].1)
    } else {
        spec_ext_id_lookup(s.drop_first(), id)
    }
}

/// The id table of an outcome, where there is one.
pub open spec fn spec_doc_ids(o: Option<ExternDocument>) -> Option<Seq<(String, u64)>> {
    match o {
        Some(d) => Some(d.ids@),
        None => None,
    }
}

/// The document an external reference resolves to, given the cache as it
/// stands: the boundary must allow the URL; a cached outcome (success or
/// failure) is final; otherwise the loader's answer decides.
pub open spec fn spec_resolve_extern(
    externs: Seq<(String, Option<ExternDocument>)>,
    env: ReferenceEnv,
    u: Seq<char>,
) -> Option<ExternDocument> {
    match crate::css::spec_allowed_lookup(env.allowed@, u) {
        None => None,
        Some(canon) => match spec_extern_lookup(externs, canon) {
            Some(cached) => cached,
            None => spec_doc_lookup(env.documents@, canon),
        },
    }
}

/// What a lookup yields, as a function of the registry's id table, the
/// cache as it stands, the environment, and the reference's shape.
pub open spec fn spec_lookup_result(
    nodes: Seq<(String, usize)>,
    externs: Seq<(String, Option<ExternDocument>)>,
    env: ReferenceEnv,
    h: crate::href::HrefShape,
) -> Option<NodeRef> {
    match h {
        crate::href::HrefShape::PlainUri(_) => None,
        crate::href::HrefShape::FragmentId(f) => match spec_id_lookup(nodes, f) {
            Some(ix) => Some(NodeRef::Local(ix)),
            None => None,
        },
        crate::href::HrefShape::UriWithFragmentId(u, f) => match spec_resolve_extern(
            externs,
            env,
            u,
        ) {
            Some(doc) => match spec_ext_id_lookup(doc.ids@, f) {
                Some(handle) => Some(NodeRef::External(handle)),
                None => None,
            },
            None => None,
        },
    }
}

fn id_lookup(v: &Vec<(String, usize)>, idx: usize, id: &str) -> (r: Option<usize>)
    requires
        idx <= v@.len(),
    ensures
        match r {
            Some(node) => spec_id_lookup(v@.skip(idx as int), id@) == Some(node),
            None => spec_id_lookup(v@.skip(idx as int), id@) is None,
        },
    decreases v@.len() - idx,
{
    if idx >= v.len() {
        proof {
            assert(v@.skip(idx as int) =~= Seq::<(String, usize)>::empty());
        }
        None
    } else if str_eq(v[idx].0.as_str(), id) {
        proof {
            assert(v@.skip(idx as int)[0] == v@[idx as int]);
        }
        Some(v[idx].1)
    } else {
        proof {
            assert(v@.skip(idx as int)[0] == v@[idx as int]);
            assert(v@.skip(idx as int).drop_first() =~= v@.skip(idx as int + 1));
        }
        id_lookup(v, idx + 1, id)
    }
}

fn extern_index(v: &Vec<(String, Option<ExternDocument>)>, idx: usize, url: &str) -> (r: Option<
    usize,
>)
    requires
        idx <= v@.len(),
    ensures
        match r {
            Some(ix) => idx <= ix < v@.len() && spec_extern_lookup(v@.skip(idx as int), url@)
                == Some(v@[ix as int].1),
            None => spec_extern_lookup(v@.skip(idx as int), url@) is None,
        },
    decreases v@.len() - idx,
{
    if idx >= v.len() {
        proof {
            assert(v@.skip(idx as int) =~= Seq::<(String, Option<ExternDocument>)>::empty());
        }
        None
    } else if str_eq(v[idx].0.as_str(), url) {
        proof {
            assert(v@.skip(idx as int)[0] == v@[idx as int]);
        }
        Some(idx)
    } else {
        proof {
            assert(v@.skip(idx as int)[0] == v@[idx as int]);
            assert(v@.skip(idx as int).drop_first() =~= v@.skip(idx as int + 1));
        }
        extern_index(v, idx + 1, url)
    }
}

fn doc_index(v: &Vec<(String, ExternDocument)>, idx: usize, url: &str) -> (r: Option<usize>)
    requires
        idx <= v@.len(),
    ensures
        match r {
            Some(ix) => idx <= ix < v@.len() && spec_doc_lookup(v@.skip(idx as int), url@) == Some(
                v@[ix as int].1,
            ),
            None => spec_doc_lookup(v@.skip(idx as int), url@) is None,
        },
    decreases v@.len() - idx,
{
    if idx >= v.len() {
        proof {
            assert(v@.skip(idx as int) =~= Seq::<(String, ExternDocument)>::empty());
        }
        None
    } else if str_eq(v[idx].0.as_str(), url) {
        proof {
            assert(v@.skip(idx as int)[0] == v@[idx as int]);
        }
        Some(idx)
    } else {
        proof {
            assert(v@.skip(idx as int)[0] == v@[idx as int]);
            assert(v@.skip(idx as int).drop_first() =~= v@.skip(idx as int + 1));
        }
        doc_index(v, idx + 1, url)
    }
}

fn ext_id_lookup(v: &Vec<(String, u64)>, idx: usize, id: &str) -> (r: Option<u64>)
    requires
        idx <= v@.len(),
    ensures
        match r {
            Some(h) => spec_ext_id_lookup(v@.skip(idx as int), id@) == Some(h),
            None => spec_ext_id_lookup(v@.skip(idx as int), id@) is None,
        },
    decreases v@.len() - idx,
{
    if idx >= v.len() {
        proof {
            assert(v@.skip(idx as int) =~= Seq::<(String, u64)>::empty());
        }
        None
    } else if str_eq(v[idx].0.as_str(), id) {
        proof {
            assert(v@.skip(idx as int)[0] == v@[idx as int]);
        }
        Some(v[idx].1)
    } else {
        proof {
            assert(v@.skip(idx as int)[0] == v@[idx as int]);
            assert(v@.skip(idx as int).drop_first() =~= v@.skip(idx as int + 1));
        }
        ext_id_lookup(v, idx + 1, id)
    }
}

proof fn lemma_extern_lookup_absent(s: Seq<(String, Option<ExternDocument>)>, url: Seq<char>)
    requires
        spec_extern_lookup(s, url) is None,
    ensures
        forall|i: int| 0 <= i < s.len() ==> (#[trigger] s[i]).0@ != url,
    decreases s.len(),
{
    if s.len() > 0 {
        lemma_extern_lookup_absent(s.drop_first(), url);
        assert forall|i: int| 0 <= i < s.len() implies (#[trigger] s[i]).0@ != url by {
            if i > 0 {
                assert(s.drop_first()[i - 1] == s[i]);
            }
        }
    }
}

proof fn lemma_id_lookup_absent(s: Seq<(String, usize)>, id: Seq<char>)
    requires
        spec_id_lookup(s, id) is None,
    ensures
        forall|i: int| 0 <= i < s.len() ==> (#[trigger] s[i]).0@ != id,
    decreases s.len(),
{
    if s.len() > 0 {
        lemma_id_lookup_absent(s.drop_first(), id);
        assert forall|i: int| 0 <= i < s.len() implies (#[trigger] s[i]).0@ != id by {
            if i > 0 {
                assert(s.drop_first()[i - 1] == s[i]);
            }
        }
    }
}

proof fn lemma_id_lookup_push(s: Seq<(String, usize)>, entry: (String, usize), q: Seq<char>)
    requires
        spec_id_lookup(s, entry.0@) is None,
    ensures
        spec_id_lookup(s.push(entry), q) == (if q == entry.0@ {
            Some(entry.1)
        } else {
            spec_id_lookup(s, q)
        }),
    decreases s.len(),
{
    let t = s.push(entry);
    if s.len() == 0 {
        assert(t[0] == entry);
        assert(t.drop_first() =~= Seq::<(String, usize)>::empty());
        if q == entry.0@ {
            assert(spec_id_lookup(t, q) == Some(entry.1));
        } else {
            assert(spec_id_lookup(t, q) == spec_id_lookup(t.drop_first(), q));
            assert(spec_id_lookup(Seq::<(String, usize)>::empty(), q) is None);
            assert(spec_id_lookup(s, q) is None);
        }
    } else {
        assert(t[0] == s[0]);
        assert(s[0].0@ != entry.0@);
        assert(t.drop_first() =~= s.drop_first().push(entry));
        lemma_id_lookup_push(s.drop_first(), entry, q);
        if q == s[0].0@ {
            assert(spec_id_lookup(t, q) == Some(s[0].1));
            assert(spec_id_lookup(s, q) == Some(s[0].1));
        } else {
            assert(spec_id_lookup(t, q) == spec_id_lookup(s.drop_first().push(entry), q));
            assert(spec_id_lookup(s, q) == spec_id_lookup(s.drop_first(), q));
        }
    }
}

/// The registry: element ids of the current document, and the cache of
/// externally loaded documents.
#[derive(Debug, Clone, PartialEq)]
pub struct Defs {
    nodes: Vec<(String, usize)>,
    externs: Vec<(String, Option<ExternDocument>)>,
}

impl Defs {
    /// The id table, for specification purposes.
    pub closed spec fn nodes_view(&self) -> Seq<(String, usize)> {
        self.nodes@
    }

    /// The extern cache, for specification purposes.
    pub closed spec fn externs_view(&self) -> Seq<(String, Option<ExternDocument>)> {
        self.externs@
    }

    /// Ids are unique within the document, and each canonical URL has at
    /// most one cache slot.
    pub open spec fn wf(&self) -> bool {
        (forall|i: int, j: int|
            0 <= i < j < self.nodes_view().len() ==> self.nodes_view()[i].0@
                != self.nodes_view()[j].0@) && (forall|i: int, j: int|
            0 <= i < j < self.externs_view().len() ==> self.externs_view()[i].0@
                != self.externs_view()[j].0@)
    }

    /// An empty registry.
    pub fn new() -> (r: Defs)
        ensures
            r.nodes_view() == Seq::<(String, usize)>::empty(),
            r.externs_view() == Seq::<(String, Option<ExternDocument>)>::empty(),
            r.wf(),
    {
        Defs { nodes: Vec::new(), externs: Vec::new() }
    }

    /// Registers `node` under `id` only if `id` is not already present:
    /// the first writer wins, later duplicates are ignored.
    pub fn insert(&mut self, id: &str, node: usize)
        requires
            old(self).wf(),
        ensures
            final(self).wf(),
            final(self).externs_view() == old(self).externs_view(),
            spec_id_lookup(old(self).nodes_view(), id@) is Some ==> final(self).nodes_view()
                == old(self).nodes_view(),
            forall|q: Seq<char>|
                #[trigger] spec_id_lookup(final(self).nodes_view(), q) == (if q == id@
                    && spec_id_lookup(old(self).nodes_view(), id@) is None {
                    Some(node)
                } else {
                    spec_id_lookup(old(self).nodes_view(), q)
                }),
    {
        proof {
            assert(self.nodes@.skip(0) =~= self.nodes@);
        }
        let ghost pre = *self;
        match id_lookup(&self.nodes, 0, id) {
            Some(_) => {},
            None => {
                let entry = (String::from_str(id), node);
                proof {
                    lemma_id_lookup_absent(self.nodes@, id@);
                }
                let ghost s0 = self.nodes@;
                self.nodes.push(entry);
                proof {
                    assert(entry.0@ == id@);
                    assert forall|i: int, j: int|
                        0 <= i < j < self.nodes_view().len() implies self.nodes_view()[i].0@
                        != self.nodes_view()[j].0@ by {
                        assert(self.nodes_view() == self.nodes@);
                        if j < s0.len() {
                            assert(self.nodes@[i] == s0[i] && self.nodes@[j] == s0[j]);
                            assert(s0 == old(self).nodes_view());
                        } else {
                            assert(self.nodes@[i] == s0[i] && self.nodes@[j] == entry);
                            assert(s0 == old(self).nodes_view());
                        }
                    }
                    assert forall|q: Seq<char>| #[trigger] spec_id_lookup(self.nodes@, q) == (if q
                        == id@ {
                        Some(node)
                    } else {
                        spec_id_lookup(s0, q)
                    }) by {
                        lemma_id_lookup_push(s0, entry, q);
                    }
                }
            },
        }
        proof {
            assert forall|i: int, j: int|
                0 <= i < j < self.externs_view().len() implies self.externs_view()[i].0@
                != self.externs_view()[j].0@ by {
                assert(self.externs_view()[i] == pre.externs_view()[i]);
                assert(self.externs_view()[j] == pre.externs_view()[j]);
            }
        }
    }

    /// Returns the node a reference resolves to, or `None`.
    ///
    /// A plain URI is a resource reference, never an element reference.
    /// A fragment resolves in this document; a URI plus fragment resolves
    /// in the external document the URI loads, reusing a cached load (even
    /// a failed one) and caching the outcome otherwise.  Every failure
    /// along the way yields `None`.
    pub fn lookup(&mut self, env: &ReferenceEnv, reference: &Href) -> (r: Option<NodeRef>)
        requires
            old(self).wf(),
        ensures
            final(self).wf(),
            final(self).nodes_view() == old(self).nodes_view(),
            r == spec_lookup_result(
                old(self).nodes_view(),
                old(self).externs_view(),
                *env,
                reference@,
            ),
            match reference@ {
                crate::href::HrefShape::UriWithFragmentId(u, f) => match crate::css
                    ::spec_allowed_lookup(env.allowed@, u) {
                    Some(canon) => match spec_extern_lookup(old(self).externs_view(), canon) {
                        Some(_) => final(self).externs_view() == old(self).externs_view(),
                        None => final(self).externs_view() == old(self).externs_view().push(
                            final(self).externs_view().last(),
                        ) && final(self).externs_view().last().0@ == canon && spec_doc_ids(
                            final(self).externs_view().last().1,
                        ) == spec_doc_ids(spec_doc_lookup(env.documents@, canon)),
                    },
                    None => final(self).externs_view() == old(self).externs_view(),
                },
                _ => final(self).externs_view() == old(self).externs_view(),
            },
    {
        match reference {
            Href::PlainUri(_) => None,
            Href::FragmentId(f) => {
                proof {
                    assert(self.nodes@.skip(0) =~= self.nodes@);
                }
                match id_lookup(&self.nodes, 0, f.as_str()) {
                    Some(ix) => Some(NodeRef::Local(ix)),
                    None => None,
                }
            },
            Href::UriWithFragmentId(u, f) => {
                match self.get_extern_doc(env, u.as_str()) {
                    Some(ix) => {
                        match &self.externs[ix].1 {
                            Some(doc) => {
                                proof {
                                    assert(doc.ids@.skip(0) =~= doc.ids@);
                                }
                                match ext_id_lookup(&doc.ids, 0, f.as_str()) {
                                    Some(h) => Some(NodeRef::External(h)),
                                    None => None,
                                }
                            },
                            None => None,
                        }
                    },
                    None => None,
                }
            },
        }
    }

    /// Resolves an external URI to a cache slot, loading and caching on
    /// first use (a failed load is cached too, so nothing is retried and a
    /// cyclic re-entry finds the marker rather than recursing).
    fn get_extern_doc(&mut self, env: &ReferenceEnv, href: &str) -> (r: Option<usize>)
        requires
            old(self).wf(),
        ensures
            final(self).wf(),
            final(self).nodes_view() == old(self).nodes_view(),
            match r {
                Some(ix) => ix < final(self).externs_view().len()
                    && final(self).externs_view()[ix as int].1 is Some && spec_doc_ids(
                    final(self).externs_view()[ix as int].1,
                ) == spec_doc_ids(spec_resolve_extern(old(self).externs_view(), *env, href@)),
                None => spec_resolve_extern(old(self).externs_view(), *env, href@) is None,
            },
            match crate::css::spec_allowed_lookup(env.allowed@, href@) {
                Some(canon) => match spec_extern_lookup(old(self).externs_view(), canon) {
                    Some(_) => final(self).externs_view() == old(self).externs_view(),
                    None => final(self).externs_view() == old(self).externs_view().push(
                        final(self).externs_view().last(),
                    ) && final(self).externs_view().last().0@ == canon && spec_doc_ids(
                        final(self).externs_view().last().1,
                    ) == spec_doc_ids(spec_doc_lookup(env.documents@, canon)),
                },
                None => final(self).externs_view() == old(self).externs_view(),
            },
    {
        proof {
            assert(env.allowed@.skip(0) =~= env.allowed@);
            assert(env.documents@.skip(0) =~= env.documents@);
            assert(self.externs@.skip(0) =~= self.externs@);
        }
        let ghost pre = *self;
        proof {
            assert forall|i: int, j: int|
                0 <= i < j < self.nodes_view().len() implies self.nodes_view()[i].0@
                != self.nodes_view()[j].0@ by {
                assert(self.nodes_view()[i] == pre.nodes_view()[i]);
                assert(self.nodes_view()[j] == pre.nodes_view()[j]);
            }
        }
        let canon = match crate::css::allowed_lookup(&env.allowed, 0, href) {
            Some(c) => c,
            None => {
                return None;
            },
        };
        match extern_index(&self.externs, 0, canon.as_str()) {
            Some(ix) => {
                match &self.externs[ix].1 {
                    Some(_) => Some(ix),
                    None => None,
                }
            },
            None => {
                let loaded = match doc_index(&env.documents, 0, canon.as_str()) {
                    Some(dx) => Some(env.documents[dx].1.clone_doc()),
                    None => None,
                };
                let entry = (canon, loaded);
                let ix = self.externs.len();
                let ghost e0 = self.externs@;
                self.externs.push(entry);
                proof {
                    assert(self.externs@.last().0@ == entry.0@);
                    lemma_extern_lookup_absent(e0, entry.0@);
                    assert forall|i: int, j: int|
                        0 <= i < j < self.externs_view().len() implies self.externs_view()[i].0@
                        != self.externs_view()[j].0@ by {
                        assert(self.externs_view() == self.externs@);
                        if j < e0.len() {
                            assert(self.externs@[i] == e0[i] && self.externs@[j] == e0[j]);
                            assert(e0 == old(self).externs_view());
                        } else {
                            assert(self.externs@[i] == e0[i] && self.externs@[j] == entry);
                            assert(e0 == old(self).externs_view());
                        }
                    }
                }
                match &self.externs[ix].1 {
                    Some(_) => Some(ix),
                    None => None,
                }
            },
        }
    }
}

impl ExternDocument {
    /// An exact copy of the id table.
    pub fn clone_doc(&self) -> (r: ExternDocument)
        ensures
            r.ids@ == self.ids@,
    {
        let mut ids: Vec<(String, u64)> = Vec::new();
        let n = self.ids.len();
        let mut i: usize = 0;
        while i < n
            invariant
                i <= n,
                n == self.ids@.len(),
                ids@ == self.ids@.subrange(0, i as int),
            decreases n - i,
        {
            let entry = (self.ids[i].0.clone(), self.ids[i].1);
            proof {
                assert(entry == self.ids@[i as int]);
            }
            ids.push(entry);
            i = i + 1;
            proof {
                assert(ids@ =~= self.ids@.subrange(0, i as int));
            }
        }
        proof {
            assert(ids@ =~= self.ids@);
        }
        ExternDocument { ids }
    }
}

} // verus!
