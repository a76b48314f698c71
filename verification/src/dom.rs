//! The document that a session works on.
use crate::store;
use crate::store::{doc_tree, element_key, package_tree};
use crate::tree::Tree;
use sxd_document::dom::{Document, Element};
use sxd_document::Package;
use vstd::prelude::*;

verus! {

/// A package that holds a root and nothing else.
pub fn new_package() -> (p: Package)
    ensures
        package_tree(p).is_fresh(),
        package_tree(p).wf(),
{
    store::package_new()
}

/// The keys of the elements in `marked`.
pub open spec fn keys_marked(marked: Seq<Element<'_>>) -> Set<int> {
    marked.map_values(|e: Element| element_key(e)).to_set()
}

/// The document of one package, for one session. Whatever reads or changes
/// the document takes it, so that what the document holds is known at every
/// step. There is one for a package at a time, and no copy of it.
///
/// The store has no place for the mark of a template, so the session keeps
/// the elements that were made as templates beside the document.
#[derive(Debug)]
pub struct Dom<'d> {
    pub(crate) document: Document<'d>,
    pub(crate) marked: Vec<Element<'d>>,
}

impl<'d> Dom<'d> {
    /// What the document holds at this moment.
    pub open(crate) spec fn tree(&self) -> Tree {
        doc_tree(self.document)
    }

    /// The keys of the elements that were made as templates in this
    /// session.
    pub open(crate) spec fn templates(&self) -> Set<int> {
        keys_marked(self.marked@)
    }

    /// The document hangs together, and every template of the session is
    /// an element of it.
    pub open spec fn wf(&self) -> bool {
        &&& self.tree().wf()
        &&& self.templates().subset_of(self.tree().names.dom())
    }

    /// The document of `package`, at the start of a session: no element was
    /// made as a template yet. The package is borrowed for as long as the
    /// document is in use.
    pub fn open(package: &'d mut Package) -> (dom: Self)
        ensures
            dom.tree() == package_tree(*old(package)),
            dom.templates() == Set::<int>::empty(),
    {
        let dom = Dom { document: store::package_document(package), marked: Vec::new() };
        assert(dom.templates() =~= Set::<int>::empty());
        dom
    }

    /// The document itself, for whoever reads it with `sxd_document`.
    ///
    /// What comes back is a copy of the handle of the living document, not
    /// of what the document holds: the clause says what the document held
    /// when the copy was handed out, and nothing of what is read through
    /// the copy after the document was changed.
    pub fn document(&self) -> (d: Document<'d>)
        ensures
            doc_tree(d) == self.tree(),
    {
        self.document
    }

    /// Whether the element was made as a template in this session.
    pub fn is_template(&self, e: &Element<'d>) -> (r: bool)
        ensures
            r == self.templates().contains(element_key(*e)),
    {
        let ghost keys = self.marked@.map_values(|e: Element| element_key(e));
        let mut i: usize = 0;
        while i < self.marked.len()
            invariant
                0 <= i <= self.marked.len(),
                keys == self.marked@.map_values(|e: Element| element_key(e)),
                forall|j: int| 0 <= j < i ==> keys[j] != element_key(*e),
            decreases self.marked.len() - i,
        {
            if store::same_element(&self.marked[i], e) {
                assert(keys[i as int] == element_key(*e));
                return true;
            }
            i += 1;
        }
        false
    }

    /// Takes note that the element was made as a template.
    pub(crate) fn mark_template(&mut self, e: Element<'d>)
        ensures
            final(self).tree() == old(self).tree(),
            final(self).templates() == old(self).templates().insert(element_key(e)),
    {
        self.marked.push(e);
        proof {
            let f = |e: Element| element_key(e);
            assert(final(self).marked@.map_values(f) =~= old(self).marked@.map_values(f).push(
                element_key(e),
            ));
            let before = old(self).marked@.map_values(f);
            assert forall|k: int|
                before.push(element_key(e)).to_set().contains(k) <==> before.to_set().insert(
                    element_key(e),
                ).contains(k) by {
                if before.push(element_key(e)).contains(k) {
                    let i = choose|i: int|
                        0 <= i < before.len() + 1 && before.push(element_key(e))[i] == k;
                    if i < before.len() {
                        assert(before[i] == k);
                    }
                }
                if before.contains(k) {
                    let i = choose|i: int| 0 <= i < before.len() && before[i] == k;
                    assert(before.push(element_key(e))[i] == k);
                }
                if k == element_key(e) {
                    assert(before.push(element_key(e))[before.len() as int] == k);
                }
            }
            assert(final(self).templates() =~= old(self).templates().insert(element_key(e)));
        }
    }
}

} // verus!
