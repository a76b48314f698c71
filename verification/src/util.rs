//! Between the parser's values and the document's: the two directions
//! between their names, and what the parser hands over as nodes of the
//! document.
use crate::dom::Dom;
use crate::handle::{ChildOfElement, ChildOfRoot, NodeOrText, ParentOfChild};
use crate::name::{QName, QNameView, QualName, QualNameView};
use crate::store;
use vstd::prelude::*;

verus! {

/// The parser's name for a document name: no prefix, the namespace (empty
/// where there is none) and the local part.
pub open spec fn qualname_of(q: QNameView) -> QualNameView {
    QualNameView {
        prefix: None,
        ns: match q.namespace_uri {
            Some(ns) => ns,
            None => Seq::empty(),
        },
        local: q.local_part,
    }
}

/// The document's name for a parser's name: the local name alone.
pub open spec fn qname_of(q: QualNameView) -> QNameView {
    QNameView { namespace_uri: None, local_part: q.local }
}

/// Turns a document name into a parser's name.
pub fn qualname_from_qname(qname: QName) -> (q: QualName)
    ensures
        q@ == qualname_of(qname@),
{
    let ns = match qname.namespace_uri {
        Some(ns) => ns,
        None => String::new(),
    };
    QualName::new(None, ns, qname.local_part)
}

/// Turns a parser's name into a document name. The namespace is dropped.
pub fn qualname_as_qname(qualname: &QualName) -> (q: QName)
    ensures
        q@ == qname_of(qualname@),
{
    QName::with_namespace_uri(None, qualname.local.clone())
}

/// A name that went from the document to the parser comes back with its
/// local part, and without a namespace.
pub proof fn lemma_qname_round_trip(q: QNameView)
    ensures
        qname_of(qualname_of(q)) == (QNameView { namespace_uri: None, local_part: q.local_part }),
{
}

/// What the parser hands over, as a child of the root. Text is none.
pub fn node_or_text_into_child_of_root<'d>(node_or_text: NodeOrText<'d>) -> (c: ChildOfRoot<'d>)
    requires
        node_or_text matches NodeOrText::AppendNode(h) && h.is_markup(),
    ensures
        c == node_or_text->AppendNode_0.child_of_root(),
        c.key() == node_or_text->AppendNode_0.key(),
{
    match node_or_text {
        NodeOrText::AppendNode(handle) => match ChildOfRoot::try_from(handle) {
            Ok(c) => c,
            Err(_) => unreached(),
        },
        NodeOrText::AppendText(_) => unreached(),
    }
}

/// What the parser hands over, as a child of an element. For text, a new
/// text node is made in the document.
pub fn node_or_text_into_child_of_element<'d>(
    dom: &mut Dom<'d>,
    node_or_text: NodeOrText<'d>,
) -> (c: ChildOfElement<'d>)
    requires
        node_or_text matches NodeOrText::AppendNode(h) ==> h.is_markup(),
    ensures
        final(dom).templates() == old(dom).templates(),
        match node_or_text {
            NodeOrText::AppendNode(h) => {
                &&& c == h.child_of_root().child_of_element()
                &&& c.key() == h.key()
                &&& final(dom).tree() == old(dom).tree()
            },
            NodeOrText::AppendText(s) => {
                &&& c matches ChildOfElement::Text(t)
                &&& !old(dom).tree().has(c.key())
                &&& final(dom).tree() == old(dom).tree().with_text(c.key(), s@)
            },
        },
{
    match node_or_text {
        NodeOrText::AppendNode(handle) => match ChildOfElement::try_from(handle) {
            Ok(c) => c,
            Err(_) => unreached(),
        },
        NodeOrText::AppendText(text) => ChildOfElement::Text(
            store::create_text(&mut dom.document, text.as_str()),
        ),
    }
}

/// Takes a child out of its parent.
pub fn child_of_element_remove_from_parent<'d>(dom: &mut Dom<'d>, coe: &ChildOfElement<'d>)
    requires
        coe.in_tree(old(dom).tree()),
    ensures
        final(dom).tree() == old(dom).tree().detach(coe.key()),
        final(dom).templates() == old(dom).templates(),
{
    match coe {
        ChildOfElement::Element(x) => store::element_remove_from_parent(&mut dom.document, x),
        ChildOfElement::Text(x) => store::text_remove_from_parent(&mut dom.document, x),
        ChildOfElement::Comment(x) => store::comment_remove_from_parent(&mut dom.document, x),
        ChildOfElement::ProcessingInstruction(x) => store::instruction_remove_from_parent(
            &mut dom.document,
            x,
        ),
    }
}

/// Makes what the parser hands over the last child of `poc`. Text becomes a
/// new text node, whatever stands before it.
pub fn parent_of_child_append_node_or_text<'d>(
    dom: &mut Dom<'d>,
    poc: &ParentOfChild<'d>,
    noe: NodeOrText<'d>,
)
    requires
        poc.in_tree(old(dom).tree()),
        noe.fits(old(dom).tree()),
        poc is Root ==> noe is AppendNode,
    ensures
        final(dom).templates() == old(dom).templates(),
        match noe {
            NodeOrText::AppendNode(h) => final(dom).tree() == (if poc is Root {
                old(dom).tree().attach_root(h.key())
            } else {
                old(dom).tree().attach(poc.key(), h.key())
            }),
            NodeOrText::AppendText(s) => old(dom).tree().text_added(
                final(dom).tree(),
                poc.key(),
                s@,
            ),
        },
{
    match poc {
        ParentOfChild::Root(r) => {
            let c = node_or_text_into_child_of_root(noe);
            store::root_append_child(&mut dom.document, r, &c)
        },
        ParentOfChild::Element(e) => {
            let c = node_or_text_into_child_of_element(dom, noe);
            store::element_append_child(&mut dom.document, e, &c)
        },
    }
}

} // verus!
