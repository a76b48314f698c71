//! The document store: `sxd_document`, as Verus is told of it.
//!
//! Nothing in this file is proved. Each function here makes one call into
//! `sxd_document`, and its contract says, over [`doc_tree`], what that call
//! does to the document; the types are those of `sxd_document`, of which
//! Verus sees no more than that they exist.
//!
//! [`doc_tree`] of a document is what its store holds at the moment: the
//! nodes that were made in it, each under its key, with the children and
//! the parent that the store records for them. The key of a handle is the
//! identity of the node it points to: two handles have one key where `==` of
//! `sxd_document` holds of them. So a clause such as
//! `doc_tree(d).is_element(element_key(e))` says that `e` is an element of
//! the store of `d`.
//!
//! A node handle of `sxd_document` holds a pointer into the store, and the
//! methods that change a document take a shared reference. Verus knows
//! neither. So every function here takes the [`Document`] besides the node,
//! though the call itself needs the node alone: by `&mut` where the call
//! changes the store, so that [`doc_tree`] may differ before and after, by
//! `&` where it only reads. The library keeps the one `Document` of a
//! session in a [`crate::dom::Dom`], which cannot be copied.
use crate::handle::{keys_of, ChildOfElement, ChildOfRoot, ParentOfChild};
use crate::name::QName;
use crate::tree::Tree;
use sxd_document::dom;
use sxd_document::dom::{Comment, Document, Element, ProcessingInstruction, Root, Text};
use sxd_document::Package;
use vstd::prelude::*;

verus! {

/// `sxd_document::Package`: the owner of a document and all its nodes.
#[verifier::external_type_specification]
#[verifier::external_body]
pub struct ExPackage(Package);

/// `sxd_document::dom::Document`: a package as it is read and changed.
#[verifier::external_type_specification]
#[verifier::external_body]
pub struct ExDocument<'d>(Document<'d>);

/// `sxd_document::dom::Root`: the handle of the root of a document.
#[verifier::external_type_specification]
#[verifier::external_body]
pub struct ExRoot<'d>(Root<'d>);

/// `sxd_document::dom::Element`: the handle of an element.
#[verifier::external_type_specification]
#[verifier::external_body]
pub struct ExElement<'d>(Element<'d>);

/// `sxd_document::dom::Text`: the handle of a text node.
#[verifier::external_type_specification]
#[verifier::external_body]
pub struct ExText<'d>(Text<'d>);

/// `sxd_document::dom::Comment`: the handle of a comment.
#[verifier::external_type_specification]
#[verifier::external_body]
pub struct ExComment<'d>(Comment<'d>);

/// `sxd_document::dom::ProcessingInstruction`: the handle of a processing
/// instruction.
#[verifier::external_type_specification]
#[verifier::external_body]
pub struct ExProcessingInstruction<'d>(ProcessingInstruction<'d>);

/// What the package holds at this moment.
pub uninterp spec fn package_tree(p: Package) -> Tree;

/// What the document holds at this moment.
pub uninterp spec fn doc_tree(d: Document<'_>) -> Tree;

/// The key of the node that a `Root` refers to.
pub uninterp spec fn root_key(r: Root<'_>) -> int;

/// The key of the node that an `Element` refers to.
pub uninterp spec fn element_key(e: Element<'_>) -> int;

/// The key of the node that a `Text` refers to.
pub uninterp spec fn text_key(t: Text<'_>) -> int;

/// The key of the node that a `Comment` refers to.
pub uninterp spec fn comment_key(c: Comment<'_>) -> int;

/// The key of the node that a `ProcessingInstruction` refers to.
pub uninterp spec fn instruction_key(p: ProcessingInstruction<'_>) -> int;

/// `Package::new`: a package that holds a root and nothing else.
#[verifier::external_body]
pub(crate) fn package_new() -> (p: Package)
    ensures
        package_tree(p).is_fresh(),
{
    Package::new()
}

/// `Package::as_document`: the document of the package. It holds what the
/// package holds. The package is borrowed for as long as the document
/// lives, so that no second document of it is at hand meanwhile.
#[verifier::external_body]
pub(crate) fn package_document<'d>(p: &'d mut Package) -> (d: Document<'d>)
    ensures
        doc_tree(d) == package_tree(*old(p)),
{
    p.as_document()
}

/// `Document::root`: the handle of the document's root.
#[verifier::external_body]
pub(crate) fn document_root<'d>(doc: &Document<'d>) -> (r: Root<'d>)
    ensures
        root_key(r) == doc_tree(*doc).root,
{
    doc.root()
}

/// `Document::create_element`: a new element of the given name, without
/// attributes, children or parent. Its key was no node's before.
#[verifier::external_body]
pub(crate) fn create_element<'d>(doc: &mut Document<'d>, name: &QName) -> (e: Element<'d>)
    ensures
        !doc_tree(*old(doc)).has(element_key(e)),
        doc_tree(*final(doc)) == doc_tree(*old(doc)).with_element(element_key(e), name@),
{
    doc.create_element(
        sxd_document::QName::with_namespace_uri(name.namespace_uri.as_deref(), &name.local_part),
    )
}

/// `Document::create_text`: a new text node that holds `text`, without
/// parent. Its key was no node's before.
#[verifier::external_body]
pub(crate) fn create_text<'d>(doc: &mut Document<'d>, text: &str) -> (t: Text<'d>)
    ensures
        !doc_tree(*old(doc)).has(text_key(t)),
        doc_tree(*final(doc)) == doc_tree(*old(doc)).with_text(text_key(t), text@),
{
    doc.create_text(text)
}

/// `Document::create_comment`: a new comment that holds `text`, without
/// parent. Its key was no node's before.
#[verifier::external_body]
pub(crate) fn create_comment<'d>(doc: &mut Document<'d>, text: &str) -> (c: Comment<'d>)
    ensures
        !doc_tree(*old(doc)).has(comment_key(c)),
        doc_tree(*final(doc)) == doc_tree(*old(doc)).with_comment(comment_key(c), text@),
{
    doc.create_comment(text)
}

/// `Document::create_processing_instruction`: a new processing instruction
/// with the given target and data, without parent. Its key was no node's
/// before.
#[verifier::external_body]
pub(crate) fn create_processing_instruction<'d>(
    doc: &mut Document<'d>,
    target: &str,
    data: Option<&str>,
) -> (p: ProcessingInstruction<'d>)
    ensures
        !doc_tree(*old(doc)).has(instruction_key(p)),
        doc_tree(*final(doc)) == doc_tree(*old(doc)).with_instruction(
            instruction_key(p),
            target@,
            match data {
                Some(d) => Some(d@),
                None => None,
            },
        ),
{
    doc.create_processing_instruction(target, data)
}

/// `Root::append_child`: the child becomes the last child of the root. It
/// leaves the children of the parent it recorded; where it is an element,
/// the elements among the root's children leave first.
#[allow(unused_variables)]
#[verifier::external_body]
pub(crate) fn root_append_child<'d>(doc: &mut Document<'d>, root: &Root<'d>, child: &ChildOfRoot<'d>)
    requires
        root_key(*root) == doc_tree(*old(doc)).root,
        child.in_tree(doc_tree(*old(doc))),
    ensures
        doc_tree(*final(doc)) == doc_tree(*old(doc)).attach_root(child.key()),
{
    match child {
        ChildOfRoot::Element(e) => root.append_child(*e),
        ChildOfRoot::Comment(c) => root.append_child(*c),
        ChildOfRoot::ProcessingInstruction(p) => root.append_child(*p),
    }
}

/// `Root::children`: the children of the root, in order, each under the
/// variant of its kind.
#[allow(unused_variables)]
#[verifier::external_body]
pub(crate) fn root_children<'d>(doc: &Document<'d>, root: &Root<'d>) -> (r: Vec<ChildOfRoot<'d>>)
    requires
        root_key(*root) == doc_tree(*doc).root,
    ensures
        r@.map_values(|c: ChildOfRoot| c.key()) == doc_tree(*doc).children[root_key(*root)],
        forall|i: int| 0 <= i < r.len() ==> (#[trigger] r[i]).in_tree(doc_tree(*doc)),
{
    root.children().into_iter().map(|c| match c {
        dom::ChildOfRoot::Element(x) => ChildOfRoot::Element(x),
        dom::ChildOfRoot::Comment(x) => ChildOfRoot::Comment(x),
        dom::ChildOfRoot::ProcessingInstruction(x) => ChildOfRoot::ProcessingInstruction(x),
    }).collect()
}

/// `Element::append_child`: the child becomes the last child of the element.
/// It leaves the children of the parent it recorded.
#[allow(unused_variables)]
#[verifier::external_body]
pub(crate) fn element_append_child<'d>(
    doc: &mut Document<'d>,
    parent: &Element<'d>,
    child: &ChildOfElement<'d>,
)
    requires
        doc_tree(*old(doc)).is_element(element_key(*parent)),
        child.in_tree(doc_tree(*old(doc))),
    ensures
        doc_tree(*final(doc)) == doc_tree(*old(doc)).attach(element_key(*parent), child.key()),
{
    match child {
        ChildOfElement::Element(e) => parent.append_child(*e),
        ChildOfElement::Text(t) => parent.append_child(*t),
        ChildOfElement::Comment(c) => parent.append_child(*c),
        ChildOfElement::ProcessingInstruction(p) => parent.append_child(*p),
    }
}

/// `Element::children`: the children of the element, in order, each under
/// the variant of its kind.
#[allow(unused_variables)]
#[verifier::external_body]
pub(crate) fn element_children<'d>(doc: &Document<'d>, e: &Element<'d>) -> (r: Vec<
    ChildOfElement<'d>,
>)
    requires
        doc_tree(*doc).is_element(element_key(*e)),
    ensures
        keys_of(r@) == doc_tree(*doc).children[element_key(*e)],
        forall|i: int| 0 <= i < r.len() ==> (#[trigger] r[i]).in_tree(doc_tree(*doc)),
{
    e.children().into_iter().map(|c| match c {
        dom::ChildOfElement::Element(x) => ChildOfElement::Element(x),
        dom::ChildOfElement::Text(x) => ChildOfElement::Text(x),
        dom::ChildOfElement::Comment(x) => ChildOfElement::Comment(x),
        dom::ChildOfElement::ProcessingInstruction(x) => ChildOfElement::ProcessingInstruction(x),
    }).collect()
}

/// `Element::clear_children`: the element has no children any more, and each
/// of those it had records no parent.
#[allow(unused_variables)]
#[verifier::external_body]
pub(crate) fn element_clear_children<'d>(doc: &mut Document<'d>, e: &Element<'d>)
    requires
        doc_tree(*old(doc)).is_element(element_key(*e)),
    ensures
        doc_tree(*final(doc)) == doc_tree(*old(doc)).cleared(element_key(*e)),
{
    e.clear_children()
}

/// `Element::set_attribute_value`: the attribute of that name has that
/// value, whether the element had one of that name or not.
#[allow(unused_variables)]
#[verifier::external_body]
pub(crate) fn element_set_attribute_value<'d>(
    doc: &mut Document<'d>,
    e: &Element<'d>,
    name: &QName,
    value: &str,
)
    requires
        doc_tree(*old(doc)).is_element(element_key(*e)),
    ensures
        doc_tree(*final(doc)) == doc_tree(*old(doc)).with_attr(element_key(*e), name@, value@),
{
    e.set_attribute_value(
        sxd_document::QName::with_namespace_uri(name.namespace_uri.as_deref(), &name.local_part),
        value,
    );
}

/// `Element::attribute_value`: the value of the attribute of that name, if
/// the element has one.
#[allow(unused_variables)]
#[verifier::external_body]
pub(crate) fn element_attribute_value<'d>(doc: &Document<'d>, e: &Element<'d>, name: &QName) -> (r:
    Option<String>)
    requires
        doc_tree(*doc).is_element(element_key(*e)),
    ensures
        match r {
            Some(v) => doc_tree(*doc).attrs[element_key(*e)].dom().contains(name@) && v@
                == doc_tree(*doc).attrs[element_key(*e)][name@],
            None => !doc_tree(*doc).attrs[element_key(*e)].dom().contains(name@),
        },
{
    e.attribute_value(
        sxd_document::QName::with_namespace_uri(name.namespace_uri.as_deref(), &name.local_part),
    ).map(|v| v.to_string())
}

/// `Element::name`: the name of the element.
#[allow(unused_variables)]
#[verifier::external_body]
pub(crate) fn element_name<'d>(doc: &Document<'d>, e: &Element<'d>) -> (r: QName)
    requires
        doc_tree(*doc).is_element(element_key(*e)),
    ensures
        r@ == doc_tree(*doc).names[element_key(*e)],
{
    let name = e.name();
    QName {
        namespace_uri: name.namespace_uri().map(|s| s.to_string()),
        local_part: name.local_part().to_string(),
    }
}

/// What a call of `parent` on the node of key `k` returns under `t`.
pub open spec fn parent_result(t: Tree, k: int, r: Option<ParentOfChild<'_>>) -> bool {
    match r {
        Some(p) => t.parent.dom().contains(k) && p.key() == t.parent[k] && p.in_tree(t),
        None => !t.parent.dom().contains(k),
    }
}

/// `Element::parent`: the parent that the element records, under the
/// variant of its kind.
#[allow(unused_variables)]
#[verifier::external_body]
pub(crate) fn element_parent<'d>(doc: &Document<'d>, e: &Element<'d>) -> (r: Option<
    ParentOfChild<'d>,
>)
    requires
        doc_tree(*doc).is_element(element_key(*e)),
    ensures
        parent_result(doc_tree(*doc), element_key(*e), r),
{
    e.parent().map(|p| match p {
        dom::ParentOfChild::Root(x) => ParentOfChild::Root(x),
        dom::ParentOfChild::Element(x) => ParentOfChild::Element(x),
    })
}

/// `Comment::parent`: the parent that the comment records, under the
/// variant of its kind.
#[allow(unused_variables)]
#[verifier::external_body]
pub(crate) fn comment_parent<'d>(doc: &Document<'d>, c: &Comment<'d>) -> (r: Option<
    ParentOfChild<'d>,
>)
    requires
        doc_tree(*doc).is_comment(comment_key(*c)),
    ensures
        parent_result(doc_tree(*doc), comment_key(*c), r),
{
    c.parent().map(|p| match p {
        dom::ParentOfChild::Root(x) => ParentOfChild::Root(x),
        dom::ParentOfChild::Element(x) => ParentOfChild::Element(x),
    })
}

/// `ProcessingInstruction::parent`: the parent that the processing
/// instruction records, under the variant of its kind.
#[allow(unused_variables)]
#[verifier::external_body]
pub(crate) fn instruction_parent<'d>(doc: &Document<'d>, p: &ProcessingInstruction<'d>) -> (r:
    Option<ParentOfChild<'d>>)
    requires
        doc_tree(*doc).is_instruction(instruction_key(*p)),
    ensures
        parent_result(doc_tree(*doc), instruction_key(*p), r),
{
    p.parent().map(|p| match p {
        dom::ParentOfChild::Root(x) => ParentOfChild::Root(x),
        dom::ParentOfChild::Element(x) => ParentOfChild::Element(x),
    })
}

/// `Text::parent`: the element that the text records as its parent.
#[allow(unused_variables)]
#[verifier::external_body]
pub(crate) fn text_parent<'d>(doc: &Document<'d>, t: &Text<'d>) -> (r: Option<Element<'d>>)
    requires
        doc_tree(*doc).is_text(text_key(*t)),
    ensures
        match r {
            Some(e) => doc_tree(*doc).parent.dom().contains(text_key(*t)) && element_key(e)
                == doc_tree(*doc).parent[text_key(*t)] && doc_tree(*doc).is_element(
                element_key(e),
            ),
            None => !doc_tree(*doc).parent.dom().contains(text_key(*t)),
        },
{
    t.parent()
}

/// What a call of `following_siblings` on the node of key `k` returns under
/// `t`.
pub open spec fn following_result(t: Tree, k: int, r: Seq<ChildOfElement<'_>>) -> bool {
    &&& keys_of(r) == t.following(k)
    &&& forall|i: int| 0 <= i < r.len() ==> (#[trigger] r[i]).in_tree(t)
}

/// `Element::following_siblings`: the nodes that stand after the element
/// among the children of the parent it records, in order; none where it
/// records no parent. The call panics where the element records a parent and
/// does not stand among its children.
#[allow(unused_variables)]
#[verifier::external_body]
pub(crate) fn element_following_siblings<'d>(doc: &Document<'d>, e: &Element<'d>) -> (r: Vec<
    ChildOfElement<'d>,
>)
    requires
        doc_tree(*doc).is_element(element_key(*e)),
        doc_tree(*doc).parent.dom().contains(element_key(*e)) ==> doc_tree(*doc).is_linked(
            element_key(*e),
        ),
    ensures
        following_result(doc_tree(*doc), element_key(*e), r@),
{
    e.following_siblings().into_iter().map(|c| match c {
        dom::ChildOfElement::Element(x) => ChildOfElement::Element(x),
        dom::ChildOfElement::Text(x) => ChildOfElement::Text(x),
        dom::ChildOfElement::Comment(x) => ChildOfElement::Comment(x),
        dom::ChildOfElement::ProcessingInstruction(x) => ChildOfElement::ProcessingInstruction(x),
    }).collect()
}

/// `Comment::following_siblings`: as for an element.
#[allow(unused_variables)]
#[verifier::external_body]
pub(crate) fn comment_following_siblings<'d>(doc: &Document<'d>, c: &Comment<'d>) -> (r: Vec<
    ChildOfElement<'d>,
>)
    requires
        doc_tree(*doc).is_comment(comment_key(*c)),
        doc_tree(*doc).parent.dom().contains(comment_key(*c)) ==> doc_tree(*doc).is_linked(
            comment_key(*c),
        ),
    ensures
        following_result(doc_tree(*doc), comment_key(*c), r@),
{
    c.following_siblings().into_iter().map(|c| match c {
        dom::ChildOfElement::Element(x) => ChildOfElement::Element(x),
        dom::ChildOfElement::Text(x) => ChildOfElement::Text(x),
        dom::ChildOfElement::Comment(x) => ChildOfElement::Comment(x),
        dom::ChildOfElement::ProcessingInstruction(x) => ChildOfElement::ProcessingInstruction(x),
    }).collect()
}

/// `ProcessingInstruction::following_siblings`: as for an element.
#[allow(unused_variables)]
#[verifier::external_body]
pub(crate) fn instruction_following_siblings<'d>(
    doc: &Document<'d>,
    p: &ProcessingInstruction<'d>,
) -> (r: Vec<ChildOfElement<'d>>)
    requires
        doc_tree(*doc).is_instruction(instruction_key(*p)),
        doc_tree(*doc).parent.dom().contains(instruction_key(*p)) ==> doc_tree(*doc).is_linked(
            instruction_key(*p),
        ),
    ensures
        following_result(doc_tree(*doc), instruction_key(*p), r@),
{
    p.following_siblings().into_iter().map(|c| match c {
        dom::ChildOfElement::Element(x) => ChildOfElement::Element(x),
        dom::ChildOfElement::Text(x) => ChildOfElement::Text(x),
        dom::ChildOfElement::Comment(x) => ChildOfElement::Comment(x),
        dom::ChildOfElement::ProcessingInstruction(x) => ChildOfElement::ProcessingInstruction(x),
    }).collect()
}

/// `Text::following_siblings`: as for an element.
#[allow(unused_variables)]
#[verifier::external_body]
pub(crate) fn text_following_siblings<'d>(doc: &Document<'d>, t: &Text<'d>) -> (r: Vec<
    ChildOfElement<'d>,
>)
    requires
        doc_tree(*doc).is_text(text_key(*t)),
        doc_tree(*doc).parent.dom().contains(text_key(*t)) ==> doc_tree(*doc).is_linked(
            text_key(*t),
        ),
    ensures
        following_result(doc_tree(*doc), text_key(*t), r@),
{
    t.following_siblings().into_iter().map(|c| match c {
        dom::ChildOfElement::Element(x) => ChildOfElement::Element(x),
        dom::ChildOfElement::Text(x) => ChildOfElement::Text(x),
        dom::ChildOfElement::Comment(x) => ChildOfElement::Comment(x),
        dom::ChildOfElement::ProcessingInstruction(x) => ChildOfElement::ProcessingInstruction(x),
    }).collect()
}

/// `Element::remove_from_parent`: the element leaves the children of the
/// parent it records, and records none. Nothing happens where it records
/// none.
#[allow(unused_variables)]
#[verifier::external_body]
pub(crate) fn element_remove_from_parent<'d>(doc: &mut Document<'d>, e: &Element<'d>)
    requires
        doc_tree(*old(doc)).is_element(element_key(*e)),
    ensures
        doc_tree(*final(doc)) == doc_tree(*old(doc)).detach(element_key(*e)),
{
    e.remove_from_parent()
}

/// `Comment::remove_from_parent`: as for an element.
#[allow(unused_variables)]
#[verifier::external_body]
pub(crate) fn comment_remove_from_parent<'d>(doc: &mut Document<'d>, c: &Comment<'d>)
    requires
        doc_tree(*old(doc)).is_comment(comment_key(*c)),
    ensures
        doc_tree(*final(doc)) == doc_tree(*old(doc)).detach(comment_key(*c)),
{
    c.remove_from_parent()
}

/// `ProcessingInstruction::remove_from_parent`: as for an element.
#[allow(unused_variables)]
#[verifier::external_body]
pub(crate) fn instruction_remove_from_parent<'d>(
    doc: &mut Document<'d>,
    p: &ProcessingInstruction<'d>,
)
    requires
        doc_tree(*old(doc)).is_instruction(instruction_key(*p)),
    ensures
        doc_tree(*final(doc)) == doc_tree(*old(doc)).detach(instruction_key(*p)),
{
    p.remove_from_parent()
}

/// `Text::remove_from_parent`: as for an element.
#[allow(unused_variables)]
#[verifier::external_body]
pub(crate) fn text_remove_from_parent<'d>(doc: &mut Document<'d>, t: &Text<'d>)
    requires
        doc_tree(*old(doc)).is_text(text_key(*t)),
    ensures
        doc_tree(*final(doc)) == doc_tree(*old(doc)).detach(text_key(*t)),
{
    t.remove_from_parent()
}

/// `Text::text`: the characters that the text node holds.
#[allow(unused_variables)]
#[verifier::external_body]
pub(crate) fn text_content<'d>(doc: &Document<'d>, t: &Text<'d>) -> (s: String)
    requires
        doc_tree(*doc).is_text(text_key(*t)),
    ensures
        s@ == doc_tree(*doc).text[text_key(*t)],
{
    t.text().to_string()
}

/// `Text::set_text`: the text node holds `s`.
#[allow(unused_variables)]
#[verifier::external_body]
pub(crate) fn text_set<'d>(doc: &mut Document<'d>, t: &Text<'d>, s: &str)
    requires
        doc_tree(*old(doc)).is_text(text_key(*t)),
    ensures
        doc_tree(*final(doc)) == doc_tree(*old(doc)).with_text(text_key(*t), s@),
{
    t.set_text(s)
}

/// `==` on `Root`: whether the two refer to the same node.
#[verifier::external_body]
pub(crate) fn same_root<'d>(a: &Root<'d>, b: &Root<'d>) -> (r: bool)
    ensures
        r == (root_key(*a) == root_key(*b)),
{
    a == b
}

/// `==` on `Element`: whether the two refer to the same node.
#[verifier::external_body]
pub(crate) fn same_element<'d>(a: &Element<'d>, b: &Element<'d>) -> (r: bool)
    ensures
        r == (element_key(*a) == element_key(*b)),
{
    a == b
}

/// `==` on `Text`: whether the two refer to the same node.
#[verifier::external_body]
pub(crate) fn same_text<'d>(a: &Text<'d>, b: &Text<'d>) -> (r: bool)
    ensures
        r == (text_key(*a) == text_key(*b)),
{
    a == b
}

/// `==` on `Comment`: whether the two refer to the same node.
#[verifier::external_body]
pub(crate) fn same_comment<'d>(a: &Comment<'d>, b: &Comment<'d>) -> (r: bool)
    ensures
        r == (comment_key(*a) == comment_key(*b)),
{
    a == b
}

/// `==` on `ProcessingInstruction`: whether the two refer to the same node.
#[verifier::external_body]
pub(crate) fn same_instruction<'d>(
    a: &ProcessingInstruction<'d>,
    b: &ProcessingInstruction<'d>,
) -> (r: bool)
    ensures
        r == (instruction_key(*a) == instruction_key(*b)),
{
    a == b
}

} // verus!
