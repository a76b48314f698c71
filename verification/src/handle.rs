//! References to the nodes of a document.
use crate::dom::Dom;
use crate::name::QualName;
use crate::outline::Item;
use crate::store;
use crate::store::{
    comment_key, element_key, following_result, instruction_key, parent_result, root_key,
    text_key,
};
use crate::util::{qname_of, qualname_from_qname, qualname_of};
use crate::tree::Tree;
use sxd_document::dom::{Comment, Element, ProcessingInstruction, Root, Text};
use vstd::prelude::*;

verus! {

/// A node that can be a child of the root.
#[derive(Debug, Clone, Copy, PartialEq)]
pub enum ChildOfRoot<'d> {
    Element(Element<'d>),
    Comment(Comment<'d>),
    ProcessingInstruction(ProcessingInstruction<'d>),
}

/// A node that can be a child of an element.
#[derive(Debug, Clone, Copy, PartialEq)]
pub enum ChildOfElement<'d> {
    Element(Element<'d>),
    Text(Text<'d>),
    Comment(Comment<'d>),
    ProcessingInstruction(ProcessingInstruction<'d>),
}

/// A node that can have children.
#[derive(Debug, Clone, Copy, PartialEq)]
pub enum ParentOfChild<'d> {
    Root(Root<'d>),
    Element(Element<'d>),
}

impl<'d> ChildOfRoot<'d> {
    /// The key of the node.
    pub open spec fn key(self) -> int {
        match self {
            ChildOfRoot::Element(e) => element_key(e),
            ChildOfRoot::Comment(c) => comment_key(c),
            ChildOfRoot::ProcessingInstruction(p) => instruction_key(p),
        }
    }

    /// The node is one of `t`, of the kind that the variant says.
    pub open spec fn in_tree(self, t: Tree) -> bool {
        match self {
            ChildOfRoot::Element(e) => t.is_element(element_key(e)),
            ChildOfRoot::Comment(c) => t.is_comment(comment_key(c)),
            ChildOfRoot::ProcessingInstruction(p) => t.is_instruction(instruction_key(p)),
        }
    }
}

impl<'d> ChildOfElement<'d> {
    /// The key of the node.
    pub open spec fn key(self) -> int {
        match self {
            ChildOfElement::Element(e) => element_key(e),
            ChildOfElement::Text(t) => text_key(t),
            ChildOfElement::Comment(c) => comment_key(c),
            ChildOfElement::ProcessingInstruction(p) => instruction_key(p),
        }
    }

    /// The node is one of `t`, of the kind that the variant says.
    pub open spec fn in_tree(self, t: Tree) -> bool {
        match self {
            ChildOfElement::Element(e) => t.is_element(element_key(e)),
            ChildOfElement::Text(x) => t.is_text(text_key(x)),
            ChildOfElement::Comment(c) => t.is_comment(comment_key(c)),
            ChildOfElement::ProcessingInstruction(p) => t.is_instruction(instruction_key(p)),
        }
    }
}

impl<'d> ParentOfChild<'d> {
    /// The key of the node.
    pub open spec fn key(self) -> int {
        match self {
            ParentOfChild::Root(r) => root_key(r),
            ParentOfChild::Element(e) => element_key(e),
        }
    }

    /// The node is one of `t`, of the kind that the variant says.
    pub open spec fn in_tree(self, t: Tree) -> bool {
        match self {
            ParentOfChild::Root(r) => root_key(r) == t.root,
            ParentOfChild::Element(e) => t.is_element(element_key(e)),
        }
    }
}

/// The keys of a run of children, in order.
pub open spec fn keys_of(s: Seq<ChildOfElement<'_>>) -> Seq<int> {
    s.map_values(|c: ChildOfElement| c.key())
}

/// A reference to one node of a document. An element comes with the name
/// that the parser gave it and with the mark of a template, both as they
/// were when the element was made.
#[derive(Debug, PartialEq, Eq, Hash)]
pub enum Handle<'d> {
    Document(Root<'d>),
    Element(Element<'d>, QualName, bool),
    Comment(Comment<'d>),
    ProcessingInstruction(ProcessingInstruction<'d>),
    Text(Text<'d>),
}

impl<'d> Clone for Handle<'d> {
    fn clone(&self) -> (r: Self)
        ensures
            r == *self,
    {
        match self {
            Handle::Document(x) => Handle::Document(*x),
            Handle::Element(x, name, template) => Handle::Element(*x, name.clone(), *template),
            Handle::Comment(x) => Handle::Comment(*x),
            Handle::ProcessingInstruction(x) => Handle::ProcessingInstruction(*x),
            Handle::Text(x) => Handle::Text(*x),
        }
    }
}

impl<'d> Handle<'d> {
    /// The key of the node.
    pub open spec fn key(self) -> int {
        match self {
            Handle::Document(r) => root_key(r),
            Handle::Element(e, _, _) => element_key(e),
            Handle::Comment(c) => comment_key(c),
            Handle::ProcessingInstruction(p) => instruction_key(p),
            Handle::Text(t) => text_key(t),
        }
    }

    /// The node is one of `t`, of the kind that the variant says.
    pub open spec fn in_tree(self, t: Tree) -> bool {
        match self {
            Handle::Document(r) => root_key(r) == t.root,
            Handle::Element(e, _, _) => t.is_element(element_key(e)),
            Handle::Comment(c) => t.is_comment(comment_key(c)),
            Handle::ProcessingInstruction(p) => t.is_instruction(instruction_key(p)),
            Handle::Text(x) => t.is_text(text_key(x)),
        }
    }

    /// The name that the handle of an element holds is, for the document,
    /// the name that the element has in `t`.
    pub open spec fn agrees(self, t: Tree) -> bool {
        self matches Handle::Element(e, name, _) ==> t.names[element_key(e)] == qname_of(name@)
    }

    /// The mark of a template that the handle of an element holds is the
    /// mark that the element was made with: it holds it where the key of
    /// the element is among `templates`.
    pub open spec fn marked_as(self, templates: Set<int>) -> bool {
        self matches Handle::Element(e, _, template) ==> template == templates.contains(
            element_key(e),
        )
    }

    /// The handle of what a template element holds: the handle itself. What
    /// is appended to it is a child of the element.
    pub open spec fn template_contents(self) -> Handle<'d> {
        self
    }

    /// The handle is of an element, a comment or a processing instruction:
    /// of a node that can be a child of the root.
    pub open spec fn is_markup(self) -> bool {
        self is Element || self is Comment || self is ProcessingInstruction
    }

    /// The handle as a child of the root. It is one only where
    /// [`Handle::is_markup`] holds.
    pub open spec fn child_of_root(self) -> ChildOfRoot<'d> {
        match self {
            Handle::Element(e, _, _) => ChildOfRoot::Element(e),
            Handle::Comment(c) => ChildOfRoot::Comment(c),
            Handle::ProcessingInstruction(p) => ChildOfRoot::ProcessingInstruction(p),
            _ => arbitrary(),
        }
    }

    /// The handle as a child of an element. The handle of the document is
    /// none.
    pub open spec fn child_of_element(self) -> ChildOfElement<'d> {
        match self {
            Handle::Element(e, _, _) => ChildOfElement::Element(e),
            Handle::Comment(c) => ChildOfElement::Comment(c),
            Handle::ProcessingInstruction(p) => ChildOfElement::ProcessingInstruction(p),
            Handle::Text(t) => ChildOfElement::Text(t),
            Handle::Document(_) => arbitrary(),
        }
    }

    /// Two handles of one kind with one key.
    pub open spec fn same_as(self, other: Handle<'d>) -> bool {
        match (self, other) {
            (Handle::Document(a), Handle::Document(b)) => root_key(a) == root_key(b),
            (Handle::Element(a, _, _), Handle::Element(b, _, _)) => element_key(a) == element_key(
                b,
            ),
            (Handle::Comment(a), Handle::Comment(b)) => comment_key(a) == comment_key(b),
            (Handle::ProcessingInstruction(a), Handle::ProcessingInstruction(b)) => instruction_key(
                a,
            ) == instruction_key(b),
            (Handle::Text(a), Handle::Text(b)) => text_key(a) == text_key(b),
            _ => false,
        }
    }

    /// The element that the handle refers to.
    pub fn element_ref(&self) -> (e: &Element<'d>)
        requires
            self is Element,
        ensures
            *e == self->Element_0,
    {
        match self {
            Handle::Element(e, _, _) => e,
            _ => unreached(),
        }
    }

    /// The parent that the node records.
    pub fn parent(&self, dom: &Dom<'d>) -> (r: Option<ParentOfChild<'d>>)
        requires
            !(self is Document),
            self.in_tree(dom.tree()),
        ensures
            parent_result(dom.tree(), self.key(), r),
    {
        match self {
            Handle::Document(_) => unreached(),
            Handle::Element(e, _, _) => store::element_parent(&dom.document, e),
            Handle::Comment(c) => store::comment_parent(&dom.document, c),
            Handle::ProcessingInstruction(p) => store::instruction_parent(&dom.document, p),
            Handle::Text(t) => match store::text_parent(&dom.document, t) {
                Some(e) => Some(ParentOfChild::Element(e)),
                None => None,
            },
        }
    }

    /// The nodes that stand after this one among the children of its
    /// parent, in order.
    pub fn following_siblings(&self, dom: &Dom<'d>) -> (r: Vec<ChildOfElement<'d>>)
        requires
            !(self is Document),
            self.in_tree(dom.tree()),
            dom.tree().parent.dom().contains(self.key()) ==> dom.tree().is_linked(
                self.key(),
            ),
        ensures
            following_result(dom.tree(), self.key(), r@),
    {
        match self {
            Handle::Document(_) => unreached(),
            Handle::Element(e, _, _) => store::element_following_siblings(&dom.document, e),
            Handle::Comment(c) => store::comment_following_siblings(&dom.document, c),
            Handle::ProcessingInstruction(p) => store::instruction_following_siblings(&dom.document, p),
            Handle::Text(t) => store::text_following_siblings(&dom.document, t),
        }
    }

    /// Whether the node stands among the children of the parent it
    /// records. A node without a parent does not; nor does an element that
    /// the root let go when it took another.
    pub fn is_linked(&self, dom: &Dom<'d>) -> (r: bool)
        requires
            !(self is Document),
            self.in_tree(dom.tree()),
            dom.tree().wf(),
        ensures
            r == dom.tree().is_linked(self.key()),
    {
        let ghost t = dom.tree();
        let me = self.to_child();
        let kids = match self.parent(dom) {
            None => {
                return false;
            },
            Some(ParentOfChild::Root(root)) => {
                let found = store::root_children(&dom.document, &root);
                let mut kids: Vec<ChildOfElement<'d>> = Vec::new();
                let mut i: usize = 0;
                while i < found.len()
                    invariant
                        0 <= i <= found.len(),
                        kids@.len() == i,
                        forall|j: int|
                            0 <= j < i ==> (#[trigger] kids@[j]).key() == found@[j].key()
                                && kids@[j].in_tree(t),
                        forall|j: int| 0 <= j < found.len() ==> (#[trigger] found@[j]).in_tree(t),
                    decreases found.len() - i,
                {
                    kids.push(ChildOfElement::from_child_of_root(found[i]));
                    i += 1;
                }
                assert(keys_of(kids@) =~= found@.map_values(|c: ChildOfRoot| c.key()));
                kids
            },
            Some(ParentOfChild::Element(e)) => store::element_children(&dom.document, &e),
        };
        assert(keys_of(kids@) == t.children[t.parent[self.key()]]);
        let mut i: usize = 0;
        while i < kids.len()
            invariant
                0 <= i <= kids.len(),
                t == dom.tree(),
                t.kinds_apart(),
                me.in_tree(t),
                me.key() == self.key(),
                t.parent.dom().contains(self.key()),
                keys_of(kids@) == t.children[t.parent[self.key()]],
                forall|j: int| 0 <= j < kids.len() ==> (#[trigger] kids@[j]).in_tree(t),
                forall|j: int| 0 <= j < i ==> keys_of(kids@)[j] != me.key(),
            decreases kids.len() - i,
        {
            if kids[i].same_node(&me) {
                assert(keys_of(kids@)[i as int] == me.key());
                assert(t.children[t.parent[self.key()]][i as int] == self.key());
                return true;
            }
            assert(kids@[i as int].in_tree(t));
            i += 1;
        }
        false
    }

    /// Takes the node out of its parent.
    pub fn remove_from_parent(&self, dom: &mut Dom<'d>)
        requires
            !(self is Document),
            self.in_tree(old(dom).tree()),
        ensures
            final(dom).tree() == old(dom).tree().detach(self.key()),
            final(dom).templates() == old(dom).templates(),
    {
        match self {
            Handle::Document(_) => unreached(),
            Handle::Element(e, _, _) => store::element_remove_from_parent(&mut dom.document, e),
            Handle::Comment(c) => store::comment_remove_from_parent(&mut dom.document, c),
            Handle::ProcessingInstruction(p) => store::instruction_remove_from_parent(&mut dom.document, p),
            Handle::Text(t) => store::text_remove_from_parent(&mut dom.document, t),
        }
    }

    /// The node as a child, whatever its parent is.
    pub fn to_child(&self) -> (c: ChildOfElement<'d>)
        requires
            !(self is Document),
        ensures
            c == self.child_of_element(),
            c.key() == self.key(),
    {
        match self {
            Handle::Document(_) => unreached(),
            Handle::Element(e, _, _) => ChildOfElement::Element(*e),
            Handle::Comment(c) => ChildOfElement::Comment(*c),
            Handle::ProcessingInstruction(p) => ChildOfElement::ProcessingInstruction(*p),
            Handle::Text(t) => ChildOfElement::Text(*t),
        }
    }

    /// Whether the two handles refer to the same node.
    pub fn same_node(&self, other: &Handle<'d>) -> (r: bool)
        ensures
            r == self.same_as(*other),
    {
        match (self, other) {
            (Handle::Document(a), Handle::Document(b)) => store::same_root(a, b),
            (Handle::Element(a, _, _), Handle::Element(b, _, _)) => store::same_element(a, b),
            (Handle::Comment(a), Handle::Comment(b)) => store::same_comment(a, b),
            (Handle::ProcessingInstruction(a), Handle::ProcessingInstruction(b)) => {
                store::same_instruction(a, b)
            },
            (Handle::Text(a), Handle::Text(b)) => store::same_text(a, b),
            _ => false,
        }
    }

    /// What a handle made from the element `e` of the document is: it is of
    /// `e`, its name is the name of `e` as the parser would give it, and it
    /// has the mark of a template where `e` was made as one.
    pub open spec fn derived_from(self, dom: &Dom<'d>, e: Element<'d>) -> bool {
        self matches Handle::Element(x, name, template) && x == e && template
            == dom.templates().contains(element_key(e)) && name@ == qualname_of(
            dom.tree().names[element_key(e)],
        )
    }

    /// The handle of an element of the document: its name as the parser
    /// would give it, and the mark of a template where the element was made
    /// as one.
    pub fn from_element(dom: &Dom<'d>, e: Element<'d>) -> (h: Self)
        requires
            dom.tree().is_element(element_key(e)),
        ensures
            h.derived_from(dom, e),
            h.marked_as(dom.templates()),
    {
        let name = qualname_from_qname(store::element_name(&dom.document, &e));
        let template = dom.is_template(&e);
        Handle::Element(e, name, template)
    }

    /// The handle of a node that has children.
    pub fn from_parent(dom: &Dom<'d>, p: ParentOfChild<'d>) -> (h: Self)
        requires
            p.in_tree(dom.tree()),
        ensures
            h.key() == p.key(),
            h.in_tree(dom.tree()),
            h.marked_as(dom.templates()),
            match p {
                ParentOfChild::Root(r) => h == Handle::Document(r),
                ParentOfChild::Element(e) => h.derived_from(dom, e),
            },
    {
        match p {
            ParentOfChild::Root(r) => Handle::Document(r),
            ParentOfChild::Element(e) => Handle::from_element(dom, e),
        }
    }

    /// The handle of a node that is a child.
    pub fn from_child(dom: &Dom<'d>, c: ChildOfElement<'d>) -> (h: Self)
        requires
            c.in_tree(dom.tree()),
        ensures
            h.key() == c.key(),
            h.in_tree(dom.tree()),
            h.marked_as(dom.templates()),
            match c {
                ChildOfElement::Element(e) => h.derived_from(dom, e),
                ChildOfElement::Text(x) => h == Handle::Text(x),
                ChildOfElement::Comment(x) => h == Handle::Comment(x),
                ChildOfElement::ProcessingInstruction(x) => h == Handle::ProcessingInstruction(x),
            },
    {
        match c {
            ChildOfElement::Element(x) => Handle::from_element(dom, x),
            ChildOfElement::Text(x) => Handle::Text(x),
            ChildOfElement::Comment(x) => Handle::Comment(x),
            ChildOfElement::ProcessingInstruction(x) => Handle::ProcessingInstruction(x),
        }
    }
}

/// What the parser hands over to be put into the tree: a node, or
/// characters.
#[derive(Debug)]
pub enum NodeOrText<'d> {
    AppendNode(Handle<'d>),
    AppendText(String),
}

impl<'d> NodeOrText<'d> {
    /// What is handed over, as an item of an outline.
    pub open spec fn item(self) -> Item {
        match self {
            NodeOrText::AppendNode(h) => Item::Node(h.key()),
            NodeOrText::AppendText(s) => Item::Text(s@),
        }
    }

    /// `new` is the tree after what is handed over was appended to `p` in
    /// `old`; `at_root` says that `p` is the root.
    pub open spec fn appended(self, old: Tree, new: Tree, at_root: bool, p: int) -> bool {
        match self {
            NodeOrText::AppendNode(h) => new == (if at_root {
                old.attach_root(h.key())
            } else {
                old.attach(p, h.key())
            }),
            NodeOrText::AppendText(s) => old.text_appended(new, p, s@),
        }
    }

    /// A node that is handed over is an element, a comment or a processing
    /// instruction of `t`.
    pub open spec fn fits(self, t: Tree) -> bool {
        match self {
            NodeOrText::AppendNode(h) => h.is_markup() && h.in_tree(t),
            NodeOrText::AppendText(_) => true,
        }
    }
}

impl<'d> ChildOfRoot<'d> {
    /// The handle as a child of the root. A handle of the document or of a
    /// text is none, and the conversion fails.
    pub fn try_from(h: Handle<'d>) -> (r: Result<Self, ()>)
        ensures
            h.is_markup() ==> r == Ok::<Self, ()>(h.child_of_root()),
            !h.is_markup() ==> r is Err,
    {
        match h {
            Handle::Element(x, _, _) => Ok(ChildOfRoot::Element(x)),
            Handle::Comment(x) => Ok(ChildOfRoot::Comment(x)),
            Handle::ProcessingInstruction(x) => Ok(ChildOfRoot::ProcessingInstruction(x)),
            Handle::Document(_) => Err(()),
            Handle::Text(_) => Err(()),
        }
    }

    /// The same node as a child of an element.
    pub open spec fn child_of_element(self) -> ChildOfElement<'d> {
        match self {
            ChildOfRoot::Element(x) => ChildOfElement::Element(x),
            ChildOfRoot::Comment(x) => ChildOfElement::Comment(x),
            ChildOfRoot::ProcessingInstruction(x) => ChildOfElement::ProcessingInstruction(x),
        }
    }
}

impl<'d> ChildOfElement<'d> {
    /// The handle as a child of an element. A handle of the document is
    /// none; nor is a handle of a text, for text comes into the tree as
    /// characters that are appended. For both the conversion fails.
    pub fn try_from(h: Handle<'d>) -> (r: Result<Self, ()>)
        ensures
            h.is_markup() ==> r == Ok::<Self, ()>(h.child_of_root().child_of_element()),
            !h.is_markup() ==> r is Err,
    {
        match ChildOfRoot::try_from(h) {
            Ok(c) => Ok(ChildOfElement::from_child_of_root(c)),
            Err(e) => Err(e),
        }
    }

    /// Two children of one kind with one key.
    pub open spec fn same_as(self, other: ChildOfElement<'d>) -> bool {
        match (self, other) {
            (ChildOfElement::Element(a), ChildOfElement::Element(b)) => element_key(a)
                == element_key(b),
            (ChildOfElement::Text(a), ChildOfElement::Text(b)) => text_key(a) == text_key(b),
            (ChildOfElement::Comment(a), ChildOfElement::Comment(b)) => comment_key(a)
                == comment_key(b),
            (
                ChildOfElement::ProcessingInstruction(a),
                ChildOfElement::ProcessingInstruction(b),
            ) => instruction_key(a) == instruction_key(b),
            _ => false,
        }
    }

    /// Whether the two refer to the same node.
    pub fn same_node(&self, other: &ChildOfElement<'d>) -> (r: bool)
        ensures
            r == self.same_as(*other),
    {
        match (self, other) {
            (ChildOfElement::Element(a), ChildOfElement::Element(b)) => store::same_element(a, b),
            (ChildOfElement::Text(a), ChildOfElement::Text(b)) => store::same_text(a, b),
            (ChildOfElement::Comment(a), ChildOfElement::Comment(b)) => store::same_comment(a, b),
            (
                ChildOfElement::ProcessingInstruction(a),
                ChildOfElement::ProcessingInstruction(b),
            ) => store::same_instruction(a, b),
            _ => false,
        }
    }

    /// A child of the root as a child of an element.
    pub fn from_child_of_root(c: ChildOfRoot<'d>) -> (r: Self)
        ensures
            r == c.child_of_element(),
    {
        match c {
            ChildOfRoot::Element(x) => ChildOfElement::Element(x),
            ChildOfRoot::Comment(x) => ChildOfElement::Comment(x),
            ChildOfRoot::ProcessingInstruction(x) => ChildOfElement::ProcessingInstruction(x),
        }
    }
}

} // verus!
