//! The sink: what each command of the parser does to the document.
use crate::dom::Dom;
use crate::error::{log_view, Error, ErrorView};
use crate::facts::{
    lemma_append_frame, lemma_attach, lemma_attach_root, lemma_child_of_one,
    lemma_cut_outline, lemma_cut_step, lemma_cut_wf, lemma_detach, lemma_move_children_outline,
    lemma_moved, lemma_position, lemma_text_added, lemma_text_joins, lemma_with_attr,
    lemma_with_comment, lemma_with_element, lemma_with_instruction, loose_text,
};
use crate::handle::{keys_of, ChildOfElement, Handle, NodeOrText};
use crate::laws::{joins_nothing, lemma_first_value_stays, lemma_insert_before_keeps_order};
use crate::name::{Attribute, ExpandedName, QNameView, QualName};
use crate::outline::{attrs_added, attrs_set, Item, Outline};
use crate::store;
use crate::tree::{position, Tree};
use crate::util::{
    child_of_element_remove_from_parent, node_or_text_into_child_of_element,
    node_or_text_into_child_of_root, qname_of, qualname_as_qname,
};
use vstd::prelude::*;
use vstd::string::StringExecFns;

verus! {

/// What the parser says of an element that it asks for.
#[derive(Debug, Clone, Copy, Default, PartialEq, Eq)]
pub struct ElementFlags {
    /// The element is a template: what it holds is asked for through
    /// [`DocHtmlSink::get_template_contents`].
    pub template: bool,
    /// The element is a MathML `annotation-xml` that takes HTML. The sink has
    /// no use for it.
    pub mathml_annotation_xml_integration_point: bool,
}

/// How the parser read the document, for old pages. The sink has no use for
/// it.
#[derive(Debug, Clone, Copy, PartialEq, Eq, Hash)]
pub enum QuirksMode {
    Quirks,
    LimitedQuirks,
    NoQuirks,
}

/// The data of a processing instruction made from `data`: none where `data`
/// is empty.
pub open spec fn instruction_data(data: Seq<char>) -> Option<Seq<char>> {
    if data.len() == 0 {
        None
    } else {
        Some(data)
    }
}

/// Applies the commands of an HTML parser to one document, and keeps the
/// parse errors with the line at which each was reported.
#[derive(Debug)]
pub struct DocHtmlSink<'d> {
    dom: Dom<'d>,
    document_handle: Handle<'d>,
    errors: Vec<Error>,
    current_line: u64,
}

impl<'d> DocHtmlSink<'d> {
    /// The document as the store holds it.
    pub closed spec fn tree(&self) -> Tree {
        self.dom.tree()
    }

    /// The document as the parser sees it.
    pub open spec fn outline(&self) -> Outline {
        self.tree().outline()
    }

    /// The errors reported so far, in the order of the reports.
    pub closed spec fn log(&self) -> Seq<ErrorView> {
        log_view(self.errors@)
    }

    /// The line that the parser reported last.
    pub closed spec fn line(&self) -> u64 {
        self.current_line
    }

    /// The document that the sink works on.
    pub fn dom(&self) -> (dom: &Dom<'d>)
        ensures
            dom.tree() == self.tree(),
            dom.templates() == self.templates(),
    {
        &self.dom
    }

    /// The handle of the document that the sink hands out.
    pub closed spec fn root_handle(&self) -> Handle<'d> {
        self.document_handle
    }

    /// The keys of the elements that were made as templates.
    pub closed spec fn templates(&self) -> Set<int> {
        self.dom.templates()
    }

    /// The document hangs together, every template is an element of it,
    /// and the sink holds the handle of its root.
    pub open spec fn wf(&self) -> bool {
        &&& self.tree().wf()
        &&& self.templates().subset_of(self.tree().names.dom())
        &&& self.root_handle() is Document
        &&& self.root_handle().key() == self.tree().root
    }

    /// Nothing but the document differs between `self` and `before`: the
    /// log, the line, the handle of the root and the templates are the
    /// same.
    pub open spec fn keeps_record(&self, before: &Self) -> bool {
        &&& self.log() == before.log()
        &&& self.line() == before.line()
        &&& self.root_handle() == before.root_handle()
        &&& self.templates() == before.templates()
    }

    /// A sink on the document `dom`, with no error and at line 0.
    pub fn new(dom: Dom<'d>) -> (s: Self)
        requires
            dom.wf(),
        ensures
            s.wf(),
            s.tree() == dom.tree(),
            s.templates() == dom.templates(),
            s.log() == Seq::<ErrorView>::empty(),
            s.line() == 0,
            s.root_handle() is Document,
            s.root_handle().key() == s.tree().root,
    {
        let document_handle = Handle::Document(store::document_root(&dom.document));
        let s = DocHtmlSink { dom, document_handle, errors: Vec::new(), current_line: 0 };
        assert(s.log() =~= Seq::<ErrorView>::empty());
        s
    }

    /// Takes note of the line that the parser has reached.
    pub fn set_current_line(&mut self, line_number: u64)
        ensures
            final(self).line() == line_number,
            final(self).log() == old(self).log(),
            final(self).tree() == old(self).tree(),
            final(self).root_handle() == old(self).root_handle(),
            final(self).templates() == old(self).templates(),
            old(self).wf() ==> final(self).wf(),
    {
        self.current_line = line_number;
    }

    /// Ends the session: the errors, in the order of the reports.
    pub fn finish(self) -> (errors: Vec<Error>)
        ensures
            log_view(errors@) == self.log(),
            errors@.len() == self.log().len(),
    {
        self.errors
    }

    /// Records an error under the line that the parser reported last.
    pub fn parse_error(&mut self, msg: String)
        ensures
            final(self).log() == old(self).log().push(ErrorView { line: old(self).line(), msg: msg@ }),
            final(self).line() == old(self).line(),
            final(self).tree() == old(self).tree(),
            final(self).root_handle() == old(self).root_handle(),
            final(self).templates() == old(self).templates(),
            old(self).wf() ==> final(self).wf(),
    {
        let e = Error::new(self.current_line, msg);
        self.errors.push(e);
        assert(final(self).log() =~= old(self).log().push(e@));
    }

    /// The handle of the document.
    pub fn get_document(&mut self) -> (h: Handle<'d>)
        ensures
            h == old(self).root_handle(),
            old(self).wf() ==> h is Document && h.in_tree(old(self).tree()),
            *final(self) == *old(self),
    {
        self.document_handle.clone()
    }

    /// The name of an element, without its prefix, as its handle holds it.
    pub fn elem_name<'h>(&'h self, target: &'h Handle<'d>) -> (name: ExpandedName<'h>)
        requires
            target is Element,
        ensures
            name.ns@ == target->Element_1@.ns,
            name.local@ == target->Element_1@.local,
    {
        match target {
            Handle::Element(_, qualname, _) => qualname.expanded(),
            _ => unreached(),
        }
    }

    /// Makes an element: its name in the document is the local name of
    /// `name`, and each of `attrs` is set under its local name, in order.
    /// The handle keeps `name` and the mark of a template, and the session
    /// takes note of the mark, so that every later handle of the element
    /// has it too.
    pub fn create_element(&mut self, name: QualName, attrs: Vec<Attribute>, flags: ElementFlags) -> (h:
        Handle<'d>)
        requires
            old(self).wf(),
        ensures
            final(self).wf(),
            final(self).log() == old(self).log(),
            final(self).line() == old(self).line(),
            final(self).root_handle() == old(self).root_handle(),
            final(self).templates() == (if flags.template {
                old(self).templates().insert(h.key())
            } else {
                old(self).templates()
            }),
            h matches Handle::Element(e, n, t) && n == name && t == flags.template,
            !old(self).tree().has(h.key()),
            h.in_tree(final(self).tree()),
            h.agrees(final(self).tree()),
            h.marked_as(final(self).templates()),
            final(self).tree().extends(old(self).tree()),
            final(self).tree() == old(self).tree().with_element(h.key(), qname_of(name@)).with_attrs(
                h.key(),
                attrs_set(Map::empty(), attrs@),
            ),
            final(self).outline() == old(self).outline().with_element(
                h.key(),
                qname_of(name@),
            ).with_attrs(h.key(), attrs_set(Map::empty(), attrs@)),
    {
        let qname = qualname_as_qname(&name);
        let elem = store::create_element(&mut self.dom.document, &qname);
        let ghost k = store::element_key(elem);
        let ghost base = old(self).tree().with_element(k, qname@);
        proof {
            lemma_with_element(old(self).tree(), k, qname@);
            assert(base.with_attrs(k, attrs_set(Map::empty(), attrs@.take(0))) =~= base);
            assert(base.outline().with_attrs(k, attrs_set(Map::empty(), attrs@.take(0)))
                =~= base.outline());
        }
        let mut i: usize = 0;
        while i < attrs.len()
            invariant
                0 <= i <= attrs.len(),
                k == store::element_key(elem),
                base == old(self).tree().with_element(k, qname_of(name@)),
                base.wf(),
                self.tree().wf(),
                self.tree() == base.with_attrs(k, attrs_set(Map::empty(), attrs@.take(i as int))),
                self.outline() == base.outline().with_attrs(
                    k,
                    attrs_set(Map::empty(), attrs@.take(i as int)),
                ),
                self.errors == old(self).errors,
                self.current_line == old(self).current_line,
                self.document_handle == old(self).document_handle,
                self.templates() == old(self).templates(),
            decreases attrs.len() - i,
        {
            let attr = &attrs[i];
            let qname = qualname_as_qname(&attr.name);
            proof {
                lemma_with_attr(self.tree(), k, qname@, attr.value@);
                assert(attrs@.take(i + 1).drop_last() =~= attrs@.take(i as int));
            }
            store::element_set_attribute_value(&mut self.dom.document, &elem, &qname, attr.value.as_str());
            i += 1;
            proof {
                let before = attrs_set(Map::empty(), attrs@.take(i - 1));
                let after = attrs_set(Map::empty(), attrs@.take(i as int));
                assert(after == before.insert(qname@, attr.value@));
                assert(self.tree() =~= base.with_attrs(k, after));
                assert(self.outline() =~= base.outline().with_attrs(k, after));
            }
        }
        assert(attrs@.take(attrs.len() as int) =~= attrs@);
        if flags.template {
            self.dom.mark_template(elem);
        }
        Handle::Element(elem, name, flags.template)
    }

    /// Makes a comment that holds `text`.
    pub fn create_comment(&mut self, text: String) -> (h: Handle<'d>)
        requires
            old(self).wf(),
        ensures
            final(self).wf(),
            final(self).keeps_record(old(self)),
            h is Comment,
            !old(self).tree().has(h.key()),
            h.in_tree(final(self).tree()),
            final(self).tree().extends(old(self).tree()),
            final(self).tree() == old(self).tree().with_comment(h.key(), text@),
            final(self).outline() == old(self).outline().with_comment(h.key(), text@),
    {
        let comment = store::create_comment(&mut self.dom.document, text.as_str());
        proof {
            lemma_with_comment(old(self).tree(), store::comment_key(comment), text@);
        }
        Handle::Comment(comment)
    }

    /// Makes a processing instruction. Empty `data` is no data.
    pub fn create_pi(&mut self, target: String, data: String) -> (h: Handle<'d>)
        requires
            old(self).wf(),
        ensures
            final(self).wf(),
            final(self).keeps_record(old(self)),
            h is ProcessingInstruction,
            !old(self).tree().has(h.key()),
            h.in_tree(final(self).tree()),
            final(self).tree().extends(old(self).tree()),
            final(self).tree() == old(self).tree().with_instruction(
                h.key(),
                target@,
                instruction_data(data@),
            ),
            final(self).outline() == old(self).outline().with_instruction(
                h.key(),
                target@,
                instruction_data(data@),
            ),
    {
        let value = if data.as_str().is_empty() {
            None
        } else {
            Some(data.as_str())
        };
        let pi = store::create_processing_instruction(&mut self.dom.document, target.as_str(), value);
        proof {
            lemma_with_instruction(
                old(self).tree(),
                store::instruction_key(pi),
                target@,
                instruction_data(data@),
            );
        }
        Handle::ProcessingInstruction(pi)
    }

    /// Appends a node or text to the document or to an element.
    ///
    /// A node becomes the last child of `parent`, and leaves the parent it
    /// had. Under the document there is room for one element: where an
    /// element is appended to the document, the elements that are among its
    /// children leave them first, though each goes on recording the
    /// document as its parent. Text under an element whose last child is a
    /// text joins that text, and no node is made; else it becomes a new text
    /// node, the last child.
    pub fn append(&mut self, parent: &Handle<'d>, child: NodeOrText<'d>)
        requires
            old(self).wf(),
            parent is Document || parent is Element,
            parent.in_tree(old(self).tree()),
            child.fits(old(self).tree()),
            parent is Document ==> child is AppendNode,
        ensures
            final(self).wf(),
            final(self).keeps_record(old(self)),
            final(self).outline() == old(self).outline().push(parent.key(), child.item()),
            final(self).tree().extends(old(self).tree()),
            child.appended(
                old(self).tree(),
                final(self).tree(),
                parent is Document,
                parent.key(),
            ),
    {
        let ghost t = self.tree();
        let ghost p = parent.key();
        let ghost given = child;
        proof {
            assert forall|u: Tree| given.appended(t, u, parent is Document, p) implies u.extends(
                t,
            ) by {
                lemma_append_frame(t, u, parent is Document, p, given);
            }
        }
        match parent {
            Handle::Document(root) => {
                let c = node_or_text_into_child_of_root(child);
                proof {
                    lemma_attach_root(t, c.key());
                }
                store::root_append_child(&mut self.dom.document, root, &c);
            },
            Handle::Element(elem, _, _) => {
                let kids = store::element_children(&self.dom.document, elem);
                let n = kids.len();
                let last = if n > 0 {
                    Some(kids[n - 1])
                } else {
                    None
                };
                assert(n > 0 ==> kids@[n - 1].key() == t.children[p].last());
                match (last, child) {
                    (Some(ChildOfElement::Text(x)), NodeOrText::AppendText(y)) => {
                        let mut new_text = store::text_content(&self.dom.document, &x);
                        new_text.append(y.as_str());
                        proof {
                            lemma_text_joins(t, p, y@);
                        }
                        store::text_set(&mut self.dom.document, &x, new_text.as_str());
                    },
                    (_, child) => {
                        let c = node_or_text_into_child_of_element(&mut self.dom, child);
                        proof {
                            match given {
                                NodeOrText::AppendNode(h) => {
                                    lemma_attach(t, p, h.key());
                                },
                                NodeOrText::AppendText(s) => {
                                    assert(!t.ends_in_text(p)) by {
                                        if n > 0 {
                                            assert(kids@[n - 1].in_tree(t));
                                        }
                                    }
                                    lemma_text_added(t, p, c.key(), s@);
                                },
                            }
                        }
                        store::element_append_child(&mut self.dom.document, elem, &c);
                    },
                }
            },
            _ => unreached(),
        }
    }

    /// Puts a node or text where the parser wants it when `element` may
    /// have lost its place: before `element` where `element` has a parent,
    /// else at the end of `prev_element`.
    pub fn append_based_on_parent_node(
        &mut self,
        element: &Handle<'d>,
        prev_element: &Handle<'d>,
        child: NodeOrText<'d>,
    )
        requires
            old(self).wf(),
            !(element is Document),
            element.in_tree(old(self).tree()),
            child.fits(old(self).tree()),
            old(self).tree().parent.dom().contains(element.key()) ==> {
                &&& old(self).tree().is_linked(element.key())
                &&& (old(self).tree().parent[element.key()] == old(self).tree().root
                    ==> child is AppendNode)
            },
            !old(self).tree().parent.dom().contains(element.key()) ==> {
                &&& prev_element is Document || prev_element is Element
                &&& prev_element.in_tree(old(self).tree())
                &&& (prev_element is Document ==> child is AppendNode)
            },
        ensures
            final(self).wf(),
            final(self).keeps_record(old(self)),
            final(self).tree().extends(old(self).tree()),
            final(self).outline() == (if old(self).tree().parent.dom().contains(element.key()) {
                old(self).outline().insert_before(
                    old(self).tree().parent[element.key()],
                    position(
                        old(self).tree().children[old(self).tree().parent[element.key()]],
                        element.key(),
                    ),
                    child.item(),
                )
            } else {
                old(self).outline().push(prev_element.key(), child.item())
            }),
    {
        let parent = element.parent(&self.dom);
        let has_parent = parent.is_some();
        if has_parent {
            self.append_before_sibling(element, child);
        } else {
            self.append(prev_element, child);
        }
    }

    /// Takes the document type. The document has no place for it, and
    /// nothing happens.
    #[allow(unused_variables)]
    pub fn append_doctype_to_document(
        &mut self,
        name: String,
        public_id: String,
        system_id: String,
    )
        ensures
            *final(self) == *old(self),
    {
    }

    /// The handle of what a template element holds: the element itself, whose
    /// children its contents are.
    pub fn get_template_contents(&mut self, target: &Handle<'d>) -> (h: Handle<'d>)
        requires
            target is Element,
            target->Element_2,
        ensures
            h == target.template_contents(),
            *final(self) == *old(self),
    {
        match target {
            Handle::Element(_, _, true) => target.clone(),
            _ => unreached(),
        }
    }

    /// Whether the two handles refer to the same node.
    pub fn same_node(&self, x: &Handle<'d>, y: &Handle<'d>) -> (r: bool)
        ensures
            r == x.same_as(*y),
            self.wf() && x.in_tree(self.tree()) && y.in_tree(self.tree()) ==> r == (x.key()
                == y.key()),
    {
        x.same_node(y)
    }

    /// Takes the quirks mode. The document has no place for it, and nothing
    /// happens.
    #[allow(unused_variables)]
    pub fn set_quirks_mode(&mut self, mode: QuirksMode)
        ensures
            *final(self) == *old(self),
    {
    }

    /// Puts a node or text before `sibling`, under the parent of `sibling`.
    ///
    /// `sibling` and the siblings behind it leave the parent, what is put is
    /// appended to the parent as [`DocHtmlSink::append`] does it, and then
    /// each of those that left is appended again, in order and in the same
    /// way: a node as itself, a text by what it holds. So text that meets
    /// text joins it; where nothing joins, what is put stands right before
    /// `sibling`, and every other child where it stood.
    pub fn append_before_sibling(&mut self, sibling: &Handle<'d>, new_node: NodeOrText<'d>)
        requires
            old(self).wf(),
            !(sibling is Document),
            sibling.in_tree(old(self).tree()),
            old(self).tree().is_linked(sibling.key()),
            new_node.fits(old(self).tree()),
            old(self).tree().parent[sibling.key()] == old(self).tree().root
                ==> new_node is AppendNode,
        ensures
            final(self).wf(),
            final(self).keeps_record(old(self)),
            final(self).tree().extends(old(self).tree()),
            final(self).outline() == old(self).outline().insert_before(
                old(self).tree().parent[sibling.key()],
                position(
                    old(self).tree().children[old(self).tree().parent[sibling.key()]],
                    sibling.key(),
                ),
                new_node.item(),
            ),
            ({
                let t = old(self).tree();
                let p = t.parent[sibling.key()];
                let n = position(t.children[p], sibling.key());
                joins_nothing(t, p, n, new_node.item()) ==> final(self).outline().children[p]
                    == t.items(p).take(n).push(new_node.item()) + t.items(p).skip(n)
            }),
    {
        let ghost t0 = self.tree();
        let ghost k = sibling.key();
        let ghost p = t0.parent[k];
        let ghost s = t0.children[p];
        let ghost pos = position(s, k);
        let ghost given = new_node;
        proof {
            lemma_position(s, k);
            assert(t0.children.dom().contains(p));
            if joins_nothing(t0, p, pos, given.item()) {
                lemma_insert_before_keeps_order(t0, p, pos, given.item());
            }
        }
        let parent = match sibling.parent(&self.dom) {
            Some(x) => x,
            None => unreached(),
        };
        let first = sibling.to_child();
        let following = sibling.following_siblings(&self.dom);
        let mut children: Vec<ChildOfElement<'d>> = Vec::new();
        children.push(first);
        let mut i: usize = 0;
        while i < following.len()
            invariant
                0 <= i <= following.len(),
                children@ == seq![first] + following@.take(i as int),
            decreases following.len() - i,
        {
            children.push(following[i]);
            i += 1;
            assert(children@ =~= seq![first] + following@.take(i as int));
        }
        let m = children.len();
        proof {
            assert(following@.take(following.len() as int) =~= following@);
            assert(keys_of(children@) =~= seq![k] + keys_of(following@));
            assert(keys_of(children@) =~= s.skip(pos));
            assert(pos + m == s.len());
            assert forall|j: int| 0 <= j < m implies (#[trigger] children@[j]).in_tree(t0) by {
                if j > 0 {
                    assert(following@[j - 1].in_tree(t0));
                }
            }
            lemma_cut_wf(t0, p, pos, pos);
            assert(t0.cut(p, pos, pos) =~= t0) by {
                assert(s.take(pos) + s.skip(pos) =~= s);
                assert(t0.children.insert(p, s) =~= t0.children);
                assert(s.subrange(pos, pos).to_set() =~= Set::<int>::empty());
                assert(t0.parent.remove_keys(Set::<int>::empty()) =~= t0.parent);
            }
        }
        let mut j: usize = 0;
        while j < m
            invariant
                0 <= j <= m,
                m == children.len(),
                t0.wf(),
                t0.children.dom().contains(p),
                s == t0.children[p],
                0 <= pos,
                pos + m == s.len(),
                keys_of(children@) == s.skip(pos),
                forall|j: int| 0 <= j < m ==> (#[trigger] children@[j]).in_tree(t0),
                self.tree() == t0.cut(p, pos, pos + j),
                self.errors == old(self).errors,
                self.current_line == old(self).current_line,
                self.document_handle == old(self).document_handle,
                self.templates() == old(self).templates(),
            decreases m - j,
        {
            proof {
                lemma_cut_step(t0, p, pos, pos + j);
                assert(children@[j as int].in_tree(t0));
                assert(keys_of(children@)[j as int] == s[pos + j]);
            }
            child_of_element_remove_from_parent(&mut self.dom, &children[j]);
            j += 1;
        }
        let ghost t1 = self.tree();
        proof {
            lemma_cut_wf(t0, p, pos, s.len() as int);
            lemma_cut_outline(t0, p, pos);
        }
        let parent_handle = Handle::from_parent(&self.dom, parent);
        let ghost at_root = parent_handle is Document;
        self.append(&parent_handle, new_node);
        let ghost t2 = self.tree();
        let ghost o2 = self.outline();
        let ghost tail = t0.items(p).skip(pos);
        proof {
            lemma_append_frame(t1, t2, at_root, p, given);
            assert(tail.take(0) =~= Seq::<Item>::empty());
            assert forall|j: int| 0 <= j < m && children@[j] is Text implies loose_text(
                t2,
                t0,
                (#[trigger] children@[j]).key(),
            ) by {
                let c = children@[j].key();
                assert(children@[j].in_tree(t0));
                assert(keys_of(children@)[j] == s[pos + j]);
                assert(s.subrange(pos, s.len() as int)[j] == c);
                assert(loose_text(t1, t0, c));
            }
        }
        let mut j: usize = 0;
        while j < m
            invariant
                0 <= j <= m,
                m == children.len(),
                t0.wf(),
                t0.children.dom().contains(p),
                s == t0.children[p],
                0 <= pos,
                pos + m == s.len(),
                tail == t0.items(p).skip(pos),
                keys_of(children@) == s.skip(pos),
                forall|j: int| 0 <= j < m ==> (#[trigger] children@[j]).in_tree(t0),
                forall|i: int|
                    j <= i < m && children@[i] is Text ==> loose_text(
                        self.tree(),
                        t0,
                        (#[trigger] children@[i]).key(),
                    ),
                self.wf(),
                self.tree().extends(t0),
                parent_handle.key() == p,
                parent_handle is Document || parent_handle is Element,
                parent_handle is Document <==> p == t0.root,
                parent_handle.in_tree(self.tree()),
                self.outline() == o2.push_all(p, tail.take(j as int)),
                self.keeps_record(old(self)),
            decreases m - j,
        {
            let ghost t = self.tree();
            let ghost c = children@[j as int];
            proof {
                assert(c.in_tree(t0));
                assert(keys_of(children@)[j as int] == s[pos + j]);
                assert(c is Text ==> loose_text(t, t0, c.key()));
                assert(s.contains(s[pos + j]));
                lemma_child_of_one(t0, p, s[pos + j]);
            }
            let node_or_text = match children[j] {
                ChildOfElement::Text(x) => NodeOrText::AppendText(
                    store::text_content(&self.dom.document, &x),
                ),
                coe => NodeOrText::AppendNode(Handle::from_child(&self.dom, coe)),
            };
            let ghost item = node_or_text;
            assert(item.item() == tail[j as int]);
            self.append(&parent_handle, node_or_text);
            j += 1;
            proof {
                lemma_append_frame(t, self.tree(), parent_handle is Document, p, item);
                assert(tail.take(j as int).drop_last() =~= tail.take(j - 1));
            }
        }
        proof {
            assert(tail.take(m as int) =~= tail);
        }
    }

    /// Adds each of `attrs` to the element where it has no attribute of
    /// that local name. An attribute that the element has keeps its value.
    pub fn add_attrs_if_missing(&mut self, target: &Handle<'d>, attrs: Vec<Attribute>)
        requires
            old(self).wf(),
            target is Element,
            target.in_tree(old(self).tree()),
        ensures
            final(self).wf(),
            final(self).keeps_record(old(self)),
            final(self).tree().extends(old(self).tree()),
            final(self).tree() == old(self).tree().with_attrs(
                target.key(),
                attrs_added(old(self).tree().attrs[target.key()], attrs@),
            ),
            final(self).outline() == old(self).outline().with_attrs(
                target.key(),
                attrs_added(old(self).outline().attrs[target.key()], attrs@),
            ),
            forall|name: QNameView| #[trigger]
                old(self).tree().attrs[target.key()].dom().contains(name) ==> {
                    &&& final(self).tree().attrs[target.key()].dom().contains(name)
                    &&& final(self).tree().attrs[target.key()][name] == old(
                        self,
                    ).tree().attrs[target.key()][name]
                },
    {
        let elem = target.element_ref();
        let ghost t0 = self.tree();
        let ghost k = target.key();
        let ghost m0 = t0.attrs[k];
        proof {
            assert(attrs@.take(0) =~= Seq::<Attribute>::empty());
            assert(t0.attrs.dom().contains(k));
            assert(t0.with_attrs(k, m0) =~= t0);
        }
        let mut i: usize = 0;
        while i < attrs.len()
            invariant
                0 <= i <= attrs.len(),
                target is Element,
                *elem == target->Element_0,
                k == target.key(),
                t0.wf(),
                t0.is_element(k),
                m0 == t0.attrs[k],
                self.tree().wf(),
                self.tree() == t0.with_attrs(k, attrs_added(m0, attrs@.take(i as int))),
                self.errors == old(self).errors,
                self.current_line == old(self).current_line,
                self.document_handle == old(self).document_handle,
                self.templates() == old(self).templates(),
            decreases attrs.len() - i,
        {
            let attr = &attrs[i];
            let qname = qualname_as_qname(&attr.name);
            let ghost before = attrs_added(m0, attrs@.take(i as int));
            proof {
                assert(attrs@.take(i + 1).drop_last() =~= attrs@.take(i as int));
                assert(self.tree().attrs[k] == before);
            }
            if store::element_attribute_value(&self.dom.document, elem, &qname).is_some() {
                i += 1;
                assert(attrs_added(m0, attrs@.take(i as int)) == before);
                continue ;
            }
            proof {
                lemma_with_attr(self.tree(), k, qname@, attr.value@);
            }
            store::element_set_attribute_value(&mut self.dom.document, elem, &qname, attr.value.as_str());
            i += 1;
            proof {
                assert(self.tree() =~= t0.with_attrs(k, before.insert(qname@, attr.value@)));
            }
        }
        proof {
            assert(attrs@.take(attrs.len() as int) =~= attrs@);
            lemma_first_value_stays(m0, attrs@);
            assert(self.outline() =~= old(self).outline().with_attrs(k, attrs_added(m0, attrs@)));
        }
    }

    /// Takes a node out of its parent. A node without a parent stays as it
    /// is.
    pub fn remove_from_parent(&mut self, target: &Handle<'d>)
        requires
            old(self).wf(),
            !(target is Document),
            target.in_tree(old(self).tree()),
        ensures
            final(self).wf(),
            final(self).keeps_record(old(self)),
            final(self).tree().extends(old(self).tree()),
            final(self).tree() == old(self).tree().detach(target.key()),
            !(target is Text) ==> final(self).outline() == old(self).outline().detach(target.key()),
    {
        proof {
            lemma_detach(self.tree(), target.key());
        }
        target.remove_from_parent(&mut self.dom);
    }

    /// Moves the children of the element `node` to the end of the element
    /// `new_parent`, in order, each as the node it is: no text joins
    /// another. `node` has no children afterwards, unless the two are one
    /// element, which then has its children as before.
    pub fn reparent_children(&mut self, node: &Handle<'d>, new_parent: &Handle<'d>)
        requires
            old(self).wf(),
            node is Element,
            new_parent is Element,
            node.in_tree(old(self).tree()),
            new_parent.in_tree(old(self).tree()),
        ensures
            final(self).wf(),
            final(self).keeps_record(old(self)),
            final(self).tree().extends(old(self).tree()),
            final(self).tree() == old(self).tree().move_children(node.key(), new_parent.key()),
            final(self).outline() == old(self).outline().move_children(
                node.key(),
                new_parent.key(),
            ),
    {
        let ghost t0 = self.tree();
        let ghost from = node.key();
        let ghost to = new_parent.key();
        let node = node.element_ref();
        let new_parent = new_parent.element_ref();
        let children = store::element_children(&self.dom.document, node);
        proof {
            lemma_moved(t0, from, to, 0);
        }
        store::element_clear_children(&mut self.dom.document, node);
        let mut i: usize = 0;
        while i < children.len()
            invariant
                0 <= i <= children.len(),
                t0.wf(),
                t0.is_element(from),
                t0.is_element(to),
                to == store::element_key(*new_parent),
                keys_of(children@) == t0.children[from],
                forall|j: int| 0 <= j < children.len() ==> (#[trigger] children@[j]).in_tree(t0),
                self.tree() == t0.moved(from, to, i as int),
                self.errors == old(self).errors,
                self.current_line == old(self).current_line,
                self.document_handle == old(self).document_handle,
                self.templates() == old(self).templates(),
            decreases children.len() - i,
        {
            proof {
                lemma_moved(t0, from, to, i as int);
                assert(children@[i as int].in_tree(t0));
                assert(keys_of(children@)[i as int] == t0.children[from][i as int]);
            }
            store::element_append_child(&mut self.dom.document, new_parent, &children[i]);
            i += 1;
        }
        proof {
            lemma_moved(t0, from, to, children.len() as int);
            lemma_move_children_outline(t0, from, to);
        }
    }
}

} // verus!
