//! The document as the store holds it, as a mathematical value.
//!
//! Every node has a key, an integer that stands for its identity. A [`Tree`]
//! says, for a document at one moment, which keys are elements, texts,
//! comments and processing instructions, what each of them holds, which
//! children the root and each element have, in order, and which parent each
//! node records.
use crate::name::QNameView;
use vstd::prelude::*;

verus! {

/// The test that a key is not `x`.
pub open spec fn is_not(x: int) -> spec_fn(int) -> bool {
    |y: int| y != x
}

/// The test that a key is not in `keys`.
pub open spec fn not_in(keys: Set<int>) -> spec_fn(int) -> bool {
    |y: int| !keys.contains(y)
}

/// `s` without every occurrence of `x`.
pub open spec fn without(s: Seq<int>, x: int) -> Seq<int> {
    s.filter(is_not(x))
}

/// The index of the first `x` in `s`, or the length of `s` if there is none.
pub open spec fn position(s: Seq<int>, x: int) -> int
    decreases s.len(),
{
    if s.len() == 0 || s[0] == x {
        0
    } else {
        1 + position(s.drop_first(), x)
    }
}

/// A document at one moment.
#[verifier::ext_equal]
pub struct Tree {
    /// The key of the root.
    pub root: int,
    /// The name of each element.
    pub names: Map<int, QNameView>,
    /// The attributes of each element: values by name.
    pub attrs: Map<int, Map<QNameView, Seq<char>>>,
    /// The children of the root and of each element, in order.
    pub children: Map<int, Seq<int>>,
    /// The parent that a node records. A node without a key here records none.
    pub parent: Map<int, int>,
    /// The characters of each text node.
    pub text: Map<int, Seq<char>>,
    /// The characters of each comment.
    pub comments: Map<int, Seq<char>>,
    /// The target and the data of each processing instruction.
    pub instructions: Map<int, (Seq<char>, Option<Seq<char>>)>,
}

impl Tree {
    /// `k` is an element.
    pub open spec fn is_element(self, k: int) -> bool {
        self.names.dom().contains(k)
    }

    /// `k` is a text node.
    pub open spec fn is_text(self, k: int) -> bool {
        self.text.dom().contains(k)
    }

    /// `k` is a comment.
    pub open spec fn is_comment(self, k: int) -> bool {
        self.comments.dom().contains(k)
    }

    /// `k` is a processing instruction.
    pub open spec fn is_instruction(self, k: int) -> bool {
        self.instructions.dom().contains(k)
    }

    /// `k` is a node that can have children: the root or an element.
    pub open spec fn is_parent(self, k: int) -> bool {
        k == self.root || self.is_element(k)
    }

    /// `k` is a node that can be a child of the root.
    pub open spec fn is_markup(self, k: int) -> bool {
        self.is_element(k) || self.is_comment(k) || self.is_instruction(k)
    }

    /// `k` is a node that can be a child of an element.
    pub open spec fn is_child(self, k: int) -> bool {
        self.is_markup(k) || self.is_text(k)
    }

    /// `k` is a node of the document.
    pub open spec fn has(self, k: int) -> bool {
        k == self.root || self.is_child(k)
    }

    /// `c` records a parent and stands among that parent's children.
    pub open spec fn is_linked(self, c: int) -> bool {
        self.parent.dom().contains(c) && self.children[self.parent[c]].contains(c)
    }

    /// A document that holds a root and nothing else.
    pub open spec fn is_fresh(self) -> bool {
        &&& self.names =~= Map::empty()
        &&& self.attrs =~= Map::empty()
        &&& self.children =~= Map::empty().insert(self.root, Seq::empty())
        &&& self.parent =~= Map::empty()
        &&& self.text =~= Map::empty()
        &&& self.comments =~= Map::empty()
        &&& self.instructions =~= Map::empty()
    }

    /// The tree with `c` taken out of the children of the parent it records.
    /// What `c` records stays.
    pub open spec fn unlinked(self, c: int) -> Tree {
        if self.parent.dom().contains(c) {
            let p = self.parent[c];
            Tree { children: self.children.insert(p, without(self.children[p], c)), ..self }
        } else {
            self
        }
    }

    /// The tree after `c` became the last child of `p`: `c` leaves the
    /// children of the parent it recorded, and records `p`.
    pub open spec fn attach(self, p: int, c: int) -> Tree {
        let t = self.unlinked(c);
        Tree {
            children: t.children.insert(p, t.children[p].push(c)),
            parent: t.parent.insert(c, p),
            ..t
        }
    }

    /// The tree with the elements taken out of the root's children. What
    /// they record stays.
    pub open spec fn root_without_elements(self) -> Tree {
        Tree {
            children: self.children.insert(
                self.root,
                self.children[self.root].filter(not_in(self.names.dom())),
            ),
            ..self
        }
    }

    /// The tree after `c` became the last child of the root. The root keeps
    /// one element at most: where `c` is an element, the elements among the
    /// root's children leave first.
    pub open spec fn attach_root(self, c: int) -> Tree {
        if self.is_element(c) {
            self.root_without_elements().attach(self.root, c)
        } else {
            self.attach(self.root, c)
        }
    }

    /// The tree after `c` left its parent: it leaves the children of the
    /// parent it recorded, and records none.
    pub open spec fn detach(self, c: int) -> Tree {
        if self.parent.dom().contains(c) {
            Tree { parent: self.parent.remove(c), ..self.unlinked(c) }
        } else {
            self
        }
    }

    /// The tree after the element `p` lost all its children: each of them
    /// records no parent.
    pub open spec fn cleared(self, p: int) -> Tree {
        Tree {
            children: self.children.insert(p, Seq::empty()),
            parent: self.parent.remove_keys(self.children[p].to_set()),
            ..self
        }
    }

    /// The tree after the children of `p` from the `a`th up to, and
    /// without, the `b`th left it: each of them records no parent.
    pub open spec fn cut(self, p: int, a: int, b: int) -> Tree {
        let s = self.children[p];
        Tree {
            children: self.children.insert(p, s.take(a) + s.skip(b)),
            parent: self.parent.remove_keys(s.subrange(a, b).to_set()),
            ..self
        }
    }

    /// The tree after the element `from` lost all its children and the
    /// first `n` of them became the last children of the element `to`, in
    /// order.
    pub open spec fn moved(self, from: int, to: int, n: int) -> Tree {
        let kids = self.children[from].take(n);
        let c = self.cleared(from);
        Tree {
            children: c.children.insert(to, c.children[to] + kids),
            parent: c.parent.union_prefer_right(
                Map::new(|k: int| kids.contains(k), |k: int| to),
            ),
            ..c
        }
    }

    /// The tree after the children of the element `from` moved to the end of
    /// the element `to`, in order.
    pub open spec fn move_children(self, from: int, to: int) -> Tree {
        self.moved(from, to, self.children[from].len() as int)
    }

    /// The tree with a new element `k` of name `name`: no attributes, no
    /// children, no parent.
    pub open spec fn with_element(self, k: int, name: QNameView) -> Tree {
        Tree {
            names: self.names.insert(k, name),
            attrs: self.attrs.insert(k, Map::empty()),
            children: self.children.insert(k, Seq::empty()),
            ..self
        }
    }

    /// The tree in which the text node `k` holds `s`.
    pub open spec fn with_text(self, k: int, s: Seq<char>) -> Tree {
        Tree { text: self.text.insert(k, s), ..self }
    }

    /// The tree in which the comment `k` holds `s`.
    pub open spec fn with_comment(self, k: int, s: Seq<char>) -> Tree {
        Tree { comments: self.comments.insert(k, s), ..self }
    }

    /// The tree in which the processing instruction `k` holds `target` and
    /// `data`.
    pub open spec fn with_instruction(
        self,
        k: int,
        target: Seq<char>,
        data: Option<Seq<char>>,
    ) -> Tree {
        Tree { instructions: self.instructions.insert(k, (target, data)), ..self }
    }

    /// The tree in which the element `e` has the attributes `m`.
    pub open spec fn with_attrs(self, e: int, m: Map<QNameView, Seq<char>>) -> Tree {
        Tree { attrs: self.attrs.insert(e, m), ..self }
    }

    /// The tree in which the attribute `name` of the element `e` is `value`.
    pub open spec fn with_attr(self, e: int, name: QNameView, value: Seq<char>) -> Tree {
        Tree { attrs: self.attrs.insert(e, self.attrs[e].insert(name, value)), ..self }
    }

    /// Every node of `old` is a node of this tree, of the kind it was; an
    /// element has the name, a comment and a processing instruction hold
    /// what they had and held in `old`; and the root is the same.
    pub open spec fn extends(self, old: Tree) -> bool {
        &&& self.root == old.root
        &&& forall|k: int| #[trigger]
            old.names.dom().contains(k) ==> self.names.dom().contains(k) && self.names[k]
                == old.names[k]
        &&& forall|k: int| #[trigger]
            old.text.dom().contains(k) ==> self.text.dom().contains(k)
        &&& forall|k: int| #[trigger]
            old.comments.dom().contains(k) ==> self.comments.dom().contains(k)
                && self.comments[k] == old.comments[k]
        &&& forall|k: int| #[trigger]
            old.instructions.dom().contains(k) ==> self.instructions.dom().contains(k)
                && self.instructions[k] == old.instructions[k]
    }

    /// The last child of `p` is a text.
    pub open spec fn ends_in_text(self, p: int) -> bool {
        self.children[p].len() > 0 && self.is_text(self.children[p].last())
    }

    /// `new` is the tree after a new text node that holds `text` became the
    /// last child of `p`.
    pub open spec fn text_added(self, new: Tree, p: int, text: Seq<char>) -> bool {
        let k = new.children[p].last();
        !self.has(k) && new == self.with_text(k, text).attach(p, k)
    }

    /// `new` is the tree after `text` was appended to the element `p`:
    /// where the last child of `p` is a text, that node holds `text` behind
    /// what it held; else a new text node that holds `text` is the last
    /// child of `p`.
    pub open spec fn text_appended(self, new: Tree, p: int, text: Seq<char>) -> bool {
        if self.ends_in_text(p) {
            let k = self.children[p].last();
            new == self.with_text(k, self.text[k] + text)
        } else {
            self.text_added(new, p, text)
        }
    }

    /// The siblings that follow `c` under the parent it records, in order;
    /// none where it records no parent.
    pub open spec fn following(self, c: int) -> Seq<int> {
        if self.parent.dom().contains(c) {
            let s = self.children[self.parent[c]];
            s.skip(position(s, c) + 1)
        } else {
            Seq::empty()
        }
    }

    /// The kinds of node are apart, and the root is none of them.
    pub open spec fn kinds_apart(self) -> bool {
        &&& self.names.dom().disjoint(self.text.dom())
        &&& self.names.dom().disjoint(self.comments.dom())
        &&& self.names.dom().disjoint(self.instructions.dom())
        &&& self.text.dom().disjoint(self.comments.dom())
        &&& self.text.dom().disjoint(self.instructions.dom())
        &&& self.comments.dom().disjoint(self.instructions.dom())
        &&& !self.is_child(self.root)
    }

    /// The tree hangs together: the root and the elements, and they alone,
    /// have a list of children; a node in the list of `p` is a node of the
    /// document, records `p`, occurs once, and is no text where `p` is the
    /// root; and a recorded parent is the root or an element.
    pub open spec fn wf(self) -> bool {
        &&& self.kinds_apart()
        &&& self.children.dom() =~= self.names.dom().insert(self.root)
        &&& self.attrs.dom() =~= self.names.dom()
        &&& forall|p: int, i: int|
            self.children.dom().contains(p) && 0 <= i < self.children[p].len() ==> {
                let c = #[trigger] self.children[p][i];
                &&& self.is_child(c)
                &&& self.parent.dom().contains(c)
                &&& self.parent[c] == p
                &&& (p == self.root ==> !self.is_text(c))
            }
        &&& forall|p: int| #[trigger]
            self.children.dom().contains(p) ==> self.children[p].no_duplicates()
        &&& forall|c: int| #[trigger]
            self.parent.dom().contains(c) ==> self.is_child(c) && self.is_parent(self.parent[c])
    }
}

} // verus!
