//! The document as the parser sees it.
//!
//! The parser never holds a text node: it appends characters, and the sink
//! decides whether they join the text before them. An [`Outline`] is a
//! [`Tree`] with each text node replaced by its characters; what the sink
//! does to a document is stated over outlines.
use crate::name::{Attribute, QNameView};
use crate::util::qname_of;
use crate::tree::Tree;
use vstd::prelude::*;

verus! {

/// One child in an outline: a node, by its key, or a run of text.
pub enum Item {
    Node(int),
    Text(Seq<char>),
}

/// The test that an item is not the node `c`.
pub open spec fn not_node(c: int) -> spec_fn(Item) -> bool {
    |i: Item| i != Item::Node(c)
}

/// The test that an item is not a node with a key in `keys`.
pub open spec fn no_node_in(keys: Set<int>) -> spec_fn(Item) -> bool {
    |i: Item| !(i is Node && keys.contains(i->Node_0))
}

/// `s` without every occurrence of the node `c`.
pub open spec fn without_node(s: Seq<Item>, c: int) -> Seq<Item> {
    s.filter(not_node(c))
}

/// The child `k` as an item, where `text` holds the characters of the text
/// nodes.
pub open spec fn item_of(text: Map<int, Seq<char>>, k: int) -> Item {
    if text.dom().contains(k) {
        Item::Text(text[k])
    } else {
        Item::Node(k)
    }
}

/// [`item_of`] as a function of the key.
pub open spec fn item_fn(text: Map<int, Seq<char>>) -> spec_fn(int) -> Item {
    |k: int| item_of(text, k)
}

/// The keys of the nodes among `s`.
pub open spec fn node_keys(s: Seq<Item>) -> Set<int> {
    Set::new(|k: int| s.contains(Item::Node(k)))
}

/// No two texts stand side by side in `s`.
pub open spec fn texts_apart(s: Seq<Item>) -> bool {
    forall|i: int| 0 <= i && i + 1 < s.len() ==> !(#[trigger] s[i] is Text && s[i + 1] is Text)
}

/// The attributes `m` after each of `attrs` was set, in order: of two of one
/// name the later one stays.
pub open spec fn attrs_set(m: Map<QNameView, Seq<char>>, attrs: Seq<Attribute>) -> Map<
    QNameView,
    Seq<char>,
>
    decreases attrs.len(),
{
    if attrs.len() == 0 {
        m
    } else {
        attrs_set(m, attrs.drop_last()).insert(qname_of(attrs.last().name@), attrs.last().value@)
    }
}

/// The attributes `m` after each of `attrs` was added where none of its
/// name was there, in order: of two of one name the earlier one stays.
pub open spec fn attrs_added(m: Map<QNameView, Seq<char>>, attrs: Seq<Attribute>) -> Map<
    QNameView,
    Seq<char>,
>
    decreases attrs.len(),
{
    if attrs.len() == 0 {
        m
    } else {
        let before = attrs_added(m, attrs.drop_last());
        let name = qname_of(attrs.last().name@);
        if before.dom().contains(name) {
            before
        } else {
            before.insert(name, attrs.last().value@)
        }
    }
}

/// A document with its texts by their characters.
#[verifier::ext_equal]
pub struct Outline {
    /// The key of the root.
    pub root: int,
    /// The name of each element.
    pub names: Map<int, QNameView>,
    /// The attributes of each element: values by name.
    pub attrs: Map<int, Map<QNameView, Seq<char>>>,
    /// The children of the root and of each element, in order.
    pub children: Map<int, Seq<Item>>,
    /// The parent that an element, a comment or a processing instruction
    /// records.
    pub parent: Map<int, int>,
    /// The characters of each comment.
    pub comments: Map<int, Seq<char>>,
    /// The target and the data of each processing instruction.
    pub instructions: Map<int, (Seq<char>, Option<Seq<char>>)>,
}

impl Tree {
    /// The children of `p` as items.
    pub open spec fn items(self, p: int) -> Seq<Item> {
        self.children[p].map_values(item_fn(self.text))
    }

    /// The outline of the tree.
    pub open spec fn outline(self) -> Outline {
        Outline {
            root: self.root,
            names: self.names,
            attrs: self.attrs,
            children: Map::new(|p: int| self.children.dom().contains(p), |p: int| self.items(p)),
            parent: self.parent.remove_keys(self.text.dom()),
            comments: self.comments,
            instructions: self.instructions,
        }
    }
}

impl Outline {
    /// `k` is an element.
    pub open spec fn is_element(self, k: int) -> bool {
        self.names.dom().contains(k)
    }

    /// The outline with the node `c` taken out of the children of the parent
    /// it records. What `c` records stays.
    pub open spec fn unlinked(self, c: int) -> Outline {
        if self.parent.dom().contains(c) {
            let p = self.parent[c];
            Outline { children: self.children.insert(p, without_node(self.children[p], c)), ..self }
        } else {
            self
        }
    }

    /// The outline after the node `c` left its parent.
    pub open spec fn detach(self, c: int) -> Outline {
        if self.parent.dom().contains(c) {
            Outline { parent: self.parent.remove(c), ..self.unlinked(c) }
        } else {
            self
        }
    }

    /// The outline after the node `c` became the last child of `p`: `c`
    /// leaves the children of the parent it recorded, and records `p`.
    pub open spec fn push_node(self, p: int, c: int) -> Outline {
        let o = self.unlinked(c);
        Outline {
            children: o.children.insert(p, o.children[p].push(Item::Node(c))),
            parent: o.parent.insert(c, p),
            ..o
        }
    }

    /// The outline with the elements taken out of the root's children.
    pub open spec fn root_without_elements(self) -> Outline {
        Outline {
            children: self.children.insert(
                self.root,
                self.children[self.root].filter(no_node_in(self.names.dom())),
            ),
            ..self
        }
    }

    /// The outline after the node `c` became the last child of the root.
    /// The root keeps one element at most: where `c` is an element, the
    /// elements among the root's children leave first.
    pub open spec fn push_root(self, c: int) -> Outline {
        if self.is_element(c) {
            self.root_without_elements().push_node(self.root, c)
        } else {
            self.push_node(self.root, c)
        }
    }

    /// `text` would join the last child of `p`: `p` has children, and the
    /// last of them is a text.
    pub open spec fn ends_in_text(self, p: int) -> bool {
        self.children[p].len() > 0 && self.children[p].last() is Text
    }

    /// The outline after `text` was appended to the element `p`. Where the
    /// last child of `p` is a text, `text` joins it; else `text` is a new
    /// last child.
    pub open spec fn push_text(self, p: int, text: Seq<char>) -> Outline {
        let s = self.children[p];
        if self.ends_in_text(p) {
            Outline {
                children: self.children.insert(
                    p,
                    s.drop_last().push(Item::Text(s.last()->Text_0 + text)),
                ),
                ..self
            }
        } else {
            Outline { children: self.children.insert(p, s.push(Item::Text(text))), ..self }
        }
    }

    /// The outline after `item` was appended to `p`.
    pub open spec fn push(self, p: int, item: Item) -> Outline {
        match item {
            Item::Node(c) => if p == self.root {
                self.push_root(c)
            } else {
                self.push_node(p, c)
            },
            Item::Text(text) => self.push_text(p, text),
        }
    }

    /// The outline after each of `items` was appended to `p`, in order.
    pub open spec fn push_all(self, p: int, items: Seq<Item>) -> Outline
        decreases items.len(),
    {
        if items.len() == 0 {
            self
        } else {
            self.push_all(p, items.drop_last()).push(p, items.last())
        }
    }

    /// The outline after the children of `p` from the `n`th on left it.
    pub open spec fn cut(self, p: int, n: int) -> Outline {
        Outline {
            children: self.children.insert(p, self.children[p].take(n)),
            parent: self.parent.remove_keys(node_keys(self.children[p].skip(n))),
            ..self
        }
    }

    /// The outline after `item` was put before the `n`th child of `p`: the
    /// children from the `n`th on leave `p`, `item` is appended, and then
    /// each of those that left is appended again, in order.
    pub open spec fn insert_before(self, p: int, n: int, item: Item) -> Outline {
        self.cut(p, n).push(p, item).push_all(p, self.children[p].skip(n))
    }

    /// The outline after the children of the element `from` moved to the end
    /// of the element `to`, in order. No text joins another.
    pub open spec fn move_children(self, from: int, to: int) -> Outline {
        let moved = self.children[from];
        let o = Outline {
            children: self.children.insert(from, Seq::empty()),
            parent: self.parent.remove_keys(node_keys(moved)),
            ..self
        };
        Outline {
            children: o.children.insert(to, o.children[to] + moved),
            parent: o.parent.union_prefer_right(
                Map::new(|k: int| node_keys(moved).contains(k), |k: int| to),
            ),
            ..o
        }
    }

    /// The outline with a new element `k` of name `name`, without
    /// attributes, children or parent.
    pub open spec fn with_element(self, k: int, name: QNameView) -> Outline {
        Outline {
            names: self.names.insert(k, name),
            attrs: self.attrs.insert(k, Map::empty()),
            children: self.children.insert(k, Seq::empty()),
            ..self
        }
    }

    /// The outline in which the comment `k` holds `s`.
    pub open spec fn with_comment(self, k: int, s: Seq<char>) -> Outline {
        Outline { comments: self.comments.insert(k, s), ..self }
    }

    /// The outline in which the processing instruction `k` holds `target`
    /// and `data`.
    pub open spec fn with_instruction(
        self,
        k: int,
        target: Seq<char>,
        data: Option<Seq<char>>,
    ) -> Outline {
        Outline { instructions: self.instructions.insert(k, (target, data)), ..self }
    }

    /// The outline in which the element `e` has the attributes `m`.
    pub open spec fn with_attrs(self, e: int, m: Map<QNameView, Seq<char>>) -> Outline {
        Outline { attrs: self.attrs.insert(e, m), ..self }
    }

    /// The outline in which the attribute `name` of the element `e` is
    /// `value`.
    pub open spec fn with_attr(self, e: int, name: QNameView, value: Seq<char>) -> Outline {
        Outline { attrs: self.attrs.insert(e, self.attrs[e].insert(name, value)), ..self }
    }
}

} // verus!
