//! What each step on a tree keeps and does: that the tree still hangs
//! together, and what the step is on the outline.
use crate::outline::{item_fn, item_of, no_node_in, node_keys, not_node, Item};
use crate::seqs::{lemma_filter_all, lemma_filter_members, lemma_filter_one_out, lemma_filter_then_map};
use crate::handle::NodeOrText;
use crate::name::QNameView;
use crate::tree::{is_not, not_in, position, without, Tree};
use vstd::prelude::*;

verus! {

/// What `without` keeps.
pub proof fn lemma_without(s: Seq<int>, c: int)
    ensures
        forall|x: int| #[trigger] without(s, c).contains(x) <==> (s.contains(x) && x != c),
        s.no_duplicates() ==> without(s, c).no_duplicates(),
        !s.contains(c) ==> without(s, c) == s,
        forall|i: int|
            s.no_duplicates() && 0 <= i < s.len() && s[i] == c ==> without(s, c) == #[trigger] s.remove(i),
{
    lemma_filter_members(s, is_not(c));
    if !s.contains(c) {
        lemma_filter_all(s, is_not(c));
    }
    assert forall|i: int| s.no_duplicates() && 0 <= i < s.len() && s[i] == c implies without(s, c)
        == #[trigger] s.remove(i) by {
        lemma_filter_one_out(s, is_not(c), i);
    }
}

/// Under a tree that hangs together, a node stands among the children of
/// the parent it records, and of no other.
pub proof fn lemma_child_of_one(t: Tree, r: int, c: int)
    requires
        t.wf(),
        t.children.dom().contains(r),
        t.children[r].contains(c),
    ensures
        t.parent.dom().contains(c),
        t.parent[c] == r,
        t.is_child(c),
        r == t.root ==> !t.is_text(c),
{
    let i = choose|i: int| 0 <= i < t.children[r].len() && t.children[r][i] == c;
    assert(t.children[r][i] == c);
}

/// To take a node out of its parent's children keeps the tree together, and
/// afterwards no node has it among its children.
pub proof fn lemma_unlinked(t: Tree, c: int)
    requires
        t.wf(),
    ensures
        t.unlinked(c).wf(),
        forall|r: int| #[trigger]
            t.unlinked(c).children.dom().contains(r) ==> !t.unlinked(c).children[r].contains(c),
{
    let u = t.unlinked(c);
    if t.parent.dom().contains(c) {
        let q = t.parent[c];
        let s = t.children[q];
        lemma_without(s, c);
        assert(t.children.dom().contains(q));
        assert(u.children.dom() =~= t.children.dom());
        assert forall|p: int, i: int|
            u.children.dom().contains(p) && 0 <= i < u.children[p].len() implies {
            let x = #[trigger] u.children[p][i];
            &&& u.is_child(x)
            &&& u.parent.dom().contains(x)
            &&& u.parent[x] == p
            &&& (p == u.root ==> !u.is_text(x))
        } by {
            let x = u.children[p][i];
            if p == q {
                assert(without(s, c).contains(x));
                assert(s.contains(x));
                lemma_child_of_one(t, q, x);
            } else {
                assert(t.children[p][i] == x);
            }
        }
        assert forall|r: int| #[trigger] u.children.dom().contains(r) implies !u.children[r].contains(
            c,
        ) by {
            if r != q && t.children[r].contains(c) {
                lemma_child_of_one(t, r, c);
            }
        }
    } else {
        assert forall|r: int| #[trigger] u.children.dom().contains(r) implies !u.children[r].contains(
            c,
        ) by {
            if t.children[r].contains(c) {
                lemma_child_of_one(t, r, c);
            }
        }
    }
}

/// To make `c` the last child of `p` keeps the tree together.
pub proof fn lemma_attach_wf(t: Tree, p: int, c: int)
    requires
        t.wf(),
        t.is_parent(p),
        t.is_child(c),
        p == t.root ==> !t.is_text(c),
    ensures
        t.attach(p, c).wf(),
{
    let u = t.unlinked(c);
    lemma_unlinked(t, c);
    let a = t.attach(p, c);
    assert(u.children.dom().contains(p));
    assert(a.children.dom() =~= u.children.dom());
    assert forall|r: int, i: int|
        a.children.dom().contains(r) && 0 <= i < a.children[r].len() implies {
        let x = #[trigger] a.children[r][i];
        &&& a.is_child(x)
        &&& a.parent.dom().contains(x)
        &&& a.parent[x] == r
        &&& (r == a.root ==> !a.is_text(x))
    } by {
        let x = a.children[r][i];
        if r == p && i == u.children[p].len() {
        } else {
            assert(u.children[r][i] == x);
            assert(u.children[r].contains(x));
        }
    }
    assert forall|r: int| #[trigger] a.children.dom().contains(r) implies a.children[r].no_duplicates() by {
        if r == p {
            let s = u.children[p];
            assert(!s.contains(c));
            assert forall|i: int, j: int|
                0 <= i < s.len() + 1 && 0 <= j < s.len() + 1 && i != j implies s.push(c)[i] != s.push(
                c,
            )[j] by {
                if i < s.len() {
                    assert(s.contains(s[i]));
                }
                if j < s.len() {
                    assert(s.contains(s[j]));
                }
            }
        }
    }
}

/// The items of a list are those of another tree too, where the two trees
/// agree on the list and on the texts in it.
pub proof fn lemma_items_agree(t: Tree, u: Tree, p: int)
    requires
        t.children[p] == u.children[p],
        forall|i: int|
            0 <= i < t.children[p].len() ==> item_of(t.text, #[trigger] t.children[p][i]) == item_of(
                u.text,
                t.children[p][i],
            ),
    ensures
        t.items(p) == u.items(p),
{
    assert(t.items(p) =~= u.items(p));
}

/// On the outline, to take a node that is no text out of its parent's
/// children is the same step.
pub proof fn lemma_unlinked_outline(t: Tree, c: int)
    requires
        t.wf(),
        !t.is_text(c),
    ensures
        t.unlinked(c).outline() == t.outline().unlinked(c),
{
    let u = t.unlinked(c);
    let a = u.outline();
    let b = t.outline().unlinked(c);
    if t.parent.dom().contains(c) {
        let q = t.parent[c];
        let s = t.children[q];
        assert(t.children.dom().contains(q));
        lemma_filter_then_map(s, item_fn(t.text), is_not(c), not_node(c));
        assert forall|p: int| a.children.dom().contains(p) implies #[trigger] a.children[p]
            == b.children[p] by {
            if p != q {
                assert(u.children[p] == t.children[p]);
            }
        }
        assert(a.children =~= b.children);
    }
    assert(a =~= b);
}

/// On the outline, to make a node that is no text the last child of `p` is
/// the same step.
pub proof fn lemma_attach_outline(t: Tree, p: int, c: int)
    requires
        t.wf(),
        t.is_parent(p),
        t.is_markup(c),
    ensures
        t.attach(p, c).outline() == t.outline().push_node(p, c),
{
    let u = t.unlinked(c);
    lemma_unlinked(t, c);
    lemma_unlinked_outline(t, c);
    let a = t.attach(p, c).outline();
    let b = t.outline().push_node(p, c);
    let uo = u.outline();
    assert(u.children.dom().contains(p));
    assert forall|r: int| a.children.dom().contains(r) implies #[trigger] a.children[r]
        == b.children[r] by {
        if r == p {
            assert(t.attach(p, c).items(p) =~= u.items(p).push(Item::Node(c)));
        } else {
            assert(t.attach(p, c).children[r] == u.children[r]);
        }
    }
    assert(a.children =~= b.children);
    assert(a.parent =~= b.parent);
    assert(a =~= b);
}

/// To take the elements out of the root's children keeps the tree
/// together, and is the same step on the outline.
pub proof fn lemma_root_without_elements(t: Tree)
    requires
        t.wf(),
    ensures
        t.root_without_elements().wf(),
        t.root_without_elements().outline() == t.outline().root_without_elements(),
{
    let u = t.root_without_elements();
    let s = t.children[t.root];
    let keys = t.names.dom();
    lemma_filter_members(s, not_in(keys));
    assert(t.children.dom().contains(t.root));
    assert(u.children.dom() =~= t.children.dom());
    assert forall|p: int, i: int|
        u.children.dom().contains(p) && 0 <= i < u.children[p].len() implies {
        let x = #[trigger] u.children[p][i];
        &&& u.is_child(x)
        &&& u.parent.dom().contains(x)
        &&& u.parent[x] == p
        &&& (p == u.root ==> !u.is_text(x))
    } by {
        let x = u.children[p][i];
        if p == t.root {
            assert(s.filter(not_in(keys)).contains(x));
            assert(s.contains(x));
            lemma_child_of_one(t, p, x);
        } else {
            assert(t.children[p][i] == x);
        }
    }
    let a = u.outline();
    let b = t.outline().root_without_elements();
    lemma_filter_then_map(s, item_fn(t.text), not_in(keys), no_node_in(keys));
    assert forall|p: int| a.children.dom().contains(p) implies #[trigger] a.children[p]
        == b.children[p] by {
        if p != t.root {
            assert(u.children[p] == t.children[p]);
        }
    }
    assert(a.children =~= b.children);
    assert(a =~= b);
}

/// To make a node that is no text the last child of the root keeps the
/// tree together, and is the same step on the outline.
pub proof fn lemma_attach_root(t: Tree, c: int)
    requires
        t.wf(),
        t.is_markup(c),
    ensures
        t.attach_root(c).wf(),
        t.attach_root(c).outline() == t.outline().push_root(c),
{
    if t.is_element(c) {
        lemma_root_without_elements(t);
        let u = t.root_without_elements();
        lemma_attach_wf(u, t.root, c);
        lemma_attach_outline(u, t.root, c);
    } else {
        lemma_attach_wf(t, t.root, c);
        lemma_attach_outline(t, t.root, c);
    }
}

/// To make a node that is no text the last child of an element keeps the
/// tree together, and is the same step on the outline.
pub proof fn lemma_attach(t: Tree, p: int, c: int)
    requires
        t.wf(),
        t.is_element(p),
        t.is_markup(c),
    ensures
        t.attach(p, c).wf(),
        t.attach(p, c).outline() == t.outline().push_node(p, c),
        t.outline().push_node(p, c) == t.outline().push(p, Item::Node(c)),
{
    lemma_attach_wf(t, p, c);
    lemma_attach_outline(t, p, c);
}

/// Where the last child of the element `p` is a text, to add `text` to what
/// it holds keeps the tree together, and on the outline it is to append
/// `text` to `p`.
pub proof fn lemma_text_joins(t: Tree, p: int, text: Seq<char>)
    requires
        t.wf(),
        t.is_element(p),
        t.children[p].len() > 0,
        t.is_text(t.children[p].last()),
    ensures
        t.outline().ends_in_text(p),
        ({
            let k = t.children[p].last();
            let u = t.with_text(k, t.text[k] + text);
            u.wf() && u.outline() == t.outline().push_text(p, text)
        }),
{
    let s = t.children[p];
    let k = s.last();
    let u = t.with_text(k, t.text[k] + text);
    assert(t.children.dom().contains(p));
    assert(s.contains(k));
    lemma_child_of_one(t, p, k);
    assert(u.text.dom() =~= t.text.dom());
    let a = u.outline();
    let b = t.outline().push_text(p, text);
    assert(t.items(p).last() == Item::Text(t.text[k]));
    assert forall|r: int| a.children.dom().contains(r) implies #[trigger] a.children[r]
        == b.children[r] by {
        if r == p {
            assert(u.items(p) =~= t.items(p).drop_last().push(Item::Text(t.text[k] + text)));
        } else {
            assert forall|i: int| 0 <= i < t.children[r].len() implies item_of(
                t.text,
                #[trigger] t.children[r][i],
            ) == item_of(u.text, t.children[r][i]) by {
                if t.children[r][i] == k {
                    assert(t.children[r].contains(k));
                    lemma_child_of_one(t, r, k);
                }
            }
            lemma_items_agree(t, u, r);
        }
    }
    assert(a.children =~= b.children);
    assert(a.parent =~= b.parent);
    assert(a =~= b);
}

/// A new text node that holds `text`, made the last child of the element
/// `p` whose last child is no text, keeps the tree together, and on the
/// outline it is to append `text` to `p`.
pub proof fn lemma_text_added(t: Tree, p: int, k: int, text: Seq<char>)
    requires
        t.wf(),
        t.is_element(p),
        !t.has(k),
        !(t.children[p].len() > 0 && t.is_text(t.children[p].last())),
    ensures
        !t.outline().ends_in_text(p),
        t.with_text(k, text).attach(p, k).wf(),
        t.with_text(k, text).attach(p, k).outline() == t.outline().push_text(p, text),
{
    let u = t.with_text(k, text);
    lemma_fresh_unused(t, k);
    assert(u.wf()) by {
        assert forall|r: int, i: int|
            u.children.dom().contains(r) && 0 <= i < u.children[r].len() implies {
            let x = #[trigger] u.children[r][i];
            &&& u.is_child(x)
            &&& u.parent.dom().contains(x)
            &&& u.parent[x] == r
            &&& (r == u.root ==> !u.is_text(x))
        } by {
            assert(t.children[r].contains(t.children[r][i]));
        }
    }
    lemma_attach_wf(u, p, k);
    let v = u.attach(p, k);
    assert(t.children.dom().contains(p));
    assert(v.children == t.children.insert(p, t.children[p].push(k)));
    let a = v.outline();
    let b = t.outline().push_text(p, text);
    assert forall|r: int| a.children.dom().contains(r) implies #[trigger] a.children[r]
        == b.children[r] by {
        assert forall|i: int| 0 <= i < t.children[r].len() implies item_of(
            t.text,
            #[trigger] t.children[r][i],
        ) == item_of(v.text, t.children[r][i]) by {
            assert(t.children[r].contains(t.children[r][i]));
        }
        if r == p {
            assert(v.items(p) =~= t.items(p).push(Item::Text(text)));
        } else {
            lemma_items_agree(t, v, r);
        }
    }
    assert(a.children =~= b.children);
    assert(a.parent =~= b.parent);
    assert(a =~= b);
}

/// A key that is no node of the tree stands in no list of children and
/// records no parent.
pub proof fn lemma_fresh_unused(t: Tree, k: int)
    requires
        t.wf(),
        !t.has(k),
    ensures
        !t.parent.dom().contains(k),
        !t.children.dom().contains(k),
        forall|r: int| #[trigger] t.children.dom().contains(r) ==> !t.children[r].contains(k),
{
    assert forall|r: int| #[trigger] t.children.dom().contains(r) implies !t.children[r].contains(
        k,
    ) by {
        if t.children[r].contains(k) {
            lemma_child_of_one(t, r, k);
        }
    }
}

/// A new node that is no child of any node keeps the lists of children as
/// they are on the outline.
proof fn lemma_outline_children_kept(t: Tree, u: Tree)
    requires
        t.wf(),
        u.text == t.text,
        forall|r: int| #[trigger]
            t.children.dom().contains(r) ==> u.children.dom().contains(r) && u.children[r]
                == t.children[r],
    ensures
        forall|r: int| #[trigger]
            t.children.dom().contains(r) ==> u.outline().children[r] == t.outline().children[r],
{
    assert forall|r: int| #[trigger] t.children.dom().contains(r) implies u.items(r) == t.items(
        r,
    ) by {
        lemma_items_agree(t, u, r);
    }
}

/// A new element keeps the tree together, and is the same step on the
/// outline.
pub proof fn lemma_with_element(t: Tree, k: int, name: QNameView)
    requires
        t.wf(),
        !t.has(k),
    ensures
        t.with_element(k, name).wf(),
        t.with_element(k, name).outline() == t.outline().with_element(k, name),
{
    let u = t.with_element(k, name);
    lemma_fresh_unused(t, k);
    assert(u.children.dom() =~= u.names.dom().insert(u.root));
    assert(u.attrs.dom() =~= u.names.dom());
    assert forall|r: int, i: int|
        u.children.dom().contains(r) && 0 <= i < u.children[r].len() implies {
        let x = #[trigger] u.children[r][i];
        &&& u.is_child(x)
        &&& u.parent.dom().contains(x)
        &&& u.parent[x] == r
        &&& (r == u.root ==> !u.is_text(x))
    } by {
        assert(t.children[r][i] == u.children[r][i]);
    }
    lemma_outline_children_kept(t, u);
    let a = u.outline();
    let b = t.outline().with_element(k, name);
    assert(u.items(k) =~= Seq::<Item>::empty());
    assert(a.children =~= b.children);
    assert(a =~= b);
}

/// A new comment keeps the tree together, and is the same step on the
/// outline.
pub proof fn lemma_with_comment(t: Tree, k: int, s: Seq<char>)
    requires
        t.wf(),
        !t.has(k),
    ensures
        t.with_comment(k, s).wf(),
        t.with_comment(k, s).outline() == t.outline().with_comment(k, s),
{
    let u = t.with_comment(k, s);
    assert forall|r: int, i: int|
        u.children.dom().contains(r) && 0 <= i < u.children[r].len() implies {
        let x = #[trigger] u.children[r][i];
        &&& u.is_child(x)
        &&& u.parent.dom().contains(x)
        &&& u.parent[x] == r
        &&& (r == u.root ==> !u.is_text(x))
    } by {
        assert(t.children[r][i] == u.children[r][i]);
    }
    assert(u.outline() =~= t.outline().with_comment(k, s));
}

/// A new processing instruction keeps the tree together, and is the same
/// step on the outline.
pub proof fn lemma_with_instruction(t: Tree, k: int, target: Seq<char>, data: Option<Seq<char>>)
    requires
        t.wf(),
        !t.has(k),
    ensures
        t.with_instruction(k, target, data).wf(),
        t.with_instruction(k, target, data).outline() == t.outline().with_instruction(
            k,
            target,
            data,
        ),
{
    let u = t.with_instruction(k, target, data);
    assert forall|r: int, i: int|
        u.children.dom().contains(r) && 0 <= i < u.children[r].len() implies {
        let x = #[trigger] u.children[r][i];
        &&& u.is_child(x)
        &&& u.parent.dom().contains(x)
        &&& u.parent[x] == r
        &&& (r == u.root ==> !u.is_text(x))
    } by {
        assert(t.children[r][i] == u.children[r][i]);
    }
    assert(u.outline() =~= t.outline().with_instruction(k, target, data));
}

/// To set an attribute of an element keeps the tree together, and is the
/// same step on the outline.
pub proof fn lemma_with_attr(t: Tree, e: int, name: QNameView, value: Seq<char>)
    requires
        t.wf(),
        t.is_element(e),
    ensures
        t.with_attr(e, name, value).wf(),
        t.with_attr(e, name, value).outline() == t.outline().with_attr(e, name, value),
{
    let u = t.with_attr(e, name, value);
    assert(u.attrs.dom() =~= t.attrs.dom());
    assert(u.outline() =~= t.outline().with_attr(e, name, value));
}

/// The position of a member is the index of its first occurrence.
pub proof fn lemma_position(s: Seq<int>, x: int)
    requires
        s.contains(x),
    ensures
        0 <= position(s, x) < s.len(),
        s[position(s, x)] == x,
    decreases s.len(),
{
    let i = choose|i: int| 0 <= i < s.len() && s[i] == x;
    if s[0] != x {
        assert(s.drop_first()[i - 1] == x);
        lemma_position(s.drop_first(), x);
    }
}

/// To cut a run out of the children of `p` keeps the tree together.
pub proof fn lemma_cut_wf(t: Tree, p: int, a: int, b: int)
    requires
        t.wf(),
        t.children.dom().contains(p),
        0 <= a <= b <= t.children[p].len(),
    ensures
        t.cut(p, a, b).wf(),
{
    let u = t.cut(p, a, b);
    let s = t.children[p];
    assert(u.children.dom() =~= t.children.dom());
    assert forall|r: int, i: int|
        u.children.dom().contains(r) && 0 <= i < u.children[r].len() implies {
        let x = #[trigger] u.children[r][i];
        &&& u.is_child(x)
        &&& u.parent.dom().contains(x)
        &&& u.parent[x] == r
        &&& (r == u.root ==> !u.is_text(x))
    } by {
        let x = u.children[r][i];
        if r == p {
            let j = if i < a {
                i
            } else {
                i - a + b
            };
            assert(x == s[j]);
            assert(s.contains(x));
            lemma_child_of_one(t, p, x);
            if s.subrange(a, b).to_set().contains(x) {
                let m = choose|m: int| 0 <= m < b - a && s.subrange(a, b)[m] == x;
                assert(s[a + m] == s[j]);
            }
        } else {
            assert(t.children[r][i] == x);
            assert(t.children[r].contains(x));
            lemma_child_of_one(t, r, x);
            if s.subrange(a, b).to_set().contains(x) {
                let m = choose|m: int| 0 <= m < b - a && s.subrange(a, b)[m] == x;
                assert(s[a + m] == x);
                assert(s.contains(x));
                lemma_child_of_one(t, p, x);
            }
        }
    }
    assert forall|r: int| #[trigger] u.children.dom().contains(r) implies u.children[r].no_duplicates() by {
        if r == p {
            let v = u.children[p];
            assert forall|i: int, j: int| 0 <= i < v.len() && 0 <= j < v.len() && i != j implies v[i]
                != v[j] by {
                let i2 = if i < a {
                    i
                } else {
                    i - a + b
                };
                let j2 = if j < a {
                    j
                } else {
                    j - a + b
                };
                assert(v[i] == s[i2] && v[j] == s[j2]);
            }
        }
    }
}

/// To take the child at `b` out of its parent, after the run from `a` up
/// to `b` was cut out, is to cut out the run from `a` up to and with `b`.
pub proof fn lemma_cut_step(t: Tree, p: int, a: int, b: int)
    requires
        t.wf(),
        t.children.dom().contains(p),
        0 <= a <= b < t.children[p].len(),
    ensures
        t.cut(p, a, b).detach(t.children[p][b]) == t.cut(p, a, b + 1),
{
    let s = t.children[p];
    let c = s[b];
    let u = t.cut(p, a, b);
    assert(s.contains(c));
    lemma_child_of_one(t, p, c);
    if s.subrange(a, b).to_set().contains(c) {
        let m = choose|m: int| 0 <= m < b - a && s.subrange(a, b)[m] == c;
        assert(s[a + m] == s[b]);
    }
    assert(u.parent.dom().contains(c) && u.parent[c] == p);
    let v = u.children[p];
    assert(v[a] == c);
    assert forall|i: int, j: int| 0 <= i < v.len() && 0 <= j < v.len() && i != j implies v[i]
        != v[j] by {
        let i2 = if i < a {
            i
        } else {
            i - a + b
        };
        let j2 = if j < a {
            j
        } else {
            j - a + b
        };
        assert(v[i] == s[i2] && v[j] == s[j2]);
    }
    lemma_without(v, c);
    assert(without(v, c) == v.remove(a));
    assert(v.remove(a) =~= s.take(a) + s.skip(b + 1));
    let x = u.detach(c);
    let y = t.cut(p, a, b + 1);
    assert(x.children =~= y.children);
    assert(x.parent =~= y.parent) by {
        assert forall|k: int| x.parent.dom().contains(k) <==> y.parent.dom().contains(k) by {
            let run = s.subrange(a, b);
            let more = s.subrange(a, b + 1);
            if more.to_set().contains(k) {
                let m = choose|m: int| 0 <= m < more.len() && #[trigger] more[m] == k;
                if m < b - a {
                    assert(run[m] == k);
                }
            }
            if run.to_set().contains(k) {
                let m = choose|m: int| 0 <= m < run.len() && #[trigger] run[m] == k;
                assert(more[m] == k);
            }
            if k == c {
                assert(more[b - a] == c);
            }
        }
    }
    assert(x =~= y);
}

/// To cut the children of `p` from the `a`th on is the same step on the
/// outline.
pub proof fn lemma_cut_outline(t: Tree, p: int, a: int)
    requires
        t.wf(),
        t.children.dom().contains(p),
        0 <= a <= t.children[p].len(),
    ensures
        t.cut(p, a, t.children[p].len() as int).outline() == t.outline().cut(p, a),
{
    let s = t.children[p];
    let n = s.len() as int;
    let u = t.cut(p, a, n);
    let x = u.outline();
    let y = t.outline().cut(p, a);
    assert(u.children[p] =~= s.take(a));
    assert forall|r: int| x.children.dom().contains(r) implies #[trigger] x.children[r]
        == y.children[r] by {
        if r == p {
            assert(u.items(p) =~= t.items(p).take(a));
        } else {
            assert(u.children[r] == t.children[r]);
        }
    }
    assert(x.children =~= y.children);
    let tail = t.items(p).skip(a);
    assert forall|k: int| !t.text.dom().contains(k) implies (s.subrange(a, n).to_set().contains(k)
        <==> node_keys(tail).contains(k)) by {
        if s.subrange(a, n).to_set().contains(k) {
            let m = choose|m: int| 0 <= m < n - a && s.subrange(a, n)[m] == k;
            assert(tail[m] == Item::Node(k));
        }
        if node_keys(tail).contains(k) {
            let m = choose|m: int| 0 <= m < tail.len() && tail[m] == Item::Node(k);
            assert(item_of(t.text, s[a + m]) == Item::Node(k));
            assert(s.subrange(a, n)[m] == k);
        }
    }
    assert(x.parent =~= y.parent);
    assert(x =~= y);
}

/// To take a node out of its parent keeps the tree together, and for a
/// node that is no text it is the same step on the outline.
pub proof fn lemma_detach(t: Tree, c: int)
    requires
        t.wf(),
    ensures
        t.detach(c).wf(),
        t.detach(c).extends(t),
        !t.is_text(c) ==> t.detach(c).outline() == t.outline().detach(c),
{
    lemma_unlinked(t, c);
    let u = t.unlinked(c);
    let d = t.detach(c);
    if t.parent.dom().contains(c) {
        assert forall|r: int, i: int|
            d.children.dom().contains(r) && 0 <= i < d.children[r].len() implies {
            let x = #[trigger] d.children[r][i];
            &&& d.is_child(x)
            &&& d.parent.dom().contains(x)
            &&& d.parent[x] == r
            &&& (r == d.root ==> !d.is_text(x))
        } by {
            assert(u.children[r][i] == d.children[r][i]);
            assert(u.children[r].contains(u.children[r][i]));
        }
        if !t.is_text(c) {
            lemma_unlinked_outline(t, c);
            assert(d.outline().parent =~= t.outline().detach(c).parent);
            assert(d.outline() =~= t.outline().detach(c));
        }
    }
}

/// The nodes among the items of a list are the members that are no texts.
pub proof fn lemma_node_keys(t: Tree, s: Seq<int>, k: int)
    requires
        !t.text.dom().contains(k),
    ensures
        node_keys(s.map_values(item_fn(t.text))).contains(k) <==> s.contains(k),
{
    let items = s.map_values(item_fn(t.text));
    if s.contains(k) {
        let m = choose|m: int| 0 <= m < s.len() && s[m] == k;
        assert(items[m] == Item::Node(k));
    }
    if node_keys(items).contains(k) {
        let m = choose|m: int| 0 <= m < items.len() && items[m] == Item::Node(k);
        assert(item_of(t.text, s[m]) == Item::Node(k));
    }
}

/// After the element `from` lost its children and the first `n` of them
/// became the last children of the element `to`, the tree hangs together,
/// and to make the next of them the last child of `to` is one step more.
pub proof fn lemma_moved(t: Tree, from: int, to: int, n: int)
    requires
        t.wf(),
        t.is_element(from),
        t.is_element(to),
        0 <= n <= t.children[from].len(),
    ensures
        t.moved(from, to, n).wf(),
        t.moved(from, to, n).extends(t),
        t.moved(from, to, 0) == t.cleared(from),
        n < t.children[from].len() ==> t.moved(from, to, n).attach(to, t.children[from][n])
            == t.moved(from, to, n + 1),
{
    let all = t.children[from];
    let kids = all.take(n);
    let c = t.cleared(from);
    let u = t.moved(from, to, n);
    assert(t.children.dom().contains(from) && t.children.dom().contains(to));
    assert(u.children.dom() =~= t.children.dom());
    assert forall|x: int| all.contains(x) implies !c.children[to].contains(x) by {
        if c.children[to].contains(x) {
            lemma_child_of_one(t, from, x);
            lemma_child_of_one(t, to, x);
        }
    }
    assert forall|r: int, i: int|
        u.children.dom().contains(r) && 0 <= i < u.children[r].len() implies {
        let x = #[trigger] u.children[r][i];
        &&& u.is_child(x)
        &&& u.parent.dom().contains(x)
        &&& u.parent[x] == r
        &&& (r == u.root ==> !u.is_text(x))
    } by {
        let x = u.children[r][i];
        if r == to && i >= c.children[to].len() {
            let j = i - c.children[to].len();
            assert(x == all[j]);
            assert(kids[j] == x);
            assert(all.contains(x));
            lemma_child_of_one(t, from, x);
        } else {
            assert(t.children[r][i] == x);
            assert(t.children[r].contains(x));
            lemma_child_of_one(t, r, x);
            if all.contains(x) {
                lemma_child_of_one(t, from, x);
            }
            assert(!kids.contains(x)) by {
                if kids.contains(x) {
                    let j = choose|j: int| 0 <= j < kids.len() && kids[j] == x;
                    assert(all[j] == x);
                }
            }
        }
    }
    assert forall|r: int| #[trigger] u.children.dom().contains(r) implies u.children[r].no_duplicates() by {
        if r == to {
            let v = u.children[to];
            let base = c.children[to];
            assert forall|i: int, j: int| 0 <= i < v.len() && 0 <= j < v.len() && i != j implies v[i]
                != v[j] by {
                if i >= base.len() {
                    assert(v[i] == all[i - base.len()]);
                    assert(all.contains(v[i]));
                } else {
                    assert(base.contains(v[i]));
                }
                if j >= base.len() {
                    assert(v[j] == all[j - base.len()]);
                    assert(all.contains(v[j]));
                } else {
                    assert(base.contains(v[j]));
                }
            }
        }
    }
    assert forall|x: int| #[trigger] u.parent.dom().contains(x) implies u.is_child(x) && u.is_parent(
        u.parent[x],
    ) by {
        if kids.contains(x) {
            let j = choose|j: int| 0 <= j < kids.len() && kids[j] == x;
            assert(all[j] == x);
            assert(all.contains(x));
            lemma_child_of_one(t, from, x);
        }
    }
    assert(t.moved(from, to, 0) =~= c) by {
        assert(all.take(0) =~= Seq::<int>::empty());
        assert(c.children[to] + Seq::<int>::empty() =~= c.children[to]);
        assert(c.children.insert(to, c.children[to]) =~= c.children);
        assert(t.moved(from, to, 0).parent =~= c.parent);
    }
    if n < all.len() {
        let x = all[n];
        assert(all.contains(x));
        assert(!u.parent.dom().contains(x)) by {
            assert(all.to_set().contains(x));
            if kids.contains(x) {
                let j = choose|j: int| 0 <= j < kids.len() && kids[j] == x;
                assert(all[j] == all[n]);
            }
        }
        let a = u.attach(to, x);
        let b = t.moved(from, to, n + 1);
        let more = all.take(n + 1);
        assert(more =~= kids.push(x));
        assert(a.children =~= b.children) by {
            assert((c.children[to] + kids).push(x) =~= c.children[to] + more);
        }
        assert(a.parent =~= b.parent) by {
            assert forall|y: int| more.contains(y) <==> (kids.contains(y) || y == x) by {
                if more.contains(y) {
                    let j = choose|j: int| 0 <= j < more.len() && more[j] == y;
                    if j < n {
                        assert(kids[j] == y);
                    }
                }
                if kids.contains(y) {
                    let j = choose|j: int| 0 <= j < kids.len() && kids[j] == y;
                    assert(more[j] == y);
                }
                if y == x {
                    assert(more[n] == x);
                }
            }
        }
        assert(a =~= b);
    }
}

/// To move the children of one element to the end of another is the same
/// step on the outline.
pub proof fn lemma_move_children_outline(t: Tree, from: int, to: int)
    requires
        t.wf(),
        t.is_element(from),
        t.is_element(to),
    ensures
        t.move_children(from, to).outline() == t.outline().move_children(from, to),
{
    let all = t.children[from];
    let n = all.len() as int;
    let u = t.move_children(from, to);
    let c = t.cleared(from);
    assert(all.take(n) =~= all);
    assert(t.children.dom().contains(from) && t.children.dom().contains(to));
    let x = u.outline();
    let y = t.outline().move_children(from, to);
    assert forall|r: int| x.children.dom().contains(r) implies #[trigger] x.children[r]
        == y.children[r] by {
        if r == to {
            assert(u.items(to) =~= c.items(to) + t.items(from));
            if to == from {
                assert(c.items(to) =~= Seq::<Item>::empty());
            } else {
                assert(c.items(to) =~= t.items(to));
            }
        } else if r == from {
            assert(u.items(from) =~= Seq::<Item>::empty());
        } else {
            assert(u.children[r] == t.children[r]);
        }
    }
    assert(x.children =~= y.children);
    assert forall|k: int| !t.text.dom().contains(k) implies (node_keys(t.items(from)).contains(k)
        <==> all.contains(k)) by {
        lemma_node_keys(t, all, k);
    }
    assert(x.parent =~= y.parent) by {
        assert forall|k: int| x.parent.dom().contains(k) <==> y.parent.dom().contains(k) by {
            if !t.text.dom().contains(k) {
                lemma_node_keys(t, all, k);
            }
        }
        assert forall|k: int| x.parent.dom().contains(k) implies x.parent[k] == y.parent[k] by {
            lemma_node_keys(t, all, k);
        }
    }
    assert(x =~= y);
}

/// `k` is a text node without a parent that holds what it held in `t0`.
pub open spec fn loose_text(t: Tree, t0: Tree, k: int) -> bool {
    t.is_text(k) && t.text[k] == t0.text[k] && !t.parent.dom().contains(k)
}

/// To append keeps the nodes of the tree, and leaves a text node without a
/// parent as it is.
pub proof fn lemma_append_frame(t: Tree, u: Tree, at_root: bool, p: int, child: NodeOrText<'_>)
    requires
        t.wf(),
        child.fits(t),
        child.appended(t, u, at_root, p),
        at_root ==> p == t.root && child is AppendNode,
        !at_root ==> t.is_element(p),
    ensures
        u.extends(t),
        u.names == t.names,
        u.attrs == t.attrs,
        u.comments == t.comments,
        u.instructions == t.instructions,
        forall|t0: Tree, k: int| #[trigger] loose_text(t, t0, k) ==> loose_text(u, t0, k),
{
    assert(t.children.dom().contains(p));
    match child {
        NodeOrText::AppendNode(h) => {},
        NodeOrText::AppendText(s) => {
            if t.ends_in_text(p) {
                let last = t.children[p].last();
                assert(t.children[p].contains(last));
                lemma_child_of_one(t, p, last);
                assert(u.text.dom() =~= t.text.dom());
            }
        },
    }
}

} // verus!
