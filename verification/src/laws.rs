//! What holds of the sink's commands, whatever the document and the
//! arguments.
use crate::error::ErrorView;
use crate::facts::lemma_child_of_one;
use crate::handle::Handle;
use crate::name::{Attribute, QNameView};
use crate::outline::{attrs_added, item_of, node_keys, not_node, texts_apart, Item, Outline};
use crate::seqs::lemma_filter_all;
use crate::tree::Tree;
use vstd::prelude::*;

verus! {

/// Text joins text: to append `a` and then `b` to `p` is to append `a`
/// followed by `b` at once.
pub proof fn lemma_text_joins_text(o: Outline, p: int, a: Seq<char>, b: Seq<char>)
    ensures
        o.push_text(p, a).push_text(p, b) == o.push_text(p, a + b),
        o.push_text(p, a).ends_in_text(p),
{
    let s = o.children[p];
    let x = o.push_text(p, a).push_text(p, b);
    let y = o.push_text(p, a + b);
    if o.ends_in_text(p) {
        let held = s.last()->Text_0;
        assert((held + a) + b =~= held + (a + b));
        assert(s.drop_last().push(Item::Text(held + a)).drop_last() =~= s.drop_last());
    } else {
        assert(s.push(Item::Text(a)).drop_last() =~= s);
    }
    assert(x.children =~= y.children);
    assert(x =~= y);
}

/// Three texts appended one after the other to an element without children
/// are one child, which holds the three in order.
pub proof fn lemma_three_texts_one_child(
    o: Outline,
    p: int,
    a: Seq<char>,
    b: Seq<char>,
    c: Seq<char>,
)
    requires
        o.children[p].len() == 0,
    ensures
        o.push_text(p, a).push_text(p, b).push_text(p, c).children[p] == seq![
            Item::Text(a + b + c),
        ],
{
    lemma_text_joins_text(o, p, a, b);
    lemma_text_joins_text(o, p, a + b, c);
    assert(o.push_text(p, a + b + c).children[p] =~= seq![Item::Text(a + b + c)]);
}

/// Text appended to `p` adds a child only where the last child of `p` is no
/// text; it never adds more than one.
pub proof fn lemma_text_adds_at_most_one(o: Outline, p: int, text: Seq<char>)
    ensures
        o.push_text(p, text).children[p].len() == o.children[p].len() + (if o.ends_in_text(p) {
            0int
        } else {
            1int
        }),
        o.push_text(p, text).children[p].last() is Text,
{
}

/// What is appended to an element is its last child: a node as itself,
/// text as the end of the last text.
pub proof fn lemma_appended_is_last(o: Outline, p: int, item: Item)
    requires
        p != o.root,
    ensures
        match item {
            Item::Node(c) => o.push(p, item).children[p].last() == item,
            Item::Text(text) => o.push(p, item).children[p].last() == Item::Text(
                if o.ends_in_text(p) {
                    o.children[p].last()->Text_0 + text
                } else {
                    text
                },
            ),
        },
{
}

/// What is appended to the contents of a template element is the last child
/// of the element itself.
pub proof fn lemma_template_round_trip(o: Outline, h: Handle<'_>, c: int)
    requires
        h is Element,
        h->Element_2,
        h.key() != o.root,
    ensures
        o.push(h.template_contents().key(), Item::Node(c)).children[h.key()].last() == Item::Node(
            c,
        ),
{
    lemma_appended_is_last(o, h.key(), Item::Node(c));
}

/// One parent at most: in a tree that hangs together, a node that stands
/// among the children of `p` records `p`, stands there once, and stands
/// among the children of no other node.
pub proof fn lemma_one_parent(t: Tree, p: int, q: int, c: int)
    requires
        t.wf(),
        t.is_parent(p),
        t.is_parent(q),
        t.children[p].contains(c),
    ensures
        t.parent.dom().contains(c) && t.parent[c] == p,
        t.children[q].contains(c) ==> q == p,
        forall|i: int, j: int|
            0 <= i < t.children[p].len() && 0 <= j < t.children[p].len() && t.children[p][i] == c
                && t.children[p][j] == c ==> i == j,
{
    assert(t.children.dom().contains(p) && t.children.dom().contains(q));
    assert(t.children[p].no_duplicates());
    lemma_child_of_one(t, p, c);
    if t.children[q].contains(c) {
        lemma_child_of_one(t, q, c);
    }
}

/// A node item is the node: where the outline shows the node `k` at a
/// place among the children of `p`, the store has `k` itself at that place.
pub proof fn lemma_node_item_is_the_node(t: Tree, p: int, i: int, k: int)
    requires
        0 <= i < t.children[p].len(),
        t.items(p)[i] == Item::Node(k),
    ensures
        t.children[p][i] == k,
        !t.is_text(k),
{
    assert(item_of(t.text, t.children[p][i]) == Item::Node(k));
}

/// A node that the outline shows among the children of `p` stands among
/// them in the store, and records `p`.
pub proof fn lemma_shown_is_linked(t: Tree, p: int, k: int)
    requires
        t.wf(),
        t.is_parent(p),
        t.outline().children[p].contains(Item::Node(k)),
    ensures
        t.is_linked(k),
        t.parent[k] == p,
        !t.is_text(k),
{
    assert(t.children.dom().contains(p));
    let items = t.items(p);
    let i = choose|i: int| 0 <= i < items.len() && items[i] == Item::Node(k);
    lemma_node_item_is_the_node(t, p, i, k);
    assert(t.children[p].contains(k));
    lemma_child_of_one(t, p, k);
}

/// A handle stays good: where a tree has every node of an earlier one, a
/// handle of a node of the earlier tree is a handle of a node of the later
/// one, and the name that it holds is still the name of its element.
pub proof fn lemma_handle_stays(h: Handle<'_>, before: Tree, after: Tree)
    requires
        after.extends(before),
        h.in_tree(before),
    ensures
        h.in_tree(after),
        h.agrees(before) ==> h.agrees(after),
{
    if h is Element {
        assert(before.names.dom().contains(h.key()));
    }
}

/// The mark of a template stays: a handle that has the mark its element
/// was made with has it still after other elements were made, as templates
/// or not.
pub proof fn lemma_mark_stays(h: Handle<'_>, before: Set<int>, after: Set<int>)
    requires
        h.marked_as(before),
        after.contains(h.key()) == before.contains(h.key()),
    ensures
        h.marked_as(after),
{
}

/// First write wins: an attribute that was there keeps its value when
/// attributes are added where they are missing.
pub proof fn lemma_first_value_stays(m: Map<QNameView, Seq<char>>, attrs: Seq<Attribute>)
    ensures
        forall|name: QNameView| #[trigger]
            m.dom().contains(name) ==> attrs_added(m, attrs).dom().contains(name) && attrs_added(
                m,
                attrs,
            )[name] == m[name],
    decreases attrs.len(),
{
    if attrs.len() > 0 {
        lemma_first_value_stays(m, attrs.drop_last());
    }
}

/// Errors stand in the log in the order of the reports, each under the line
/// of its own report: a second report leaves the first where it is.
pub proof fn lemma_log_in_order(log: Seq<ErrorView>, first: ErrorView, second: ErrorView)
    ensures
        log.push(first).push(second).len() == log.len() + 2,
        log.push(first).push(second)[log.len() as int] == first,
        log.push(first).push(second)[log.len() as int + 1] == second,
        log.push(first).push(second).take(log.len() as int) == log,
{
    assert(log.push(first).push(second).take(log.len() as int) =~= log);
}

/// The nodes among `tail` are apart from each other.
pub open spec fn nodes_once(tail: Seq<Item>) -> bool {
    forall|i: int, j: int|
        0 <= i < j < tail.len() && tail[i] is Node ==> #[trigger] tail[i] != #[trigger] tail[j]
}

/// To append, one by one, items of which no node has a parent and no two
/// texts meet is to put them at the end as they are.
pub proof fn lemma_push_all_plain(o: Outline, p: int, tail: Seq<Item>, j: int)
    requires
        p != o.root,
        0 <= j <= tail.len(),
        nodes_once(tail),
        texts_apart(tail),
        forall|i: int|
            0 <= i < tail.len() && (#[trigger] tail[i]) is Node ==> !o.parent.dom().contains(
                tail[i]->Node_0,
            ),
        tail.len() > 0 && tail[0] is Text ==> !o.ends_in_text(p),
    ensures
        o.push_all(p, tail.take(j)).children[p] == o.children[p] + tail.take(j),
        o.push_all(p, tail.take(j)).root == o.root,
        forall|i: int|
            j <= i < tail.len() && (#[trigger] tail[i]) is Node ==> !o.push_all(
                p,
                tail.take(j),
            ).parent.dom().contains(tail[i]->Node_0),
        forall|q: int| q != p ==> #[trigger] o.push_all(p, tail.take(j)).children[q] == o.children[q],
    decreases j,
{
    if j == 0 {
        assert(tail.take(0) =~= Seq::<Item>::empty());
        assert(o.children[p] + tail.take(0) =~= o.children[p]);
    } else {
        lemma_push_all_plain(o, p, tail, j - 1);
        let before = o.push_all(p, tail.take(j - 1));
        assert(tail.take(j).drop_last() =~= tail.take(j - 1));
        assert(tail.take(j).last() == tail[j - 1]);
        let after = before.push(p, tail[j - 1]);
        assert(after == o.push_all(p, tail.take(j)));
        match tail[j - 1] {
            Item::Node(c) => {
                assert(!before.parent.dom().contains(c));
                assert forall|i: int| j <= i < tail.len() && (#[trigger] tail[i]) is Node implies !after.parent.dom().contains(
                    tail[i]->Node_0,
                ) by {
                    assert(tail[j - 1] != tail[i]);
                }
            },
            Item::Text(text) => {
                if j - 1 > 0 {
                    assert(!(tail[j - 2] is Text && tail[j - 2 + 1] is Text));
                    assert((o.children[p] + tail.take(j - 1)).last() == tail[j - 2]);
                } else {
                    assert(o.children[p] + tail.take(0) =~= o.children[p]);
                }
                assert(!before.ends_in_text(p));
            },
        }
        assert(after.children[p] =~= o.children[p] + tail.take(j));
    }
}

/// Nothing joins when `item` is put before the `n`th child of `p`: `p` is
/// an element; `item` is a node that is no child of `p` yet, or text that
/// meets no text on either side; and no two texts stand side by side from
/// the `n`th child on.
pub open spec fn joins_nothing(t: Tree, p: int, n: int, item: Item) -> bool {
    &&& t.is_element(p)
    &&& 0 <= n < t.children[p].len()
    &&& match item {
        Item::Node(c) => !t.is_text(c) && !t.children[p].contains(c),
        Item::Text(_) => !(t.items(p)[n] is Text) && (n > 0 ==> !(t.items(p)[n - 1] is Text)),
    }
    &&& texts_apart(t.items(p).skip(n))
}

/// Insert-before keeps order and identity. Where `item` is put before the
/// `n`th child of an element and nothing joins, the children before it
/// stay, `item` follows them, and the children from the `n`th on follow
/// `item`, each as it was: a node as itself, a text with what it held.
pub proof fn lemma_insert_before_keeps_order(t: Tree, p: int, n: int, item: Item)
    requires
        t.wf(),
        joins_nothing(t, p, n, item),
    ensures
        t.outline().insert_before(p, n, item).children[p] == t.items(p).take(n).push(item)
            + t.items(p).skip(n),
{
    let o = t.outline();
    let s = t.children[p];
    let items = t.items(p);
    let tail = items.skip(n);
    let cut = o.cut(p, n);
    let o1 = cut.push(p, item);
    assert(t.children.dom().contains(p));
    assert(o.children[p] == items);
    assert(cut.children[p] == items.take(n));
    // what the cut leaves, with `item` behind it
    assert(o1.children[p] == items.take(n).push(item) && o1.root == o.root
        && o1.parent.dom().subset_of(cut.parent.dom().union(node_keys(seq![item])))) by {
        assert(seq![item][0] == item);
        match item {
            Item::Node(c) => {
                if cut.parent.dom().contains(c) && cut.parent[c] == p {
                    assert forall|i: int| 0 <= i < items.take(n).len() implies not_node(c)(
                        #[trigger] items.take(n)[i],
                    ) by {
                        if items[i] == Item::Node(c) {
                            assert(item_of(t.text, s[i]) == Item::Node(c));
                            assert(s[i] == c);
                        }
                    }
                    lemma_filter_all(items.take(n), not_node(c));
                }
            },
            Item::Text(text) => {
                if n > 0 {
                    assert(items.take(n).last() == items[n - 1]);
                }
            },
        }
    }
    // the nodes that left have no parent, and are apart from each other
    assert forall|i: int| 0 <= i < tail.len() && (#[trigger] tail[i]) is Node implies !o1.parent.dom().contains(
        tail[i]->Node_0,
    ) by {
        let c = tail[i]->Node_0;
        assert(node_keys(tail).contains(c));
        assert(item_of(t.text, s[n + i]) == Item::Node(c));
        assert(s[n + i] == c);
        assert(s.contains(c));
        if node_keys(seq![item]).contains(c) {
            let at = choose|at: int| 0 <= at < seq![item].len() && seq![item][at] == Item::Node(c);
            assert(item == Item::Node(c));
        }
    }
    assert(nodes_once(tail)) by {
        assert forall|i: int, j: int| 0 <= i < j < tail.len() && tail[i] is Node implies #[trigger] tail[i]
            != #[trigger] tail[j] by {
            assert(item_of(t.text, s[n + i]) == tail[i]);
            assert(item_of(t.text, s[n + j]) == tail[j]);
            assert(s[n + i] != s[n + j]);
        }
    }
    assert(tail.len() > 0 && tail[0] is Text ==> !o1.ends_in_text(p)) by {
        assert(tail[0] == items[n]);
        assert(o1.children[p].last() == item);
    }
    lemma_push_all_plain(o1, p, tail, tail.len() as int);
    assert(tail.take(tail.len() as int) =~= tail);
}

} // verus!
