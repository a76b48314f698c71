//! Facts about sequences that the proofs of the tree need.
use vstd::prelude::*;

verus! {

/// What `filter` keeps are the members that meet `pred`; it makes no
/// duplicate.
pub proof fn lemma_filter_members<A>(s: Seq<A>, pred: spec_fn(A) -> bool)
    ensures
        forall|x: A| #[trigger] s.filter(pred).contains(x) <==> (s.contains(x) && pred(x)),
        s.no_duplicates() ==> s.filter(pred).no_duplicates(),
    decreases s.len(),
{
    reveal(Seq::filter);
    if s.len() > 0 {
        let r = s.drop_last();
        let l = s.last();
        lemma_filter_members(r, pred);
        let fr = r.filter(pred);
        let fs = s.filter(pred);
        assert forall|x: A| #[trigger] fs.contains(x) <==> (s.contains(x) && pred(x)) by {
            if fs.contains(x) {
                let i = choose|i: int| 0 <= i < fs.len() && fs[i] == x;
                if pred(l) && i == fs.len() - 1 {
                    assert(s[s.len() - 1] == x);
                } else {
                    assert(fr[i] == x);
                    assert(fr.contains(x));
                    let j = choose|j: int| 0 <= j < r.len() && r[j] == x;
                    assert(s[j] == x);
                }
            }
            if s.contains(x) && pred(x) {
                let j = choose|j: int| 0 <= j < s.len() && s[j] == x;
                if j == s.len() - 1 {
                    assert(fs[fs.len() - 1] == x);
                } else {
                    assert(r[j] == x);
                    assert(fr.contains(x));
                    let i = choose|i: int| 0 <= i < fr.len() && fr[i] == x;
                    assert(fs[i] == x);
                }
            }
        }
        if s.no_duplicates() {
            assert forall|i: int, j: int| 0 <= i < r.len() && 0 <= j < r.len() && i != j implies r[i]
                != r[j] by {
                assert(s[i] != s[j]);
            }
            if pred(l) {
                assert forall|i: int| 0 <= i < fr.len() implies fr[i] != l by {
                    assert(fr.contains(fr[i]));
                    let j = choose|j: int| 0 <= j < r.len() && r[j] == fr[i];
                    assert(s[j] != s[s.len() - 1]);
                }
            }
        }
    }
}

/// Where every member meets `pred`, `filter` keeps the sequence.
pub proof fn lemma_filter_all<A>(s: Seq<A>, pred: spec_fn(A) -> bool)
    requires
        forall|i: int| 0 <= i < s.len() ==> pred(#[trigger] s[i]),
    ensures
        s.filter(pred) == s,
    decreases s.len(),
{
    reveal(Seq::filter);
    if s.len() > 0 {
        lemma_filter_all(s.drop_last(), pred);
        assert(s.drop_last().push(s.last()) =~= s);
    }
}

/// Where the member at `i` alone fails `pred`, `filter` takes it out.
pub proof fn lemma_filter_one_out<A>(s: Seq<A>, pred: spec_fn(A) -> bool, i: int)
    requires
        0 <= i < s.len(),
        !pred(s[i]),
        forall|j: int| 0 <= j < s.len() && j != i ==> pred(#[trigger] s[j]),
    ensures
        s.filter(pred) == s.remove(i),
    decreases s.len(),
{
    reveal(Seq::filter);
    let r = s.drop_last();
    if i == s.len() - 1 {
        lemma_filter_all(r, pred);
        assert(s.remove(i) =~= r);
    } else {
        lemma_filter_one_out(r, pred, i);
        assert(r.remove(i).push(s.last()) =~= s.remove(i));
    }
}

/// To filter and then map is to map and then filter, where the two
/// predicates agree through the map.
pub proof fn lemma_filter_then_map<A, B>(
    s: Seq<A>,
    f: spec_fn(A) -> B,
    pa: spec_fn(A) -> bool,
    pb: spec_fn(B) -> bool,
)
    requires
        forall|x: A| #[trigger] pa(x) == pb(f(x)),
    ensures
        s.filter(pa).map_values(f) == s.map_values(f).filter(pb),
    decreases s.len(),
{
    reveal(Seq::filter);
    if s.len() == 0 {
        assert(s.filter(pa).map_values(f) =~= s.map_values(f).filter(pb));
    } else {
        let r = s.drop_last();
        lemma_filter_then_map(r, f, pa, pb);
        let m = s.map_values(f);
        assert(m.drop_last() =~= r.map_values(f));
        assert(m.last() == f(s.last()));
        assert(pa(s.last()) == pb(f(s.last())));
        if pa(s.last()) {
            assert(r.filter(pa).push(s.last()).map_values(f) =~= r.filter(pa).map_values(f).push(
                f(s.last()),
            ));
        }
    }
}

} // verus!
