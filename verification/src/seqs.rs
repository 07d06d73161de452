//! Facts about sequences that several modules lean on.

use vstd::prelude::*;

verus! {

/// One more element of a sequence either joins what a filter kept of the
/// elements before it, or is left out.
pub proof fn lemma_filter_step<A>(s: Seq<A>, keep: spec_fn(A) -> bool, k: int)
    requires
        0 <= k < s.len(),
    ensures
        s.take(k + 1).filter(keep) == if keep(s[k]) {
            s.take(k).filter(keep).push(s[k])
        } else {
            s.take(k).filter(keep)
        },
{
    reveal(Seq::filter);
    assert(s.take(k + 1).drop_last() == s.take(k));
}

/// One more element of a sequence either yields a value that joins what
/// the elements before it yielded, or yields none.
pub proof fn lemma_filter_map_step<A, B>(s: Seq<A>, f: spec_fn(A) -> Option<B>, k: int)
    requires
        0 <= k < s.len(),
    ensures
        s.take(k + 1).filter_map(f) == match f(s[k]) {
            Some(b) => s.take(k).filter_map(f).push(b),
            None => s.take(k).filter_map(f),
        },
{
    assert(s.take(k + 1).drop_last() == s.take(k));
    let before = s.take(k).filter_map(f);
    if let Some(b) = f(s[k]) {
        assert(before + seq![b] == before.push(b));
    }
}

/// A filter keeps exactly the elements that pass it.
pub proof fn lemma_filter_members<A>(s: Seq<A>, keep: spec_fn(A) -> bool)
    ensures
        forall|x: A| #[trigger] s.filter(keep).contains(x) <==> s.contains(x) && keep(x),
    decreases s.len(),
{
    reveal(Seq::filter);
    if s.len() > 0 {
        let front = s.drop_last();
        let last = s.last();
        lemma_filter_members(front, keep);
        let kept = front.filter(keep);
        let all = s.filter(keep);
        assert(all == if keep(last) {
            kept.push(last)
        } else {
            kept
        });
        assert forall|x: A| #[trigger] all.contains(x) implies s.contains(x) && keep(x) by {
            let i = choose|i: int| 0 <= i < all.len() && all[i] == x;
            if i < kept.len() {
                assert(kept[i] == x);
                assert(kept.contains(x));
                assert(front.contains(x));
                let j = choose|j: int| 0 <= j < front.len() && front[j] == x;
                assert(s[j] == x);
            } else {
                assert(s[s.len() - 1] == x);
            }
        }
        assert forall|x: A| s.contains(x) && keep(x) implies #[trigger] all.contains(x) by {
            let j = choose|j: int| 0 <= j < s.len() && s[j] == x;
            if j < s.len() - 1 {
                assert(front[j] == x);
                assert(front.contains(x));
                assert(kept.contains(x));
                let i = choose|i: int| 0 <= i < kept.len() && kept[i] == x;
                assert(all[i] == x);
            } else {
                assert(all[kept.len() as int] == x);
            }
        }
    }
}

/// Whether no two elements of a sequence have the same key.
pub open spec fn distinct_by<A, K>(s: Seq<A>, key: spec_fn(A) -> K) -> bool {
    forall|i: int, j: int| 0 <= i < j < s.len() ==> key(s[i]) != key(s[j])
}

/// A filter keeps the keys of a sequence distinct.
pub proof fn lemma_filter_keeps_distinct<A, K>(
    s: Seq<A>,
    keep: spec_fn(A) -> bool,
    key: spec_fn(A) -> K,
)
    requires
        distinct_by(s, key),
    ensures
        distinct_by(s.filter(keep), key),
    decreases s.len(),
{
    reveal(Seq::filter);
    if s.len() > 0 {
        let front = s.drop_last();
        let last = s.last();
        let kept = front.filter(keep);
        assert(distinct_by(front, key)) by {
            assert forall|i: int, j: int| 0 <= i < j < front.len() implies key(front[i]) != key(
                front[j],
            ) by {
                assert(key(s[i]) != key(s[j]));
            }
        }
        lemma_filter_keeps_distinct(front, keep, key);
        lemma_filter_members(front, keep);
        if keep(last) {
            let all = s.filter(keep);
            assert(all == kept.push(last));
            assert forall|i: int, j: int| 0 <= i < j < all.len() implies key(all[i]) != key(
                all[j],
            ) by {
                if j < kept.len() {
                    assert(key(kept[i]) != key(kept[j]));
                } else {
                    assert(kept.contains(kept[i]));
                    assert(front.contains(kept[i]));
                    let at = choose|at: int| 0 <= at < front.len() && front[at] == kept[i];
                    assert(key(s[at]) != key(s[s.len() - 1]));
                }
            }
        }
    }
}

/// A filter that passes every element leaves the sequence as it is.
pub proof fn lemma_filter_all<A>(s: Seq<A>, keep: spec_fn(A) -> bool)
    requires
        forall|i: int| 0 <= i < s.len() ==> keep(#[trigger] s[i]),
    ensures
        s.filter(keep) == s,
    decreases s.len(),
{
    reveal(Seq::filter);
    if s.len() > 0 {
        let front = s.drop_last();
        assert forall|i: int| 0 <= i < front.len() implies keep(#[trigger] front[i]) by {
            assert(keep(s[i]));
        }
        lemma_filter_all(front, keep);
        assert(keep(s[s.len() - 1]));
        assert(front.push(s.last()) == s);
    }
}

/// A filter that turns down one element only leaves the sequence without
/// that element.
pub proof fn lemma_filter_one_out<A>(s: Seq<A>, keep: spec_fn(A) -> bool, out: int)
    requires
        0 <= out < s.len(),
        forall|i: int| 0 <= i < s.len() ==> (keep(#[trigger] s[i]) <==> i != out),
    ensures
        s.filter(keep) == s.remove(out),
    decreases s.len(),
{
    reveal(Seq::filter);
    let front = s.drop_last();
    if out == s.len() - 1 {
        assert forall|i: int| 0 <= i < front.len() implies keep(#[trigger] front[i]) by {
            assert(keep(s[i]));
        }
        lemma_filter_all(front, keep);
        assert(!keep(s[out]));
        assert(s.remove(out) == front);
    } else {
        assert forall|i: int| 0 <= i < front.len() implies (keep(#[trigger] front[i]) <==> i
            != out) by {
            assert(keep(s[i]) <==> i != out);
        }
        lemma_filter_one_out(front, keep, out);
        assert(keep(s[s.len() - 1]));
        assert(front.remove(out).push(s.last()) == s.remove(out));
    }
}

} // verus!
