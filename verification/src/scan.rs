//! The first position at which something holds.
use vstd::prelude::*;
use vstd::set_lib::{lemma_int_range, lemma_len_subset, lemma_subset_equality, set_int_range};

verus! {

/// Whether `i` is the least position below `n` at which `p` holds.
pub open spec fn is_first(n: int, p: spec_fn(int) -> bool, i: int) -> bool {
    &&& 0 <= i < n
    &&& p(i)
    &&& forall|j: int| 0 <= j < i ==> !#[trigger] p(j)
}

/// The least position below `n` at which `p` holds, if there is one.
pub open spec fn first_index(n: int, p: spec_fn(int) -> bool) -> Option<int> {
    if exists|i: int| is_first(n, p, i) {
        Some(choose|i: int| is_first(n, p, i))
    } else {
        None
    }
}

/// The least position is the only one that `is_first` holds of.
pub proof fn lemma_first_index_is(n: int, p: spec_fn(int) -> bool, i: int)
    requires
        is_first(n, p, i),
    ensures
        first_index(n, p) == Some(i),
{
    let chosen = choose|k: int| is_first(n, p, k);
    assert(is_first(n, p, chosen));
    if chosen < i {
        assert(!p(chosen));
    }
    if i < chosen {
        assert(!p(i));
    }
}

/// Where `p` holds nowhere below `n`, there is no first position.
pub proof fn lemma_first_index_none(n: int, p: spec_fn(int) -> bool)
    requires
        forall|j: int| 0 <= j < n ==> !#[trigger] p(j),
    ensures
        first_index(n, p) is None,
{
    if exists|i: int| is_first(n, p, i) {
        let i = choose|i: int| is_first(n, p, i);
        assert(!p(i));
    }
}

/// What `first_index` returns is a least position, and it returns one
/// whenever `p` holds somewhere below `n`.
pub proof fn lemma_first_index(n: int, p: spec_fn(int) -> bool)
    ensures
        first_index(n, p) matches Some(i) ==> is_first(n, p, i),
        first_index(n, p) is None ==> forall|j: int| 0 <= j < n ==> !#[trigger] p(j),
{
    if first_index(n, p) is None {
        assert forall|j: int| 0 <= j < n implies !#[trigger] p(j) by {
            if p(j) {
                lemma_least_exists(n, p, j);
            }
        }
    }
}

/// Below any position at which `p` holds there is a least one.
proof fn lemma_least_exists(n: int, p: spec_fn(int) -> bool, j: int)
    requires
        0 <= j < n,
        p(j),
    ensures
        exists|i: int| is_first(n, p, i),
    decreases j,
{
    if exists|k: int| 0 <= k < j && #[trigger] p(k) {
        let k = choose|k: int| 0 <= k < j && #[trigger] p(k);
        lemma_least_exists(n, p, k);
    } else {
        assert(is_first(n, p, j));
    }
}

/// Filtering one element more keeps what was kept, and adds the element if
/// `keep` holds of it.
pub proof fn lemma_filter_step<A>(s: Seq<A>, keep: spec_fn(A) -> bool, n: int)
    requires
        0 <= n < s.len(),
    ensures
        s.take(n + 1).filter(keep) == if keep(s[n]) {
            s.take(n).filter(keep).push(s[n])
        } else {
            s.take(n).filter(keep)
        },
{
    reveal(Seq::filter);
    assert(s.take(n + 1).drop_last() == s.take(n));
}

/// Nothing is kept of an empty sequence.
pub proof fn lemma_filter_empty<A>(s: Seq<A>, keep: spec_fn(A) -> bool)
    requires
        s.len() == 0,
    ensures
        s.filter(keep) == Seq::<A>::empty(),
{
    reveal(Seq::filter);
}

/// Something is kept exactly when `keep` holds of some element.
pub proof fn lemma_filter_nonempty<A>(s: Seq<A>, keep: spec_fn(A) -> bool)
    ensures
        s.filter(keep).len() > 0 <==> exists|i: int| 0 <= i < s.len() && keep(#[trigger] s[i]),
    decreases s.len(),
{
    reveal(Seq::filter);
    if s.len() > 0 {
        lemma_filter_nonempty(s.drop_last(), keep);
        if s.filter(keep).len() > 0 {
            if keep(s.last()) {
                assert(keep(s[s.len() - 1]));
            } else {
                let i = choose|i: int| 0 <= i < s.drop_last().len() && keep(#[trigger] s.drop_last()[i]);
                assert(keep(s[i]));
            }
        }
        if exists|i: int| 0 <= i < s.len() && keep(#[trigger] s[i]) {
            let i = choose|i: int| 0 <= i < s.len() && keep(#[trigger] s[i]);
            if i < s.len() - 1 {
                assert(keep(s.drop_last()[i]));
            }
        }
    }
}

/// What a filter keeps are the elements of which `keep` holds, each once and
/// in their order: `kept` gives, for each element that was kept, its position
/// before.
pub proof fn lemma_filter_positions<A>(s: Seq<A>, keep: spec_fn(A) -> bool) -> (kept: Seq<int>)
    ensures
        kept.len() == s.filter(keep).len(),
        forall|k: int|
            0 <= k < kept.len() ==> 0 <= #[trigger] kept[k] < s.len() && s.filter(keep)[k]
                == s[kept[k]] && keep(s[kept[k]]),
        forall|k: int, l: int| 0 <= k < l < kept.len() ==> #[trigger] kept[k] < #[trigger] kept[l],
        forall|i: int| 0 <= i < s.len() && keep(#[trigger] s[i]) ==> kept.contains(i),
    decreases s.len(),
{
    reveal(Seq::filter);
    if s.len() == 0 {
        Seq::empty()
    } else {
        let front = lemma_filter_positions(s.drop_last(), keep);
        let last = s.len() - 1;
        if keep(s.last()) {
            let kept = front.push(last);
            assert forall|i: int| 0 <= i < s.len() && keep(#[trigger] s[i]) implies kept.contains(
                i,
            ) by {
                if i < last {
                    assert(s.drop_last()[i] == s[i]);
                    let k = choose|k: int| 0 <= k < front.len() && front[k] == i;
                    assert(kept[k] == i);
                } else {
                    assert(kept[front.len() as int] == i);
                }
            }
            kept
        } else {
            assert forall|i: int| 0 <= i < s.len() && keep(#[trigger] s[i]) implies front.contains(
                i,
            ) by {
                assert(s.drop_last()[i] == s[i]);
            }
            front
        }
    }
}

/// As many distinct positions below `n` as there are positions below `n`
/// are all of them.
pub proof fn lemma_distinct_positions_are_all(positions: Seq<int>, n: int)
    requires
        positions.len() == n,
        positions.no_duplicates(),
        forall|i: int| 0 <= i < n ==> 0 <= #[trigger] positions[i] < n,
    ensures
        forall|k: int| 0 <= k < n ==> positions.contains(k),
{
    let taken = positions.to_set();
    let all = set_int_range(0, n);
    positions.unique_seq_to_set();
    lemma_int_range(0, n);
    assert(taken.subset_of(all)) by {
        assert forall|k: int| taken.contains(k) implies all.contains(k) by {
            let i = choose|i: int| 0 <= i < positions.len() && positions[i] == k;
            assert(0 <= positions[i] < n);
        }
    }
    lemma_len_subset(taken, all);
    lemma_subset_equality(taken, all);
    assert forall|k: int| 0 <= k < n implies positions.contains(k) by {
        assert(all.contains(k));
        assert(taken.contains(k));
    }
}

} // verus!
