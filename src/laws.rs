//! What holds of every summary, whatever the document and the similarities.
use crate::select::{
    chosen_by_budget, chosen_by_count, cost_ahead, cost_upto, is_best, pick, precedes, rank_of,
    rank_upto,
};
use crate::summarizer::{strs_view, Analysis, Ratio, Summarizer};
use vstd::prelude::*;
use vstd::set_lib::{lemma_int_range, lemma_len_subset, lemma_map_size, lemma_subset_equality, set_int_range};

verus! {

/// The sum of the first `upto` costs.
pub open spec fn total_cost(costs: Seq<u64>, upto: int) -> int
    decreases upto,
{
    if upto <= 0 {
        0
    } else {
        total_cost(costs, upto - 1) + costs[upto - 1] as int
    }
}

proof fn rank_upto_bound(keys: Seq<u64>, i: int, upto: int)
    requires
        0 <= i < upto <= keys.len(),
    ensures
        rank_upto(keys, i, upto) < upto,
    decreases upto,
{
    if upto - 1 > i {
        rank_upto_bound(keys, i, upto - 1);
    } else {
        rank_upto_zero_below(keys, i, upto - 1);
    }
}

proof fn rank_upto_zero_below(keys: Seq<u64>, i: int, upto: int)
    requires
        0 <= upto <= keys.len(),
    ensures
        rank_upto(keys, i, upto) <= upto,
    decreases upto,
{
    if upto > 0 {
        rank_upto_zero_below(keys, i, upto - 1);
    }
}

proof fn pick_all<T>(items: Seq<T>, keep: Seq<bool>)
    requires
        keep.len() == items.len(),
        forall|i: int| 0 <= i < keep.len() ==> keep[i],
    ensures
        pick(items, keep) == items,
    decreases items.len(),
{
    if items.len() > 0 {
        pick_all(items.drop_last(), keep.take(items.len() - 1));
        assert(items.drop_last().push(items.last()) =~= items);
    }
}

/// A selection is never longer than what it selects from, and keeps at least
/// one item when one flag is set.
pub proof fn pick_len<T>(items: Seq<T>, keep: Seq<bool>, b: int)
    requires
        keep.len() == items.len(),
    ensures
        pick(items, keep).len() <= items.len(),
        0 <= b < items.len() && keep[b] ==> pick(items, keep).len() >= 1,
    decreases items.len(),
{
    if items.len() > 0 {
        let n = items.len() - 1;
        pick_len(items.drop_last(), keep.take(n), b);
        if 0 <= b < n && keep[b] {
            assert(keep.take(n)[b]);
        }
    }
}

/// When `n` is at least the number of sentences, choosing `n` by rank keeps
/// every sentence, in document order.
pub proof fn count_covering_keeps_all<T>(sentences: Seq<T>, keys: Seq<u64>, n: nat)
    requires
        keys.len() == sentences.len(),
        n >= sentences.len(),
    ensures
        pick(sentences, chosen_by_count(keys, n)) == sentences,
{
    assert forall|i: int| 0 <= i < keys.len() implies #[trigger] chosen_by_count(keys, n)[i] by {
        rank_upto_bound(keys, i, keys.len() as int);
    }
    pick_all(sentences, chosen_by_count(keys, n));
}

/// Choosing `n` by rank keeps no more sentences than there are.
pub proof fn count_keeps_at_most_all<T>(sentences: Seq<T>, keys: Seq<u64>, n: nat)
    requires
        keys.len() == sentences.len(),
    ensures
        pick(sentences, chosen_by_count(keys, n)).len() <= sentences.len(),
{
    pick_len(sentences, chosen_by_count(keys, n), 0);
}

proof fn exists_best(keys: Seq<u64>) -> (b: int)
    requires
        keys.len() > 0,
    ensures
        is_best(keys, b),
    decreases keys.len(),
{
    if keys.len() == 1 {
        0
    } else {
        let p = exists_best(keys.drop_last());
        let last = keys.len() - 1;
        assert(forall|j: int| 0 <= j < last ==> keys.drop_last()[j] == keys[j]);
        if keys[last] > keys[p] {
            last
        } else {
            p
        }
    }
}

proof fn nothing_ahead_of_best(keys: Seq<u64>, costs: Seq<u64>, b: int, upto: int)
    requires
        is_best(keys, b),
        0 <= upto <= keys.len(),
    ensures
        cost_upto(keys, costs, b, upto) == 0,
    decreases upto,
{
    if upto > 0 {
        nothing_ahead_of_best(keys, costs, b, upto - 1);
        assert(!precedes(keys, upto - 1, b));
    }
}

/// Choosing by a length budget keeps at least one sentence of a non-empty
/// document, however small the budget.
pub proof fn budget_keeps_one<T>(sentences: Seq<T>, keys: Seq<u64>, costs: Seq<u64>, target: int)
    requires
        keys.len() == sentences.len(),
        costs.len() == sentences.len(),
        sentences.len() > 0,
        target >= 0,
    ensures
        pick(sentences, chosen_by_budget(keys, costs, target)).len() >= 1,
{
    let b = exists_best(keys);
    nothing_ahead_of_best(keys, costs, b, keys.len() as int);
    assert(chosen_by_budget(keys, costs, target)[b]);
    pick_len(sentences, chosen_by_budget(keys, costs, target), b);
}

proof fn cost_upto_bound(keys: Seq<u64>, costs: Seq<u64>, i: int, upto: int)
    requires
        costs.len() == keys.len(),
        0 <= upto <= keys.len(),
    ensures
        cost_upto(keys, costs, i, upto) <= total_cost(costs, upto) - if 0 <= i < upto {
            costs[i] as int
        } else {
            0
        },
    decreases upto,
{
    if upto > 0 {
        cost_upto_bound(keys, costs, i, upto - 1);
    }
}

/// The whole-document ratio targets the document's full length.
pub proof fn ratio_one_targets_all(len: nat)
    ensures
        (Ratio { num: 1, den: 1 }).target(len) == len,
{
    assert((2 * 1 * len + 1) / (2 * 1) == len) by (nonlinear_arith);
}

/// A budget that every set of all sentences but one fits in keeps every
/// sentence, in document order; with the whole-document ratio this is the
/// case whenever the sentences' costs, less any one, stay within the
/// document's length.
pub proof fn full_budget_keeps_all<T>(sentences: Seq<T>, keys: Seq<u64>, costs: Seq<u64>, target: int)
    requires
        keys.len() == sentences.len(),
        costs.len() == sentences.len(),
        forall|i: int|
            0 <= i < costs.len() ==> total_cost(costs, costs.len() as int) - costs[i] <= target,
    ensures
        pick(sentences, chosen_by_budget(keys, costs, target)) == sentences,
{
    assert forall|i: int| 0 <= i < keys.len() implies #[trigger] chosen_by_budget(
        keys,
        costs,
        target,
    )[i] by {
        cost_upto_bound(keys, costs, i, keys.len() as int);
    }
    pick_all(sentences, chosen_by_budget(keys, costs, target));
}

/// The positions whose flag is set.
pub open spec fn flagged(keep: Seq<bool>) -> Set<int> {
    Set::new(|i: int| 0 <= i < keep.len() && keep[i])
}

proof fn flagged_finite(keep: Seq<bool>)
    ensures
        flagged(keep).finite(),
        flagged(keep).len() <= keep.len(),
{
    lemma_int_range(0, keep.len() as int);
    lemma_len_subset(flagged(keep), set_int_range(0, keep.len() as int));
}

proof fn pick_len_is_flagged<T>(items: Seq<T>, keep: Seq<bool>)
    requires
        keep.len() == items.len(),
    ensures
        pick(items, keep).len() == flagged(keep).len(),
    decreases items.len(),
{
    if items.len() == 0 {
        assert(flagged(keep) =~= Set::<int>::empty());
    } else {
        let n = items.len() - 1;
        pick_len_is_flagged(items.drop_last(), keep.take(n));
        flagged_finite(keep.take(n));
        if keep[n] {
            assert(flagged(keep) =~= flagged(keep.take(n)).insert(n));
        } else {
            assert(flagged(keep) =~= flagged(keep.take(n)));
        }
    }
}

proof fn rank_upto_grows(keys: Seq<u64>, i: int, j: int, upto: int)
    requires
        0 <= i < keys.len(),
        0 <= j < keys.len(),
        precedes(keys, i, j),
        0 <= upto <= keys.len(),
    ensures
        rank_upto(keys, j, upto) >= rank_upto(keys, i, upto) + if i < upto {
            1int
        } else {
            0int
        },
    decreases upto,
{
    if upto > 0 {
        rank_upto_grows(keys, i, j, upto - 1);
    }
}

proof fn ranks_distinct(keys: Seq<u64>, i: int, j: int)
    requires
        0 <= i < keys.len(),
        0 <= j < keys.len(),
        i != j,
    ensures
        rank_of(keys, i) != rank_of(keys, j),
{
    if precedes(keys, i, j) {
        rank_upto_grows(keys, i, j, keys.len() as int);
    } else {
        rank_upto_grows(keys, j, i, keys.len() as int);
    }
}

/// Choosing `n` by rank keeps at most `n` sentences.
pub proof fn count_keeps_at_most_n<T>(sentences: Seq<T>, keys: Seq<u64>, n: nat)
    requires
        keys.len() == sentences.len(),
    ensures
        pick(sentences, chosen_by_count(keys, n)).len() <= n,
{
    let keep = chosen_by_count(keys, n);
    let kept = flagged(keep);
    let f = |i: int| rank_of(keys, i) as int;
    pick_len_is_flagged(sentences, keep);
    flagged_finite(keep);
    assert forall|a: int, b: int| kept.contains(a) && kept.contains(b) && #[trigger] f(a) == #[trigger] f(b)
        implies a == b by {
        if a != b {
            ranks_distinct(keys, a, b);
        }
    }
    lemma_map_size(kept, kept.map(f), f);
    lemma_int_range(0, n as int);
    assert(kept.map(f).subset_of(set_int_range(0, n as int)));
    lemma_len_subset(kept.map(f), set_int_range(0, n as int));
}

proof fn pick_view(items: Seq<&str>, keep: Seq<bool>)
    requires
        keep.len() == items.len(),
    ensures
        strs_view(pick(items, keep)) == pick(strs_view(items), keep),
    decreases items.len(),
{
    if items.len() > 0 {
        let n = items.len() - 1;
        pick_view(items.drop_last(), keep.take(n));
        assert(strs_view(items.drop_last()) =~= strs_view(items).drop_last());
        if keep[n] {
            assert(strs_view(pick(items, keep)) =~= strs_view(pick(items.drop_last(), keep.take(n))).push(
                items.last()@,
            ));
        }
    }
}

/// Summarizing is repeatable: any two analyses of one text under one
/// summarizer, with the same similarities, give the same text back, by count
/// and by length budget.
pub proof fn summaries_repeat(
    summarizer: Summarizer,
    text: &str,
    first: Analysis,
    second: Analysis,
    keys: Seq<u64>,
    n: nat,
    target: int,
)
    requires
        summarizer.analyzes(text, first),
        summarizer.analyzes(text, second),
        keys.len() == first.sentences.len(),
    ensures
        strs_view(pick(first.sentences@, chosen_by_count(keys, n))) == strs_view(
            pick(second.sentences@, chosen_by_count(keys, n)),
        ),
        strs_view(pick(first.sentences@, chosen_by_budget(keys, first.costs@, target))) == strs_view(
            pick(second.sentences@, chosen_by_budget(keys, second.costs@, target)),
        ),
{
    let v = strs_view(first.sentences@);
    assert(first.sentences.len() == v.len() && second.sentences.len() == v.len());
    assert forall|i: int| 0 <= i < first.costs.len() implies first.costs@[i] == second.costs@[i] by {
        assert(strs_view(first.sentences@)[i] == strs_view(second.sentences@)[i]);
    }
    assert(first.costs@ =~= second.costs@);
    pick_view(first.sentences@, chosen_by_count(keys, n));
    pick_view(second.sentences@, chosen_by_count(keys, n));
    pick_view(first.sentences@, chosen_by_budget(keys, first.costs@, target));
    pick_view(second.sentences@, chosen_by_budget(keys, second.costs@, target));
}

/// `part` is `whole` read at the strictly increasing positions `idx`.
pub open spec fn read_at<T>(part: Seq<T>, whole: Seq<T>, idx: Seq<int>) -> bool {
    &&& idx.len() == part.len()
    &&& forall|k: int| 0 <= k < idx.len() ==> 0 <= #[trigger] idx[k] < whole.len() && part[k] == whole[idx[k]]
    &&& forall|a: int, b: int| 0 <= a < b < idx.len() ==> idx[a] < idx[b]
}

/// `part` is a subsequence of `whole`: its items, in order, without reuse.
pub open spec fn is_subsequence<T>(part: Seq<T>, whole: Seq<T>) -> bool {
    exists|idx: Seq<int>| #[trigger] read_at(part, whole, idx)
}

proof fn pick_positions<T>(items: Seq<T>, keep: Seq<bool>) -> (idx: Seq<int>)
    requires
        keep.len() == items.len(),
    ensures
        read_at(pick(items, keep), items, idx),
    decreases items.len(),
{
    if items.len() == 0 {
        seq![]
    } else {
        let n = items.len() - 1;
        let prev = pick_positions(items.drop_last(), keep.take(n));
        if keep[n] {
            let idx = prev.push(n);
            assert(read_at(pick(items, keep), items, idx));
            idx
        } else {
            prev
        }
    }
}

/// A summary by count is a subsequence of the document's sentences.
pub proof fn count_summary_is_subsequence<T>(sentences: Seq<T>, keys: Seq<u64>, n: nat)
    requires
        keys.len() == sentences.len(),
    ensures
        is_subsequence(pick(sentences, chosen_by_count(keys, n)), sentences),
{
    let idx = pick_positions(sentences, chosen_by_count(keys, n));
}

/// A summary by length budget is a subsequence of the document's sentences.
pub proof fn budget_summary_is_subsequence<T>(
    sentences: Seq<T>,
    keys: Seq<u64>,
    costs: Seq<u64>,
    target: int,
)
    requires
        keys.len() == sentences.len(),
    ensures
        is_subsequence(pick(sentences, chosen_by_budget(keys, costs, target)), sentences),
{
    let idx = pick_positions(sentences, chosen_by_budget(keys, costs, target));
}

/// Choosing `n` by rank keeps exactly `n` sentences, or all of them when
/// there are fewer.
pub proof fn count_keeps_exactly<T>(sentences: Seq<T>, keys: Seq<u64>, n: nat)
    requires
        keys.len() == sentences.len(),
    ensures
        pick(sentences, chosen_by_count(keys, n)).len() == if n < keys.len() {
            n
        } else {
            keys.len()
        },
{
    let len = keys.len() as int;
    let m: int = if n < len {
        n as int
    } else {
        len
    };
    let all = set_int_range(0, len);
    let f = |i: int| rank_of(keys, i) as int;
    lemma_int_range(0, len);
    lemma_int_range(0, m);
    assert forall|a: int, b: int| all.contains(a) && all.contains(b) && #[trigger] f(a) == #[trigger] f(b)
        implies a == b by {
        if a != b {
            ranks_distinct(keys, a, b);
        }
    }
    lemma_map_size(all, all.map(f), f);
    assert forall|r: int| all.map(f).contains(r) implies all.contains(r) by {
        let i = choose|i: int| all.contains(i) && f(i) == r;
        rank_upto_bound(keys, i, len);
    }
    lemma_subset_equality(all.map(f), all);
    let keep = chosen_by_count(keys, n);
    let kept = flagged(keep);
    pick_len_is_flagged(sentences, keep);
    flagged_finite(keep);
    assert forall|r: int| set_int_range(0, m).contains(r) implies kept.map(f).contains(r) by {
        assert(all.map(f).contains(r));
        let i = choose|i: int| all.contains(i) && f(i) == r;
        assert(kept.contains(i));
    }
    assert forall|r: int| kept.map(f).contains(r) implies set_int_range(0, m).contains(r) by {
        let i = choose|i: int| kept.contains(i) && f(i) == r;
        rank_upto_bound(keys, i, len);
    }
    assert(kept.map(f) =~= set_int_range(0, m));
    assert forall|a: int, b: int| kept.contains(a) && kept.contains(b) && #[trigger] f(a) == #[trigger] f(b)
        implies a == b by {
        if a != b {
            ranks_distinct(keys, a, b);
        }
    }
    lemma_map_size(kept, kept.map(f), f);
}

/// A ratio whose denominator is the document's length targets its numerator.
pub proof fn ratio_of_length_targets_numerator(num: i64, len: nat)
    requires
        len > 0,
        len <= i64::MAX,
    ensures
        (Ratio { num, den: len as i64 }).target(len) == num,
{
    let n: int = num as int;
    let l: int = len as int;
    assert(2 * n * l + l == n * (2 * l) + l) by (nonlinear_arith);
    vstd::arithmetic::div_mod::lemma_fundamental_div_mod_converse(2 * n * l + l, 2 * l, n, l);
}

} // verus!
