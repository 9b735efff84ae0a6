//! Ranking by similarity keys, selection by count or by length budget, and
//! assembly of the kept sentences in document order.
use vstd::prelude::*;

verus! {

/// Sentence `j` ranks ahead of sentence `i`: a higher key, or an equal key and
/// an earlier position.
pub open spec fn precedes(keys: Seq<u64>, j: int, i: int) -> bool {
    keys[j] > keys[i] || (keys[j] == keys[i] && j < i)
}

/// How many of the first `upto` sentences rank ahead of sentence `i`.
pub open spec fn rank_upto(keys: Seq<u64>, i: int, upto: int) -> nat
    decreases upto,
{
    if upto <= 0 {
        0
    } else {
        rank_upto(keys, i, upto - 1) + if precedes(keys, upto - 1, i) {
            1nat
        } else {
            0nat
        }
    }
}

/// The position of sentence `i` in the ranking (0 for the best).
pub open spec fn rank_of(keys: Seq<u64>, i: int) -> nat {
    rank_upto(keys, i, keys.len() as int)
}

/// Total cost of those of the first `upto` sentences that rank ahead of `i`.
pub open spec fn cost_upto(keys: Seq<u64>, costs: Seq<u64>, i: int, upto: int) -> int
    decreases upto,
{
    if upto <= 0 {
        0
    } else {
        cost_upto(keys, costs, i, upto - 1) + if precedes(keys, upto - 1, i) {
            costs[upto - 1] as int
        } else {
            0
        }
    }
}

/// Total cost of the sentences ranked ahead of sentence `i`.
pub open spec fn cost_ahead(keys: Seq<u64>, costs: Seq<u64>, i: int) -> int {
    cost_upto(keys, costs, i, keys.len() as int)
}

/// The sentences kept when the `n` best-ranked are taken.
pub open spec fn chosen_by_count(keys: Seq<u64>, n: nat) -> Seq<bool> {
    Seq::new(keys.len(), |i: int| rank_of(keys, i) < n)
}

/// The sentences kept when walking the ranking and stopping right after the
/// accumulated cost first exceeds `target`: exactly those whose predecessors
/// in the ranking cost no more than `target` together.
pub open spec fn chosen_by_budget(keys: Seq<u64>, costs: Seq<u64>, target: int) -> Seq<bool> {
    Seq::new(keys.len(), |i: int| cost_ahead(keys, costs, i) <= target)
}

/// The items whose flag is set, keeping their order.
pub open spec fn pick<T>(items: Seq<T>, keep: Seq<bool>) -> Seq<T>
    decreases items.len(),
{
    if items.len() == 0 {
        seq![]
    } else {
        let rest = pick(items.drop_last(), keep.take(items.len() - 1));
        if keep[items.len() - 1] {
            rest.push(items.last())
        } else {
            rest
        }
    }
}

/// The flags of the positions listed in `indices`.
pub open spec fn listed(len: nat, indices: Seq<u32>) -> Seq<bool> {
    Seq::new(len, |i: int| exists|k: int| 0 <= k < indices.len() && indices[k] as int == i)
}

/// The index of the sentence with the highest key; the earliest one on ties.
pub open spec fn is_best(keys: Seq<u64>, b: int) -> bool {
    &&& 0 <= b < keys.len()
    &&& forall|j: int| 0 <= j < keys.len() ==> keys[j] <= keys[b]
    &&& forall|j: int| 0 <= j < b ==> keys[j] < keys[b]
}

/// Picks the sentence with the highest key, the earliest one on ties.
pub fn best_index(keys: &Vec<u64>) -> (b: usize)
    requires
        keys.len() > 0,
    ensures
        is_best(keys@, b as int),
{
    let mut b: usize = 0;
    let mut i: usize = 1;
    while i < keys.len()
        invariant
            1 <= i <= keys.len(),
            is_best(keys@.take(i as int), b as int),
        decreases keys.len() - i,
    {
        if keys[i] > keys[b] {
            b = i;
        }
        i = i + 1;
    }
    assert(keys@.take(keys.len() as int) =~= keys@);
    b
}

/// The rank of every sentence, 0 for the best.
pub fn rank_positions(keys: &Vec<u64>) -> (r: Vec<usize>)
    ensures
        r.len() == keys.len(),
        forall|i: int| 0 <= i < keys.len() ==> r@[i] == rank_of(keys@, i),
{
    let n = keys.len();
    let mut r: Vec<usize> = Vec::with_capacity(n);
    let mut i: usize = 0;
    while i < n
        invariant
            n == keys.len(),
            i <= n,
            r.len() == i,
            forall|k: int| 0 <= k < i ==> r@[k] == rank_of(keys@, k),
        decreases n - i,
    {
        let mut count: usize = 0;
        let mut j: usize = 0;
        while j < n
            invariant
                n == keys.len(),
                i < n,
                j <= n,
                count <= j,
                count == rank_upto(keys@, i as int, j as int),
            decreases n - j,
        {
            if keys[j] > keys[i] || (keys[j] == keys[i] && j < i) {
                count = count + 1;
            }
            j = j + 1;
        }
        r.push(count);
        i = i + 1;
    }
    r
}

/// Flags the `n` best-ranked sentences.
pub fn choose_by_count(keys: &Vec<u64>, n: usize) -> (keep: Vec<bool>)
    ensures
        keep@ == chosen_by_count(keys@, n as nat),
{
    let ranks = rank_positions(keys);
    let mut keep: Vec<bool> = Vec::with_capacity(keys.len());
    let mut i: usize = 0;
    while i < ranks.len()
        invariant
            ranks.len() == keys.len(),
            forall|k: int| 0 <= k < keys.len() ==> ranks@[k] == rank_of(keys@, k),
            i <= ranks.len(),
            keep@ =~= chosen_by_count(keys@, n as nat).take(i as int),
        decreases ranks.len() - i,
    {
        keep.push(ranks[i] < n);
        i = i + 1;
    }
    assert(keep@ =~= chosen_by_count(keys@, n as nat));
    keep
}

/// Flags the sentences taken by walking the ranking until the accumulated
/// cost exceeds `target`, the sentence that crosses it included.
pub fn choose_by_budget(keys: &Vec<u64>, costs: &Vec<u64>, target: u64) -> (keep: Vec<bool>)
    requires
        costs.len() == keys.len(),
    ensures
        keep@ == chosen_by_budget(keys@, costs@, target as int),
{
    let n = keys.len();
    let mut keep: Vec<bool> = Vec::with_capacity(n);
    let mut i: usize = 0;
    while i < n
        invariant
            n == keys.len(),
            costs.len() == n,
            i <= n,
            keep@ =~= chosen_by_budget(keys@, costs@, target as int).take(i as int),
        decreases n - i,
    {
        // The running total, capped one past the target.
        let mut total: u128 = 0;
        let mut j: usize = 0;
        while j < n
            invariant
                n == keys.len(),
                costs.len() == n,
                i < n,
                j <= n,
                total == if cost_upto(keys@, costs@, i as int, j as int) > target {
                    target as int + 1
                } else {
                    cost_upto(keys@, costs@, i as int, j as int)
                },
            decreases n - j,
        {
            if keys[j] > keys[i] || (keys[j] == keys[i] && j < i) {
                total = total + costs[j] as u128;
                if total > target as u128 {
                    total = target as u128 + 1;
                }
            }
            j = j + 1;
        }
        keep.push(total <= target as u128);
        i = i + 1;
    }
    assert(keep@ =~= chosen_by_budget(keys@, costs@, target as int));
    keep
}

/// The items whose flag is set, keeping their order.
pub fn pick_marked<T: Copy>(items: &Vec<T>, keep: &Vec<bool>) -> (r: Vec<T>)
    requires
        keep.len() == items.len(),
    ensures
        r@ == pick(items@, keep@),
{
    let mut r: Vec<T> = Vec::new();
    let mut i: usize = 0;
    while i < items.len()
        invariant
            keep.len() == items.len(),
            i <= items.len(),
            r@ == pick(items@.take(i as int), keep@.take(i as int)),
        decreases items.len() - i,
    {
        assert(items@.take(i + 1).drop_last() =~= items@.take(i as int));
        assert(keep@.take(i + 1).take(i as int) =~= keep@.take(i as int));
        if keep[i] {
            r.push(items[i]);
        }
        i = i + 1;
    }
    assert(items@.take(items.len() as int) =~= items@);
    assert(keep@.take(items.len() as int) =~= keep@);
    r
}

/// Keeps the sentences whose positions are listed in `indices`, in document
/// order; positions out of range are ignored.
pub fn summarize_impl<'a>(sentences: Vec<&'a str>, indices: Vec<u32>) -> (r: Vec<&'a str>)
    ensures
        r@ == pick(sentences@, listed(sentences.len() as nat, indices@)),
{
    let mut keep: Vec<bool> = Vec::new();
    let mut i: usize = 0;
    while i < sentences.len()
        invariant
            i <= sentences.len(),
            keep.len() == i,
            forall|k: int|
                0 <= k < i ==> keep@[k] == listed(sentences.len() as nat, indices@)[k],
        decreases sentences.len() - i,
    {
        let mut found = false;
        let mut j: usize = 0;
        while j < indices.len()
            invariant
                j <= indices.len(),
                i < sentences.len(),
                found == exists|k: int| 0 <= k < j && indices@[k] as int == i,
            decreases indices.len() - j,
        {
            if indices[j] as usize == i {
                found = true;
            }
            j = j + 1;
        }
        keep.push(found);
        i = i + 1;
    }
    assert(keep@ =~= listed(sentences.len() as nat, indices@));
    pick_marked(&sentences, &keep)
}

} // verus!
