//! Term tables, term frequencies and document frequencies.
use vstd::prelude::*;

verus! {

/// How often `t` occurs in `s`.
pub open spec fn count_in(s: Seq<usize>, t: usize) -> nat
    decreases s.len(),
{
    if s.len() == 0 {
        0
    } else {
        count_in(s.drop_last(), t) + if s.last() == t {
            1nat
        } else {
            0nat
        }
    }
}

/// How many of the first `upto` rows hold `t` at least once.
pub open spec fn rows_holding(rows: Seq<Vec<usize>>, t: usize, upto: int) -> nat
    decreases upto,
{
    if upto <= 0 {
        0
    } else {
        rows_holding(rows, t, upto - 1) + if rows[upto - 1]@.contains(t) {
            1nat
        } else {
            0nat
        }
    }
}

/// Some row of `ids` names `t`.
pub open spec fn named(ids: Seq<Vec<usize>>, t: int) -> bool {
    exists|i: int, k: int| 0 <= i < ids.len() && 0 <= k < ids[i].len() && #[trigger] ids[i]@[k] == t
}

/// Every position of `table` is named somewhere in `ids`.
pub open spec fn covers(table: Seq<String>, ids: Seq<Vec<usize>>) -> bool {
    forall|t: int| 0 <= t < table.len() ==> #[trigger] named(ids, t)
}

/// `table` lists distinct strings, and `ids` names by position in `table` each
/// string of `terms`, row by row.
pub open spec fn indexes(table: Seq<String>, ids: Seq<Vec<usize>>, terms: Seq<Seq<Seq<char>>>) -> bool {
    &&& forall|a: int, b: int| 0 <= a < b < table.len() ==> table[a]@ != table[b]@
    &&& ids.len() == terms.len()
    &&& forall|i: int| 0 <= i < ids.len() ==> (#[trigger] ids[i]).len() == terms[i].len()
    &&& forall|i: int, k: int|
        0 <= i < ids.len() && 0 <= k < ids[i].len() ==> #[trigger] ids[i]@[k] < table.len()
            && table[ids[i]@[k] as int]@ == terms[i][k]
}

/// The position of `term` in `table`, adding it at the end when it is new.
fn intern(table: &mut Vec<String>, term: &String) -> (r: usize)
    requires
        forall|a: int, b: int| 0 <= a < b < old(table).len() ==> old(table)[a]@ != old(table)[b]@,
    ensures
        forall|a: int, b: int| 0 <= a < b < final(table).len() ==> final(table)[a]@ != final(table)[b]@,
        final(table)@.take(old(table).len() as int) == old(table)@,
        final(table).len() == old(table).len() || (final(table).len() == old(table).len() + 1 && r
            == old(table).len()),
        r < final(table).len(),
        final(table)[r as int]@ == term@,
{
    let mut i: usize = 0;
    while i < table.len()
        invariant
            table@ == old(table)@,
            forall|a: int, b: int| 0 <= a < b < table.len() ==> table[a]@ != table[b]@,
            i <= table.len(),
            forall|k: int| 0 <= k < i ==> table[k]@ != term@,
        decreases table.len() - i,
    {
        if table[i] == *term {
            assert(table@.take(table.len() as int) =~= table@);
            return i;
        }
        i = i + 1;
    }
    let ghost before = table@;
    table.push(term.clone());
    assert(table@.take(before.len() as int) =~= before);
    i
}

/// The strings of each row.
pub open spec fn rows_view(rows: Seq<Vec<String>>) -> Seq<Seq<Seq<char>>> {
    rows.map_values(|row: Vec<String>| row@.map_values(|t: String| t@))
}

/// Numbers the distinct terms in the order they first occur, and names each
/// term of each row by its number.
pub fn index_terms(terms: &Vec<Vec<String>>) -> (r: (Vec<String>, Vec<Vec<usize>>))
    ensures
        indexes(r.0@, r.1@, rows_view(terms@)),
        covers(r.0@, r.1@),
{
    let mut table: Vec<String> = Vec::new();
    let mut ids: Vec<Vec<usize>> = Vec::with_capacity(terms.len());
    let mut i: usize = 0;
    while i < terms.len()
        invariant
            i <= terms.len(),
            indexes(table@, ids@, rows_view(terms@).take(i as int)),
            covers(table@, ids@),
        decreases terms.len() - i,
    {
        let row = &terms[i];
        let mut row_ids: Vec<usize> = Vec::with_capacity(row.len());
        let mut k: usize = 0;
        while k < row.len()
            invariant
                row == terms[i as int],
                i < terms.len(),
                k <= row.len(),
                row_ids.len() == k,
                indexes(table@, ids@, rows_view(terms@).take(i as int)),
                forall|j: int|
                    0 <= j < k ==> row_ids@[j] < table.len() && table[row_ids@[j] as int]@
                        == row@[j]@,
                forall|t: int|
                    0 <= t < table.len() ==> #[trigger] named(ids@, t) || (exists|j: int|
                        0 <= j < k && #[trigger] row_ids@[j] == t),
            decreases row.len() - k,
        {
            let ghost before = table@;
            let id = intern(&mut table, &row[k]);
            assert forall|j: int| 0 <= j < k implies row_ids@[j] < table.len() && table[row_ids@[j]
                as int]@ == row@[j]@ by {
                assert(table@.take(before.len() as int)[row_ids@[j] as int] == before[row_ids@[j] as int]);
            }
            assert forall|a: int, kk: int|
                0 <= a < ids.len() && 0 <= kk < ids[a].len() implies #[trigger] ids[a]@[kk] < table.len()
                && table[ids[a]@[kk] as int]@ == rows_view(terms@).take(i as int)[a][kk] by {
                let rv = rows_view(terms@).take(i as int);
                assert(ids[a].len() == rv[a].len());
                assert(ids[a]@[kk] < before.len() && before[ids[a]@[kk] as int]@ == rv[a][kk]);
                assert(table@.take(before.len() as int)[ids[a]@[kk] as int] == before[ids[a]@[kk] as int]);
            }
            let ghost old_ids = row_ids@;
            row_ids.push(id);
            assert forall|t: int| 0 <= t < table.len() implies #[trigger] named(ids@, t) || (exists|
                j: int,
            | 0 <= j < k + 1 && #[trigger] row_ids@[j] == t) by {
                if t == id {
                    assert(row_ids@[k as int] == t);
                } else if t < before.len() {
                    if exists|j: int| 0 <= j < k && #[trigger] old_ids[j] == t {
                        let j = choose|j: int| 0 <= j < k && #[trigger] old_ids[j] == t;
                        assert(row_ids@[j] == t);
                    }
                }
            }
            k = k + 1;
        }
        assert(rows_view(terms@)[i as int] =~= row@.map_values(|t: String| t@));
        let ghost old_rows = ids@;
        ids.push(row_ids);
        assert forall|t: int| 0 <= t < table.len() implies #[trigger] named(ids@, t) by {
            if named(old_rows, t) {
                let (a, b) = choose|a: int, b: int|
                    0 <= a < old_rows.len() && 0 <= b < old_rows[a].len() && #[trigger] old_rows[a]@[b] == t;
                assert(ids[a]@[b] == t);
            } else {
                let j = choose|j: int| 0 <= j < row.len() && #[trigger] ids[i as int]@[j] == t;
                assert(ids[i as int]@[j] == t);
            }
        }
        assert(rows_view(terms@).take(i + 1) =~= rows_view(terms@).take(i as int).push(
            rows_view(terms@)[i as int],
        ));
        i = i + 1;
    }
    assert(rows_view(terms@).take(terms.len() as int) =~= rows_view(terms@));
    (table, ids)
}

/// How often each term number below `n_terms` occurs in `ids`.
pub fn term_counts(ids: &Vec<usize>, n_terms: usize) -> (r: Vec<usize>)
    requires
        forall|k: int| 0 <= k < ids.len() ==> ids@[k] < n_terms,
    ensures
        r.len() == n_terms,
        forall|t: int| 0 <= t < n_terms ==> r@[t] == count_in(ids@, t as usize),
{
    let mut counts: Vec<usize> = Vec::with_capacity(n_terms);
    let mut t: usize = 0;
    while t < n_terms
        invariant
            t <= n_terms,
            counts.len() == t,
            forall|u: int| 0 <= u < t ==> counts@[u] == 0,
        decreases n_terms - t,
    {
        counts.push(0);
        t = t + 1;
    }
    let mut k: usize = 0;
    while k < ids.len()
        invariant
            forall|j: int| 0 <= j < ids.len() ==> ids@[j] < n_terms,
            k <= ids.len(),
            counts.len() == n_terms,
            forall|u: int|
                0 <= u < n_terms ==> counts@[u] == count_in(ids@.take(k as int), u as usize)
                    && counts@[u] <= k,
        decreases ids.len() - k,
    {
        assert(ids@.take(k + 1).drop_last() =~= ids@.take(k as int));
        let id = ids[k];
        counts.set(id, counts[id] + 1);
        k = k + 1;
    }
    assert(ids@.take(ids.len() as int) =~= ids@);
    counts
}

/// For each term number below `n_terms`, how many rows hold it.
pub fn document_frequencies(rows: &Vec<Vec<usize>>, n_terms: usize) -> (r: Vec<usize>)
    requires
        forall|i: int, k: int|
            0 <= i < rows.len() && 0 <= k < rows[i].len() ==> rows[i]@[k] < n_terms,
    ensures
        r.len() == n_terms,
        forall|t: int| 0 <= t < n_terms ==> r@[t] == rows_holding(rows@, t as usize, rows.len() as int),
{
    let mut df: Vec<usize> = Vec::with_capacity(n_terms);
    // One past the last row counted for each term.
    let mut seen: Vec<usize> = Vec::with_capacity(n_terms);
    let mut t: usize = 0;
    while t < n_terms
        invariant
            t <= n_terms,
            df.len() == t,
            seen.len() == t,
            forall|u: int| 0 <= u < t ==> df@[u] == 0 && seen@[u] == 0,
        decreases n_terms - t,
    {
        df.push(0);
        seen.push(0);
        t = t + 1;
    }
    let mut i: usize = 0;
    while i < rows.len()
        invariant
            forall|a: int, k: int|
                0 <= a < rows.len() && 0 <= k < rows[a].len() ==> rows[a]@[k] < n_terms,
            i <= rows.len(),
            df.len() == n_terms,
            seen.len() == n_terms,
            forall|u: int|
                #![trigger df@[u]]
                #![trigger seen@[u]]
                0 <= u < n_terms ==> df@[u] == rows_holding(rows@, u as usize, i as int) && df@[u]
                    <= i && seen@[u] <= i,
        decreases rows.len() - i,
    {
        let row = &rows[i];
        let mut k: usize = 0;
        assert(row@.take(0) =~= Seq::<usize>::empty());
        assert forall|u: int| 0 <= u < n_terms implies !(#[trigger] row@.take(0).contains(u as usize)) by {}
        while k < row.len()
            invariant
                row == rows[i as int],
                forall|j: int| 0 <= j < row.len() ==> row@[j] < n_terms,
                i < rows.len(),
                k <= row.len(),
                df.len() == n_terms,
                seen.len() == n_terms,
                forall|u: int|
                    0 <= u < n_terms ==> {
                        &&& seen@[u] <= i + 1
                        &&& (seen@[u] == i + 1) == row@.take(k as int).contains(u as usize)
                        &&& df@[u] == rows_holding(rows@, u as usize, i as int) + if row@.take(
                            k as int,
                        ).contains(u as usize) {
                            1nat
                        } else {
                            0nat
                        }
                        &&& df@[u] <= i + 1
                        &&& rows_holding(rows@, u as usize, i as int) <= i
                    },
            decreases row.len() - k,
        {
            let id = row[k];
            assert forall|u: int| 0 <= u < n_terms implies #[trigger] row@.take(k + 1).contains(u as usize)
                == (row@.take(k as int).contains(u as usize) || u == id) by {
                assert(row@.take(k + 1) =~= row@.take(k as int).push(id));
                if row@.take(k + 1).contains(u as usize) {
                    let w = choose|w: int| 0 <= w < k + 1 && #[trigger] row@.take(k + 1)[w] == u as usize;
                    if w < k {
                        assert(row@.take(k as int)[w] == u as usize);
                    }
                }
                if u == id {
                    assert(row@.take(k + 1)[k as int] == id);
                }
            }
            if seen[id] != i + 1 {
                df.set(id, df[id] + 1);
                seen.set(id, i + 1);
            }
            k = k + 1;
        }
        assert(row@.take(row.len() as int) =~= row@);
        i = i + 1;
    }
    df
}

} // verus!
