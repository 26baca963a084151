use vstd::prelude::*;

use crate::aggregate::deterministic_median;

verus! {

/// The values present at index `i` across the reports, in report order.
pub open spec fn present_at<T>(reports: Seq<Seq<Option<T>>>, i: int) -> Seq<T>
    decreases reports.len(),
{
    if reports.len() == 0 {
        seq![]
    } else {
        let rest = present_at(reports.drop_last(), i);
        match reports.last()[i] {
            Some(x) => rest.push(x),
            None => rest,
        }
    }
}

/// The reports as sequences.
pub open spec fn rows_of<T>(reports: Seq<Vec<Option<T>>>) -> Seq<Seq<Option<T>>> {
    reports.map_values(|r: Vec<Option<T>>| r@)
}

/// `m` is an outcome that `median` may give on a vector holding `values`.
pub open spec fn median_of<T, M: Fn(&Vec<T>) -> Option<T>>(
    median: M,
    values: Seq<T>,
    m: Option<T>,
) -> bool {
    exists|v: &Vec<T>| v@ == values && #[trigger] median.ensures((v,), m)
}

/// `r` is the value of one symbol at one data source: nothing when fewer
/// than `min_response` validators reported it, otherwise the median of what
/// they reported.
pub open spec fn column_outcome<T, M: Fn(&Vec<T>) -> Option<T>>(
    median: M,
    values: Seq<T>,
    min_response: usize,
    r: Option<T>,
) -> bool {
    if values.len() < min_response {
        r is None
    } else {
        median_of(median, values, r)
    }
}

/// Collects the values present at index `i` across the reports.
fn present_values<T: Copy>(rates: &Vec<Vec<Option<T>>>, i: usize) -> (r: Vec<T>)
    requires
        forall|j: int| 0 <= j < rates@.len() ==> i < (#[trigger] rates@[j])@.len(),
    ensures
        r@ == present_at(rows_of(rates@), i as int),
{
    let mut r: Vec<T> = Vec::new();
    let mut j: usize = 0;
    while j < rates.len()
        invariant
            forall|j: int| 0 <= j < rates@.len() ==> i < (#[trigger] rates@[j])@.len(),
            j <= rates.len(),
            r@ == present_at(rows_of(rates@.subrange(0, j as int)), i as int),
        decreases rates.len() - j,
    {
        let ghost next = rows_of(rates@.subrange(0, j + 1));
        assert(next.drop_last() =~= rows_of(rates@.subrange(0, j as int)));
        assert(next.last() == rates@[j as int]@);
        let o: Option<T> = rates[j][i];
        match o {
            Some(x) => {
                r.push(x);
            },
            None => {},
        }
        j = j + 1;
    }
    assert(rates@.subrange(0, rates.len() as int) =~= rates@);
    r
}

/// Reduces the parsed reports of one data source to one value per symbol:
/// for each index the values present across the reports are collected; below
/// the quorum `min_response` the symbol has no value, otherwise it gets their
/// median. Reports that failed parsing are not among `rates` at all.
pub fn filter_and_medianize<T: Copy, M: Fn(&Vec<T>) -> Option<T>>(
    rates: Vec<Vec<Option<T>>>,
    length: usize,
    min_response: usize,
    median: &M,
) -> (r: Vec<Option<T>>)
    requires
        forall|j: int| 0 <= j < rates@.len() ==> length <= (#[trigger] rates@[j])@.len(),
        forall|v: &Vec<T>| median.requires((v,)),
    ensures
        r@.len() == length,
        forall|i: int|
            0 <= i < length ==> column_outcome(
                *median,
                present_at(rows_of(rates@), i),
                min_response,
                #[trigger] r@[i],
            ),
{
    let mut r: Vec<Option<T>> = Vec::new();
    let mut i: usize = 0;
    while i < length
        invariant
            forall|j: int| 0 <= j < rates@.len() ==> length <= (#[trigger] rates@[j])@.len(),
            forall|v: &Vec<T>| median.requires((v,)),
            i <= length,
            r@.len() == i,
            forall|k: int|
                0 <= k < i ==> column_outcome(
                    *median,
                    present_at(rows_of(rates@), k),
                    min_response,
                    #[trigger] r@[k],
                ),
        decreases length - i,
    {
        let values = present_values(&rates, i);
        if values.len() < min_response {
            r.push(None);
        } else {
            let m = median(&values);
            assert(median.ensures((&values,), m));
            assert(median_of(*median, values@, m));
            r.push(m);
        }
        i = i + 1;
    }
    r
}

/// What a symbol's column yields depends on that column alone: reports that
/// agree at index `i` give the same values there, whatever their other
/// columns hold.
pub proof fn lemma_column_independent<T>(a: Seq<Seq<Option<T>>>, b: Seq<Seq<Option<T>>>, i: int)
    requires
        a.len() == b.len(),
        forall|j: int| 0 <= j < a.len() ==> (#[trigger] a[j])[i] == b[j][i],
    ensures
        present_at(a, i) == present_at(b, i),
    decreases a.len(),
{
    if a.len() > 0 {
        lemma_column_independent(a.drop_last(), b.drop_last(), i);
        assert(a.last()[i] == b.last()[i]);
    }
}

pub(crate) proof fn lemma_column_outcome_unique<T, M: Fn(&Vec<T>) -> Option<T>>(
    median: M,
    values: Seq<T>,
    min_response: usize,
    r1: Option<T>,
    r2: Option<T>,
)
    requires
        deterministic_median(median),
        column_outcome(median, values, min_response, r1),
        column_outcome(median, values, min_response, r2),
    ensures
        r1 == r2,
{
    if values.len() >= min_response {
        let a1 = choose|v: &Vec<T>| v@ == values && #[trigger] median.ensures((v,), r1);
        let a2 = choose|v: &Vec<T>| v@ == values && #[trigger] median.ensures((v,), r2);
    }
}

/// Emptying one symbol's column below the quorum gives that symbol no value
/// and leaves every other symbol's value as it was, as long as the median
/// gives one outcome on given values. `r1` and `r2` are results of
/// `filter_and_medianize` on the reports `a` and `b`.
pub proof fn lemma_medianize_column_replaced<T, M: Fn(&Vec<T>) -> Option<T>>(
    median: M,
    a: Seq<Seq<Option<T>>>,
    b: Seq<Seq<Option<T>>>,
    c: int,
    length: int,
    min_response: usize,
    r1: Seq<Option<T>>,
    r2: Seq<Option<T>>,
)
    requires
        deterministic_median(median),
        0 <= c < length,
        a.len() == b.len(),
        forall|j: int| 0 <= j < a.len() ==> length <= (#[trigger] a[j]).len() && length <= b[j].len(),
        forall|j: int, i: int|
            0 <= j < a.len() && 0 <= i < length && i != c ==> #[trigger] a[j][i] == b[j][i],
        present_at(b, c).len() < min_response,
        r1.len() == length,
        r2.len() == length,
        forall|i: int|
            0 <= i < length ==> column_outcome(median, present_at(a, i), min_response, #[trigger] r1[i]),
        forall|i: int|
            0 <= i < length ==> column_outcome(median, present_at(b, i), min_response, #[trigger] r2[i]),
    ensures
        r2[c] is None,
        forall|i: int| 0 <= i < length && i != c ==> #[trigger] r2[i] == r1[i],
{
    assert(column_outcome(median, present_at(b, c), min_response, r2[c]));
    assert forall|i: int| 0 <= i < length && i != c implies #[trigger] r2[i] == r1[i] by {
        assert forall|j: int| 0 <= j < a.len() implies (#[trigger] a[j])[i] == b[j][i] by {}
        lemma_column_independent(a, b, i);
        assert(column_outcome(median, present_at(a, i), min_response, r1[i]));
        assert(column_outcome(median, present_at(b, i), min_response, r2[i]));
        lemma_column_outcome_unique(median, present_at(a, i), min_response, r1[i], r2[i]);
    }
}

} // verus!
