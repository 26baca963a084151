use vstd::prelude::*;

use crate::aggregate::{deterministic_fixed, deterministic_median};
use crate::assemble::{extended, lemma_output_deterministic, get_responses, symbol_outcome, values_for, SymbolPrices};
use crate::medianize::{column_outcome, lemma_column_outcome_unique, filter_and_medianize, present_at, rows_of};
use crate::quorum::{get_minimum_response_count, min_responses};
use crate::registry::{get_symbols_for_data_sources, is_supported, source_groups};
use crate::report::{field_outcome, is_missing_marker, parses_to, report_fields_of, report_outcome, rows_result, validate_and_parse_output, ReportError};
use crate::response::Response;

verus! {

/// `rows` are the parsed reports among `raw` that were accepted, in order:
/// a report that is rejected is left out whole.
pub open spec fn accepted_rows<T, P: Fn(&str) -> Option<T>>(
    parse_value: P,
    raw: Seq<Seq<char>>,
    length: int,
    rows: Seq<Seq<Option<T>>>,
) -> bool
    decreases raw.len(),
{
    if raw.len() == 0 {
        rows.len() == 0
    } else {
        ||| (rows.len() > 0 && report_outcome(
            parse_value,
            report_fields_of(raw.last()),
            length,
            Ok(rows.last()),
        ) && accepted_rows(parse_value, raw.drop_last(), length, rows.drop_last()))
        ||| ((exists|e: ReportError|
            #[trigger] report_outcome(
                parse_value,
                report_fields_of(raw.last()),
                length,
                Err::<Seq<Option<T>>, ReportError>(e),
            )) && accepted_rows(parse_value, raw.drop_last(), length, rows))
    }
}

/// `values` is what one data source gives for its `length` symbols from the
/// raw reports `raw`, under quorum `quorum`.
pub open spec fn source_values<T, P: Fn(&str) -> Option<T>, M: Fn(&Vec<T>) -> Option<T>>(
    parse_value: P,
    median: M,
    raw: Seq<Seq<char>>,
    length: int,
    quorum: int,
    values: Seq<Option<T>>,
) -> bool {
    exists|rows: Seq<Seq<Option<T>>>|
        #[trigger] accepted_rows(parse_value, raw, length, rows) && values.len() == length && forall|
            i: int,
        |
            0 <= i < length ==> column_outcome(
                median,
                present_at(rows, i),
                quorum as usize,
                #[trigger] values[i],
            )
    }

/// What is collected for symbol `s` over the groups, each group's values
/// appended in group order.
pub open spec fn collected<T>(
    groups: Seq<(i64, Seq<Seq<char>>)>,
    values: Seq<Seq<Option<T>>>,
    s: Seq<char>,
) -> Option<Seq<T>>
    decreases groups.len(),
{
    if groups.len() == 0 {
        None
    } else {
        extended(
            collected(groups.drop_last(), values.drop_last(), s),
            values_for(groups.last().1, values.last(), s),
        )
    }
}

/// `values[g]` is what the g-th group gives from `reports[g]`.
pub open spec fn group_values<T, P: Fn(&str) -> Option<T>, M: Fn(&Vec<T>) -> Option<T>>(
    parse_value: P,
    median: M,
    groups: Seq<(i64, Seq<Seq<char>>)>,
    reports: Seq<Seq<Seq<char>>>,
    quorum: int,
    values: Seq<Seq<Option<T>>>,
) -> bool {
    &&& values.len() == groups.len()
    &&& forall|g: int|
        0 <= g < groups.len() ==> source_values(
            parse_value,
            median,
            reports[g],
            groups[g].1.len() as int,
            quorum,
            #[trigger] values[g],
        )
}

/// Parses each raw report of one data source and keeps those accepted.
pub fn accept_reports<T, P: Fn(&str) -> Option<T>>(
    raw: &Vec<String>,
    length: usize,
    parse_value: &P,
) -> (r: Vec<Vec<Option<T>>>)
    requires
        forall|a: &str| parse_value.requires((a,)),
    ensures
        accepted_rows(*parse_value, raw.deep_view(), length as int, rows_of(r@)),
        forall|j: int| 0 <= j < r@.len() ==> (#[trigger] r@[j])@.len() == length,
{
    let mut r: Vec<Vec<Option<T>>> = Vec::new();
    let mut i: usize = 0;
    while i < raw.len()
        invariant
            forall|a: &str| parse_value.requires((a,)),
            i <= raw@.len(),
            accepted_rows(*parse_value, raw.deep_view().subrange(0, i as int), length as int, rows_of(r@)),
            forall|j: int| 0 <= j < r@.len() ==> (#[trigger] r@[j])@.len() == length,
        decreases raw.len() - i,
    {
        let ghost next = raw.deep_view().subrange(0, i + 1);
        assert(next.drop_last() =~= raw.deep_view().subrange(0, i as int));
        assert(next.last() == raw@[i as int]@);
        let parsed = validate_and_parse_output(raw[i].as_str(), length, parse_value);
        match parsed {
            Ok(v) => {
                let ghost before = rows_of(r@);
                let ghost vv = v@;
                r.push(v);
                assert(rows_of(r@) =~= before.push(vv));
                assert(rows_of(r@).drop_last() =~= before);
            },
            Err(e) => {
                assert(report_outcome(
                    *parse_value,
                    report_fields_of(next.last()),
                    length as int,
                    Err::<Seq<Option<T>>, ReportError>(e),
                ));
            },
        }
        i = i + 1;
    }
    assert(raw.deep_view().subrange(0, raw@.len() as int) =~= raw.deep_view());
    r
}

/// The execution phase on reports already collected: `reports[g]` holds the
/// raw validator reports for the g-th group of
/// `get_symbols_for_data_sources(symbols)`, `min_count` is the number of
/// validators asked. Rejected reports are dropped; each data source's values
/// are taken under the quorum, collected per symbol, and aggregated.
pub fn execute_reports<
    T: Copy,
    P: Fn(&str) -> Option<T>,
    M: Fn(&Vec<T>) -> Option<T>,
    C: Fn(T) -> Option<u64>,
>(
    symbols: &Vec<String>,
    reports: &Vec<Vec<String>>,
    min_count: i64,
    minimum_source_count: usize,
    parse_value: &P,
    median: &M,
    to_fixed: &C,
) -> (r: Vec<Response>)
    requires
        reports@.len() == source_groups(symbols.deep_view()).len(),
        0 <= min_count <= i64::MAX - 2,
        min_responses(min_count as int) <= usize::MAX,
        forall|a: &str| parse_value.requires((a,)),
        forall|v: &Vec<T>| median.requires((v,)),
        forall|p: T| to_fixed.requires((p,)),
    ensures
        r@.len() == symbols@.len(),
        forall|i: int| 0 <= i < symbols@.len() ==> (#[trigger] r@[i]).symbol@ == symbols@[i]@,
        exists|values: Seq<Seq<Option<T>>>|
            #[trigger] group_values(
                *parse_value,
                *median,
                source_groups(symbols.deep_view()),
                reports.deep_view(),
                min_responses(min_count as int),
                values,
            ) && forall|i: int|
                0 <= i < symbols@.len() ==> symbol_outcome(
                    *median,
                    *to_fixed,
                    collected(source_groups(symbols.deep_view()), values, symbols@[i]@),
                    is_supported(symbols@[i]@),
                    minimum_source_count,
                    (#[trigger] r@[i]).response_code,
                    r@[i].rate,
                ),
{
    let groups = get_symbols_for_data_sources(symbols);
    let ghost gs = groups.deep_view();
    let quorum = get_minimum_response_count(min_count);
    let mut prices: SymbolPrices<T> = SymbolPrices::new();
    let ghost mut values: Seq<Seq<Option<T>>> = seq![];
    let mut g: usize = 0;
    while g < groups.len()
        invariant
            gs == groups.deep_view(),
            gs == source_groups(symbols.deep_view()),
            reports@.len() == gs.len(),
            quorum as int == min_responses(min_count as int),
            forall|a: &str| parse_value.requires((a,)),
            forall|v: &Vec<T>| median.requires((v,)),
            g <= gs.len(),
            values.len() == g,
            forall|k: int|
                0 <= k < g ==> source_values(
                    *parse_value,
                    *median,
                    reports.deep_view()[k],
                    gs[k].1.len() as int,
                    quorum as int,
                    #[trigger] values[k],
                ),
            forall|s: Seq<char>|
                #[trigger] prices.prices_of(s) == collected(gs.subrange(0, g as int), values, s),
        decreases groups.len() - g,
    {
        let syms = &groups[g].1;
        assert(syms.deep_view() == gs[g as int].1);
        assert(reports[g as int].deep_view() == reports.deep_view()[g as int]);
        let rows = accept_reports(&reports[g], syms.len(), parse_value);
        let ghost rv = rows_of(rows@);
        let m = filter_and_medianize(rows, syms.len(), quorum, median);
        assert(source_values(*parse_value, *median, reports.deep_view()[g as int], gs[g as int].1.len() as int, quorum as int, m@));
        prices.record_rates(syms, &m);
        proof {
            let old_values = values;
            values = values.push(m@);
            let sub = gs.subrange(0, g + 1);
            assert(sub.drop_last() =~= gs.subrange(0, g as int));
            assert(values.drop_last() =~= old_values);
            assert(sub.last() == gs[g as int]);
        }
        g = g + 1;
    }
    assert(gs.subrange(0, gs.len() as int) =~= gs);
    let r = get_responses(symbols, &prices, minimum_source_count, median, to_fixed);
    assert(group_values(*parse_value, *median, gs, reports.deep_view(), min_responses(min_count as int), values));
    r
}

/// `parse_value` gives one outcome on a given text.
pub open spec fn deterministic_parse<T, P: Fn(&str) -> Option<T>>(parse_value: P) -> bool {
    forall|a1: &str, a2: &str, x1: Option<T>, x2: Option<T>|
        #![trigger parse_value.ensures((a1,), x1), parse_value.ensures((a2,), x2)]
        a1@ == a2@ && parse_value.ensures((a1,), x1) && parse_value.ensures((a2,), x2) ==> x1 == x2
}

proof fn lemma_field_unique<T, P: Fn(&str) -> Option<T>>(
    parse_value: P,
    f: Seq<char>,
    r1: Result<Option<T>, ReportError>,
    r2: Result<Option<T>, ReportError>,
)
    requires
        deterministic_parse(parse_value),
        field_outcome(parse_value, f, r1),
        field_outcome(parse_value, f, r2),
    ensures
        r1 == r2,
{
    if !is_missing_marker(f) {
        let x1 = match r1 {
            Ok(v) => v,
            Err(_) => None,
        };
        let x2 = match r2 {
            Ok(v) => v,
            Err(_) => None,
        };
        assert(parses_to(parse_value, f, x1));
        assert(parses_to(parse_value, f, x2));
        let a1 = choose|a: &str| a@ == f && #[trigger] parse_value.ensures((a,), x1);
        let a2 = choose|a: &str| a@ == f && #[trigger] parse_value.ensures((a,), x2);
        assert(x1 == x2);
    }
}

proof fn lemma_report_unique<T, P: Fn(&str) -> Option<T>>(
    parse_value: P,
    fields: Seq<Seq<char>>,
    length: int,
    v: Seq<Option<T>>,
    r: Result<Seq<Option<T>>, ReportError>,
)
    requires
        deterministic_parse(parse_value),
        report_outcome(parse_value, fields, length, Ok(v)),
        report_outcome(parse_value, fields, length, r),
    ensures
        r == Ok::<Seq<Option<T>>, ReportError>(v),
{
    match r {
        Ok(w) => {
            assert forall|k: int| 0 <= k < length implies w[k] == v[k] by {
                lemma_field_unique(parse_value, fields[k], Ok(w[k]), Ok(v[k]));
            }
            assert(w =~= v);
        },
        Err(e) => {
            if e == ReportError::InvalidValue {
                let k = choose|k: int|
                    0 <= k < fields.len() && field_outcome(
                        parse_value,
                        #[trigger] fields[k],
                        Err(ReportError::InvalidValue),
                    );
                lemma_field_unique(parse_value, fields[k], Ok(v[k]), Err(ReportError::InvalidValue));
            }
        },
    }
}

proof fn lemma_accepted_unique<T, P: Fn(&str) -> Option<T>>(
    parse_value: P,
    raw: Seq<Seq<char>>,
    length: int,
    rows1: Seq<Seq<Option<T>>>,
    rows2: Seq<Seq<Option<T>>>,
)
    requires
        deterministic_parse(parse_value),
        accepted_rows(parse_value, raw, length, rows1),
        accepted_rows(parse_value, raw, length, rows2),
    ensures
        rows1 == rows2,
    decreases raw.len(),
{
    if raw.len() > 0 {
        let fields = report_fields_of(raw.last());
        let ok1 = rows1.len() > 0 && report_outcome(parse_value, fields, length, Ok(rows1.last()))
            && accepted_rows(parse_value, raw.drop_last(), length, rows1.drop_last());
        let ok2 = rows2.len() > 0 && report_outcome(parse_value, fields, length, Ok(rows2.last()))
            && accepted_rows(parse_value, raw.drop_last(), length, rows2.drop_last());
        if ok1 && ok2 {
            lemma_report_unique(parse_value, fields, length, rows1.last(), Ok(rows2.last()));
            lemma_accepted_unique(parse_value, raw.drop_last(), length, rows1.drop_last(), rows2.drop_last());
            assert(rows1 =~= rows1.drop_last().push(rows1.last()));
            assert(rows2 =~= rows2.drop_last().push(rows2.last()));
        } else if ok1 {
            let e = choose|e: ReportError|
                #[trigger] report_outcome(parse_value, fields, length, Err::<Seq<Option<T>>, ReportError>(e));
            lemma_report_unique(parse_value, fields, length, rows1.last(), Err(e));
        } else if ok2 {
            let e = choose|e: ReportError|
                #[trigger] report_outcome(parse_value, fields, length, Err::<Seq<Option<T>>, ReportError>(e));
            lemma_report_unique(parse_value, fields, length, rows2.last(), Err(e));
        } else {
            lemma_accepted_unique(parse_value, raw.drop_last(), length, rows1, rows2);
        }
    }
}

proof fn lemma_source_values_unique<T, P: Fn(&str) -> Option<T>, M: Fn(&Vec<T>) -> Option<T>>(
    parse_value: P,
    median: M,
    raw: Seq<Seq<char>>,
    length: int,
    quorum: int,
    v1: Seq<Option<T>>,
    v2: Seq<Option<T>>,
)
    requires
        deterministic_parse(parse_value),
        deterministic_median(median),
        source_values(parse_value, median, raw, length, quorum, v1),
        source_values(parse_value, median, raw, length, quorum, v2),
    ensures
        v1 == v2,
{
    let rows1 = choose|rows: Seq<Seq<Option<T>>>|
        #[trigger] accepted_rows(parse_value, raw, length, rows) && v1.len() == length && forall|
            i: int,
        |
            0 <= i < length ==> column_outcome(median, present_at(rows, i), quorum as usize, #[trigger] v1[i]);
    let rows2 = choose|rows: Seq<Seq<Option<T>>>|
        #[trigger] accepted_rows(parse_value, raw, length, rows) && v2.len() == length && forall|
            i: int,
        |
            0 <= i < length ==> column_outcome(median, present_at(rows, i), quorum as usize, #[trigger] v2[i]);
    lemma_accepted_unique(parse_value, raw, length, rows1, rows2);
    assert forall|i: int| 0 <= i < length implies v1[i] == v2[i] by {
        assert(column_outcome(median, present_at(rows1, i), quorum as usize, v1[i]));
        assert(column_outcome(median, present_at(rows1, i), quorum as usize, v2[i]));
        lemma_column_outcome_unique(median, present_at(rows1, i), quorum as usize, v1[i], v2[i]);
    }
    assert(v1 =~= v2);
}

/// Running the execution phase twice on the same symbols, reports and
/// configuration gives each symbol the same code and rate, as long as the
/// parse, the median and the fixed-point conversion give one outcome on
/// given values.
pub proof fn lemma_execution_deterministic<
    T,
    P: Fn(&str) -> Option<T>,
    M: Fn(&Vec<T>) -> Option<T>,
    C: Fn(T) -> Option<u64>,
>(
    parse_value: P,
    median: M,
    to_fixed: C,
    symbols: Seq<Seq<char>>,
    reports: Seq<Seq<Seq<char>>>,
    min_count: int,
    minimum_source_count: usize,
    values1: Seq<Seq<Option<T>>>,
    values2: Seq<Seq<Option<T>>>,
    s: Seq<char>,
    code1: u8,
    rate1: u64,
    code2: u8,
    rate2: u64,
)
    requires
        deterministic_parse(parse_value),
        deterministic_median(median),
        deterministic_fixed(to_fixed),
        group_values(parse_value, median, source_groups(symbols), reports, min_responses(min_count), values1),
        group_values(parse_value, median, source_groups(symbols), reports, min_responses(min_count), values2),
        symbol_outcome(
            median,
            to_fixed,
            collected(source_groups(symbols), values1, s),
            is_supported(s),
            minimum_source_count,
            code1,
            rate1,
        ),
        symbol_outcome(
            median,
            to_fixed,
            collected(source_groups(symbols), values2, s),
            is_supported(s),
            minimum_source_count,
            code2,
            rate2,
        ),
    ensures
        code1 == code2,
        rate1 == rate2,
{
    let gs = source_groups(symbols);
    assert forall|g: int| 0 <= g < gs.len() implies values1[g] == values2[g] by {
        lemma_source_values_unique(
            parse_value,
            median,
            reports[g],
            gs[g].1.len() as int,
            min_responses(min_count),
            values1[g],
            values2[g],
        );
    }
    assert(values1 =~= values2);
    lemma_output_deterministic(
        median,
        to_fixed,
        collected(gs, values1, s),
        is_supported(s),
        minimum_source_count,
        code1,
        rate1,
        code2,
        rate2,
    );
}

} // verus!
