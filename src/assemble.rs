use vstd::prelude::*;

use crate::aggregate::{
    aggregate_outcome, aggregate_value, deterministic_fixed, deterministic_median,
    lemma_aggregate_unique,
};
use crate::registry::{is_supported, is_supported_symbol};
use crate::response::{Response, ResponseCode};

verus! {

/// The values collected for each symbol across data sources.
pub struct SymbolPrices<T> {
    pub entries: Vec<(String, Vec<T>)>,
}

/// The first entry for symbol `s`, if any.
pub open spec fn find_entry<T>(e: Seq<(Seq<char>, Seq<T>)>, s: Seq<char>) -> Option<Seq<T>>
    decreases e.len(),
{
    if e.len() == 0 {
        None
    } else if e[0].0 == s {
        Some(e[0].1)
    } else {
        find_entry(e.drop_first(), s)
    }
}

proof fn lemma_find_update<T>(e: Seq<(Seq<char>, Seq<T>)>, j: int, s: Seq<char>, v: Seq<T>, k: Seq<char>)
    requires
        0 <= j < e.len(),
        e[j].0 == s,
        forall|i: int| 0 <= i < j ==> e[i].0 != s,
    ensures
        find_entry(e.update(j, (s, v)), k) == if k == s {
            Some(v)
        } else {
            find_entry(e, k)
        },
    decreases j,
{
    let e2 = e.update(j, (s, v));
    if j == 0 {
        assert(e2.drop_first() =~= e.drop_first());
    } else {
        assert(e2.drop_first() =~= e.drop_first().update(j - 1, (s, v)));
        lemma_find_update(e.drop_first(), j - 1, s, v, k);
    }
}

proof fn lemma_find_push<T>(e: Seq<(Seq<char>, Seq<T>)>, s: Seq<char>, v: Seq<T>, k: Seq<char>)
    requires
        forall|i: int| 0 <= i < e.len() ==> e[i].0 != s,
    ensures
        find_entry(e.push((s, v)), k) == if k == s {
            Some(v)
        } else {
            find_entry(e, k)
        },
    decreases e.len(),
{
    let e2 = e.push((s, v));
    if e.len() > 0 {
        assert(e2[0] == e[0]);
        assert(e2.drop_first() =~= e.drop_first().push((s, v)));
        lemma_find_push(e.drop_first(), s, v, k);
    } else {
        assert(e2[0] == (s, v));
        assert(e2.drop_first() =~= Seq::<(Seq<char>, Seq<T>)>::empty());
        assert(find_entry(e2.drop_first(), k) is None);
        assert(find_entry(e, k) is None);
    }
}

proof fn lemma_find_suffix<T>(e: Seq<(Seq<char>, Seq<T>)>, j: int, s: Seq<char>)
    requires
        0 <= j < e.len(),
        e[j].0 != s,
    ensures
        find_entry(e.subrange(j, e.len() as int), s) == find_entry(e.subrange(j + 1, e.len() as int), s),
{
    assert(e.subrange(j, e.len() as int).drop_first() =~= e.subrange(j + 1, e.len() as int));
}

impl<T> SymbolPrices<T> {
    pub open spec fn entries_view(&self) -> Seq<(Seq<char>, Seq<T>)> {
        self.entries@.map_values(|e: (String, Vec<T>)| (e.0@, e.1@))
    }

    /// The values collected for symbol `s`, if any were.
    pub open spec fn prices_of(&self, s: Seq<char>) -> Option<Seq<T>> {
        find_entry(self.entries_view(), s)
    }

    pub fn new() -> (r: Self)
        ensures
            forall|s: Seq<char>| r.prices_of(s) is None,
    {
        SymbolPrices { entries: Vec::new() }
    }

    /// Index of the first entry for `symbol`, if any.
    fn position(&self, symbol: &String) -> (r: Option<usize>)
        ensures
            match r {
                Some(j) => j < self.entries@.len() && self.entries_view()[j as int].0 == symbol@
                    && forall|i: int| 0 <= i < j ==> self.entries_view()[i].0 != symbol@,
                None => forall|i: int|
                    0 <= i < self.entries@.len() ==> self.entries_view()[i].0 != symbol@,
            },
            match r {
                Some(j) => self.prices_of(symbol@) == Some(self.entries_view()[j as int].1),
                None => self.prices_of(symbol@) is None,
            },
    {
        let ghost e = self.entries_view();
        let mut j: usize = 0;
        assert(e.subrange(0, e.len() as int) =~= e);
        while j < self.entries.len()
            invariant
                e == self.entries_view(),
                j <= e.len(),
                forall|i: int| 0 <= i < j ==> e[i].0 != symbol@,
                find_entry(e, symbol@) == find_entry(e.subrange(j as int, e.len() as int), symbol@),
            decreases self.entries.len() - j,
        {
            if self.entries[j].0 == *symbol {
                return Some(j);
            }
            proof {
                lemma_find_suffix(e, j as int, symbol@);
            }
            j = j + 1;
        }
        None
    }

    /// The values collected for `symbol`, if any were.
    pub fn rates_for(&self, symbol: &String) -> (r: Option<&Vec<T>>)
        ensures
            match r {
                Some(v) => self.prices_of(symbol@) == Some(v@),
                None => self.prices_of(symbol@) is None,
            },
    {
        match self.position(symbol) {
            Some(j) => Some(&self.entries[j].1),
            None => None,
        }
    }

    /// Appends one more value for `symbol`.
    pub fn push_rate(&mut self, symbol: &String, rate: T)
        ensures
            forall|s: Seq<char>|
                #[trigger] final(self).prices_of(s) == if s == symbol@ {
                    Some(
                        match old(self).prices_of(s) {
                            Some(v) => v,
                            None => Seq::<T>::empty(),
                        }.push(rate),
                    )
                } else {
                    old(self).prices_of(s)
                },
    {
        let ghost e = self.entries_view();
        match self.position(symbol) {
            Some(j) => {
                let mut entry: (String, Vec<T>) = (String::new(), Vec::new());
                self.entries.set_and_swap(j, &mut entry);
                let ghost v = entry.1@.push(rate);
                entry.1.push(rate);
                self.entries.set_and_swap(j, &mut entry);
                proof {
                    assert(self.entries_view() =~= e.update(j as int, (symbol@, v)));
                    assert forall|s: Seq<char>|
                        #[trigger] self.prices_of(s) == if s == symbol@ {
                            Some(v)
                        } else {
                            find_entry(e, s)
                        } by {
                        lemma_find_update(e, j as int, symbol@, v, s);
                    }
                }
            },
            None => {
                let mut first: Vec<T> = Vec::new();
                first.push(rate);
                self.entries.push((symbol.clone(), first));
                proof {
                    assert(seq![rate] =~= Seq::<T>::empty().push(rate));
                    assert(self.entries_view() =~= e.push((symbol@, seq![rate])));
                    assert forall|s: Seq<char>|
                        #[trigger] self.prices_of(s) == if s == symbol@ {
                            Some(seq![rate])
                        } else {
                            find_entry(e, s)
                        } by {
                        lemma_find_push(e, symbol@, seq![rate], s);
                    }
                }
            },
        }
    }
}

/// The values present in `rates` at the positions where `symbols` holds `s`,
/// in order.
pub open spec fn values_for<T>(symbols: Seq<Seq<char>>, rates: Seq<Option<T>>, s: Seq<char>) -> Seq<T>
    decreases symbols.len(),
{
    if symbols.len() == 0 {
        seq![]
    } else {
        let rest = values_for(symbols.drop_last(), rates.drop_last(), s);
        if symbols.last() == s && rates.last() is Some {
            rest.push(rates.last()->0)
        } else {
            rest
        }
    }
}

/// What is collected for a symbol once `more` is added to `before`.
pub open spec fn extended<T>(before: Option<Seq<T>>, more: Seq<T>) -> Option<Seq<T>> {
    if more.len() == 0 {
        before
    } else {
        Some(
            match before {
                Some(v) => v,
                None => Seq::<T>::empty(),
            } + more,
        )
    }
}

impl<T: Copy> SymbolPrices<T> {
    /// Records the values that one data source gave for its symbols: each
    /// present value is appended to what its symbol has collected.
    pub fn record_rates(&mut self, symbols: &Vec<String>, rates: &Vec<Option<T>>)
        requires
            symbols@.len() == rates@.len(),
        ensures
            forall|s: Seq<char>|
                #[trigger] final(self).prices_of(s) == extended(
                    old(self).prices_of(s),
                    values_for(symbols.deep_view(), rates@, s),
                ),
    {
        let mut i: usize = 0;
        while i < symbols.len()
            invariant
                symbols@.len() == rates@.len(),
                i <= symbols@.len(),
                forall|s: Seq<char>|
                    #[trigger] self.prices_of(s) == extended(
                        old(self).prices_of(s),
                        values_for(symbols.deep_view().subrange(0, i as int), rates@.subrange(0, i as int), s),
                    ),
            decreases symbols.len() - i,
        {
            let ghost syms = symbols.deep_view().subrange(0, i + 1);
            let ghost rs = rates@.subrange(0, i + 1);
            assert(syms.drop_last() =~= symbols.deep_view().subrange(0, i as int));
            assert(rs.drop_last() =~= rates@.subrange(0, i as int));
            assert(syms.last() == symbols@[i as int]@);
            let o: Option<T> = rates[i];
            match o {
                Some(x) => {
                    self.push_rate(&symbols[i], x);
                    assert forall|s: Seq<char>|
                        #[trigger] self.prices_of(s) == extended(old(self).prices_of(s), values_for(syms, rs, s)) by {
                        if s == symbols@[i as int]@ {
                            let before = values_for(symbols.deep_view().subrange(0, i as int), rates@.subrange(0, i as int), s);
                            let base = match old(self).prices_of(s) {
                                Some(v) => v,
                                None => Seq::<T>::empty(),
                            };
                            assert((base + before).push(x) =~= base + before.push(x));
                        }
                    }
                },
                None => {},
            }
            i = i + 1;
        }
        assert(symbols.deep_view().subrange(0, symbols@.len() as int) =~= symbols.deep_view());
        assert(rates@.subrange(0, symbols@.len() as int) =~= rates@);
    }
}

/// The code and rate that an aggregation result stands for in the output.
pub open spec fn response_fields(r: Result<u64, ResponseCode>) -> (u8, u64) {
    match r {
        Ok(x) => (ResponseCode::Success.spec_code(), x),
        Err(c) => (c.spec_code(), 0),
    }
}

/// `(code, rate)` is the output for a symbol with the values `collected`
/// for it: a symbol with collected values, or one that the registry knows,
/// goes to aggregation (with no values in the second case); any other is
/// not supported.
pub open spec fn symbol_outcome<T, M: Fn(&Vec<T>) -> Option<T>, C: Fn(T) -> Option<u64>>(
    median: M,
    to_fixed: C,
    collected: Option<Seq<T>>,
    supported: bool,
    minimum_source_count: usize,
    code: u8,
    rate: u64,
) -> bool {
    match collected {
        Some(v) => exists|r: Result<u64, ResponseCode>|
            #[trigger] aggregate_outcome(median, to_fixed, v, minimum_source_count, r)
                && response_fields(r) == (code, rate),
        None => if supported {
            exists|r: Result<u64, ResponseCode>|
                #[trigger] aggregate_outcome(median, to_fixed, Seq::<T>::empty(), minimum_source_count, r)
                    && response_fields(r) == (code, rate)
        } else {
            code == ResponseCode::SymbolNotSupported.spec_code() && rate == 0
        },
    }
}

/// Builds the output: one response per requested symbol, in request order,
/// duplicates included.
pub fn get_responses<T, M: Fn(&Vec<T>) -> Option<T>, C: Fn(T) -> Option<u64>>(
    symbols: &Vec<String>,
    symbol_prices: &SymbolPrices<T>,
    minimum_source_count: usize,
    median: &M,
    to_fixed: &C,
) -> (r: Vec<Response>)
    requires
        forall|v: &Vec<T>| median.requires((v,)),
        forall|p: T| to_fixed.requires((p,)),
    ensures
        r@.len() == symbols@.len(),
        forall|i: int| 0 <= i < symbols@.len() ==> (#[trigger] r@[i]).symbol@ == symbols@[i]@,
        forall|i: int|
            0 <= i < symbols@.len() ==> symbol_outcome(
                *median,
                *to_fixed,
                symbol_prices.prices_of(symbols@[i]@),
                is_supported(symbols@[i]@),
                minimum_source_count,
                (#[trigger] r@[i]).response_code,
                r@[i].rate,
            ),
{
    let mut out: Vec<Response> = Vec::new();
    let mut i: usize = 0;
    while i < symbols.len()
        invariant
            forall|v: &Vec<T>| median.requires((v,)),
            forall|p: T| to_fixed.requires((p,)),
            i <= symbols@.len(),
            out@.len() == i,
            forall|k: int| 0 <= k < i ==> (#[trigger] out@[k]).symbol@ == symbols@[k]@,
            forall|k: int|
                0 <= k < i ==> symbol_outcome(
                    *median,
                    *to_fixed,
                    symbol_prices.prices_of(symbols@[k]@),
                    is_supported(symbols@[k]@),
                    minimum_source_count,
                    (#[trigger] out@[k]).response_code,
                    out@[k].rate,
                ),
        decreases symbols.len() - i,
    {
        let symbol = &symbols[i];
        let ghost s = symbols@[i as int]@;
        let a = match symbol_prices.rates_for(symbol) {
            Some(prices) => {
                let a = aggregate_value(prices, minimum_source_count, median, to_fixed);
                assert(aggregate_outcome(*median, *to_fixed, prices@, minimum_source_count, a));
                a
            },
            None => {
                if is_supported_symbol(symbol.as_str()) {
                    let none: Vec<T> = Vec::new();
                    assert(none@ =~= Seq::<T>::empty());
                    aggregate_value(&none, minimum_source_count, median, to_fixed)
                } else {
                    Err(ResponseCode::SymbolNotSupported)
                }
            },
        };
        let resp = match a {
            Ok(rate) => Response::new(symbol.clone(), ResponseCode::Success, rate),
            Err(code) => Response::new(symbol.clone(), code, 0),
        };
        assert(response_fields(a) == (resp.response_code, resp.rate));
        proof {
            match symbol_prices.prices_of(s) {
                Some(v) => {
                    assert(aggregate_outcome(*median, *to_fixed, v, minimum_source_count, a));
                },
                None => {},
            }
        }
        assert(symbol_outcome(
            *median,
            *to_fixed,
            symbol_prices.prices_of(s),
            is_supported(s),
            minimum_source_count,
            resp.response_code,
            resp.rate,
        ));
        out.push(resp);
        i = i + 1;
    }
    out
}

/// Running the computation again on the same collected values and the same
/// configuration gives the same code and rate for a symbol, as long as the
/// median and the fixed-point conversion give one outcome on given values.
pub proof fn lemma_output_deterministic<T, M: Fn(&Vec<T>) -> Option<T>, C: Fn(T) -> Option<u64>>(
    median: M,
    to_fixed: C,
    collected: Option<Seq<T>>,
    supported: bool,
    minimum_source_count: usize,
    code1: u8,
    rate1: u64,
    code2: u8,
    rate2: u64,
)
    requires
        deterministic_median(median),
        deterministic_fixed(to_fixed),
        symbol_outcome(median, to_fixed, collected, supported, minimum_source_count, code1, rate1),
        symbol_outcome(median, to_fixed, collected, supported, minimum_source_count, code2, rate2),
    ensures
        code1 == code2,
        rate1 == rate2,
{
    let values = match collected {
        Some(v) => v,
        None => Seq::<T>::empty(),
    };
    if collected is Some || supported {
        let a1 = choose|r: Result<u64, ResponseCode>|
            #[trigger] aggregate_outcome(median, to_fixed, values, minimum_source_count, r)
                && response_fields(r) == (code1, rate1);
        let a2 = choose|r: Result<u64, ResponseCode>|
            #[trigger] aggregate_outcome(median, to_fixed, values, minimum_source_count, r)
                && response_fields(r) == (code2, rate2);
        lemma_aggregate_unique(median, to_fixed, values, minimum_source_count, a1, a2);
    }
}

} // verus!
