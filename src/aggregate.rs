use vstd::prelude::*;

use crate::medianize::median_of;
use crate::response::ResponseCode;

verus! {

/// Scale of the fixed-point rates: a price of 1 is a rate of 10^9.
pub const MULTIPLIER: u64 = 1000000000;

/// `c` is an outcome that `to_fixed` may give on price `p`.
pub open spec fn fixed_of<T, C: Fn(T) -> Option<u64>>(to_fixed: C, p: T, c: Option<u64>) -> bool {
    to_fixed.ensures((p,), c)
}

/// `r` is the final price of a symbol whose data sources gave `rates`:
/// too few of them is `NotEnoughSources`; otherwise the median of them,
/// scaled to a fixed-point integer, or `ConversionError` where it does not
/// fit, or `Unknown` where no median comes out.
pub open spec fn aggregate_outcome<T, M: Fn(&Vec<T>) -> Option<T>, C: Fn(T) -> Option<u64>>(
    median: M,
    to_fixed: C,
    rates: Seq<T>,
    minimum_source_count: usize,
    r: Result<u64, ResponseCode>,
) -> bool {
    if rates.len() < minimum_source_count {
        r == Err::<u64, ResponseCode>(ResponseCode::NotEnoughSources)
    } else {
        exists|m: Option<T>|
            #[trigger] median_of(median, rates, m) && match m {
                None => r == Err::<u64, ResponseCode>(ResponseCode::Unknown),
                Some(p) => exists|c: Option<u64>|
                    #[trigger] fixed_of(to_fixed, p, c) && match c {
                        Some(x) => r == Ok::<u64, ResponseCode>(x),
                        None => r == Err::<u64, ResponseCode>(ResponseCode::ConversionError),
                    },
            }
    }
}

/// Aggregates the values that the data sources gave for one symbol into its
/// fixed-point price, or the code that says why there is none.
pub fn aggregate_value<T, M: Fn(&Vec<T>) -> Option<T>, C: Fn(T) -> Option<u64>>(
    rates: &Vec<T>,
    minimum_source_count: usize,
    median: &M,
    to_fixed: &C,
) -> (r: Result<u64, ResponseCode>)
    requires
        forall|v: &Vec<T>| median.requires((v,)),
        forall|p: T| to_fixed.requires((p,)),
    ensures
        aggregate_outcome(*median, *to_fixed, rates@, minimum_source_count, r),
        rates@.len() < minimum_source_count <==> r == Err::<u64, ResponseCode>(
            ResponseCode::NotEnoughSources,
        ),
{
    if rates.len() < minimum_source_count {
        Err(ResponseCode::NotEnoughSources)
    } else {
        let m = median(rates);
        assert(median.ensures((rates,), m));
        assert(median_of(*median, rates@, m));
        match m {
            Some(price) => {
                let c = to_fixed(price);
                assert(fixed_of(*to_fixed, price, c));
                match c {
                    Some(mul_price) => Ok(mul_price),
                    None => Err(ResponseCode::ConversionError),
                }
            },
            None => Err(ResponseCode::Unknown),
        }
    }
}

/// `median` gives one outcome on given values.
pub open spec fn deterministic_median<T, M: Fn(&Vec<T>) -> Option<T>>(median: M) -> bool {
    forall|v1: &Vec<T>, v2: &Vec<T>, m1: Option<T>, m2: Option<T>|
        #![trigger median.ensures((v1,), m1), median.ensures((v2,), m2)]
        v1@ == v2@ && median.ensures((v1,), m1) && median.ensures((v2,), m2) ==> m1 == m2
}

/// `to_fixed` gives one outcome on a given price.
pub open spec fn deterministic_fixed<T, C: Fn(T) -> Option<u64>>(to_fixed: C) -> bool {
    forall|p: T, c1: Option<u64>, c2: Option<u64>|
        #![trigger to_fixed.ensures((p,), c1), to_fixed.ensures((p,), c2)]
        to_fixed.ensures((p,), c1) && to_fixed.ensures((p,), c2) ==> c1 == c2
}

pub(crate) proof fn lemma_aggregate_unique<T, M: Fn(&Vec<T>) -> Option<T>, C: Fn(T) -> Option<u64>>(
    median: M,
    to_fixed: C,
    rates: Seq<T>,
    minimum_source_count: usize,
    r1: Result<u64, ResponseCode>,
    r2: Result<u64, ResponseCode>,
)
    requires
        deterministic_median(median),
        deterministic_fixed(to_fixed),
        aggregate_outcome(median, to_fixed, rates, minimum_source_count, r1),
        aggregate_outcome(median, to_fixed, rates, minimum_source_count, r2),
    ensures
        r1 == r2,
{
    if rates.len() >= minimum_source_count {
        let m1 = choose|m: Option<T>|
            #[trigger] median_of(median, rates, m) && match m {
                None => r1 == Err::<u64, ResponseCode>(ResponseCode::Unknown),
                Some(p) => exists|c: Option<u64>|
                    #[trigger] fixed_of(to_fixed, p, c) && match c {
                        Some(x) => r1 == Ok::<u64, ResponseCode>(x),
                        None => r1 == Err::<u64, ResponseCode>(ResponseCode::ConversionError),
                    },
            };
        let m2 = choose|m: Option<T>|
            #[trigger] median_of(median, rates, m) && match m {
                None => r2 == Err::<u64, ResponseCode>(ResponseCode::Unknown),
                Some(p) => exists|c: Option<u64>|
                    #[trigger] fixed_of(to_fixed, p, c) && match c {
                        Some(x) => r2 == Ok::<u64, ResponseCode>(x),
                        None => r2 == Err::<u64, ResponseCode>(ResponseCode::ConversionError),
                    },
            };
        let v1 = choose|v: &Vec<T>| v@ == rates && #[trigger] median.ensures((v,), m1);
        let v2 = choose|v: &Vec<T>| v@ == rates && #[trigger] median.ensures((v,), m2);
        assert(m1 == m2);
        if m1 is Some {
            let p = m1->0;
            let c1 = choose|c: Option<u64>|
                #[trigger] fixed_of(to_fixed, p, c) && match c {
                    Some(x) => r1 == Ok::<u64, ResponseCode>(x),
                    None => r1 == Err::<u64, ResponseCode>(ResponseCode::ConversionError),
                };
            let c2 = choose|c: Option<u64>|
                #[trigger] fixed_of(to_fixed, p, c) && match c {
                    Some(x) => r2 == Ok::<u64, ResponseCode>(x),
                    None => r2 == Err::<u64, ResponseCode>(ResponseCode::ConversionError),
                };
            assert(c1 == c2);
        }
    }
}

} // verus!
