use vstd::prelude::*;

verus! {

/// Number of agreeing validator reports needed, given how many validators
/// were asked: one more than half for an even count, the ceiling of half
/// for an odd one.
pub open spec fn min_responses(n: int) -> int {
    if n % 2 == 0 {
        (n + 2) / 2
    } else {
        (n + 1) / 2
    }
}

/// Gets the minimum successful response count required given the number of
/// validators asked to respond.
pub fn get_minimum_response_count(min_count: i64) -> (r: usize)
    requires
        0 <= min_count <= i64::MAX - 2,
        min_responses(min_count as int) <= usize::MAX,
    ensures
        r as int == min_responses(min_count as int),
{
    if min_count % 2 == 0 {
        ((min_count + 2) / 2) as usize
    } else {
        ((min_count + 1) / 2) as usize
    }
}

/// The quorum never shrinks when more validators are asked.
pub proof fn lemma_minimum_response_count_monotonic(a: int, b: int)
    requires
        0 <= a <= b,
    ensures
        min_responses(a) <= min_responses(b),
{
}

} // verus!
