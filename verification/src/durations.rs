//! Histograms of request durations in milliseconds, kept by the `hdrhistogram` crate.

use hdrhistogram::{AdditionError, CreationError, Histogram, RecordError};
use vstd::arithmetic::power::pow;
use vstd::multiset::Multiset;
use vstd::prelude::*;

verus! {

/// `hdrhistogram::CreationError`: why a histogram could not be made.
#[verifier::external_type_specification]
#[verifier::external_body]
pub struct ExCreationError(CreationError);

/// `hdrhistogram::RecordError`: why a value could not be recorded.
#[verifier::external_type_specification]
#[verifier::external_body]
pub struct ExRecordError(RecordError);

/// `hdrhistogram::AdditionError`: why a histogram could not be merged into another.
#[verifier::external_type_specification]
#[verifier::external_body]
pub struct ExAdditionError(AdditionError);

/// A histogram of durations: an `hdrhistogram::Histogram<u64>` that never resizes itself.
///
/// It is opaque to the verifier; `recorded` and `bounds` say what it holds.
#[verifier::external_body]
pub struct Durations {
    hist: Histogram<u64>,
}

/// Every value that was recorded in a histogram, as it was handed in, that is before the
/// histogram groups it with the values that it does not tell apart from it.
pub uninterp spec fn recorded(durations: Durations) -> Multiset<u64>;

/// What a histogram was made with: the lowest value that it tells from 0, the highest value
/// that it tracks, and the number of significant decimal digits that it keeps.
pub uninterp spec fn bounds(durations: Durations) -> (u64, u64, u8);

/// What `Histogram::value_at_percentile` returns for a percentile, of a histogram that was
/// made with `bounds` and in which `values` were recorded.
pub uninterp spec fn percentile_value(
    values: Multiset<u64>,
    bounds: (u64, u64, u8),
    percentile: u8,
) -> u64;

/// Up to how many values the rank of the percentile 95 is exact. The first number of values for
/// which the crate's rounding gives another rank lies a little above.
pub const MOST_RANKED: u64 = 400_000_000_000_000;

/// How many of the values are at most `limit`.
pub open spec fn count_up_to(values: Multiset<u64>, limit: u64) -> nat {
    values.filter(|v: u64| v <= limit).len()
}

/// How many of the values are less than `limit`.
pub open spec fn count_below(values: Multiset<u64>, limit: u64) -> nat {
    values.filter(|v: u64| v < limit).len()
}

/// Whether `v` is, of the values in ascending order, the one with this rank, counted from 1.
pub open spec fn at_rank(values: Multiset<u64>, rank: nat, v: u64) -> bool {
    count_below(values, v) < rank <= count_up_to(values, v)
}

/// A condition that admits more admits no fewer values.
pub(crate) proof fn lemma_more_admitted(
    values: Multiset<u64>,
    less: spec_fn(u64) -> bool,
    more: spec_fn(u64) -> bool,
)
    requires
        forall|v: u64| #[trigger] less(v) ==> more(v),
    ensures
        values.filter(less).len() <= values.filter(more).len(),
{
    let (few, many) = (values.filter(less), values.filter(more));
    assert(many =~= few.add(many.sub(few)));
}

/// No two values have the same rank.
pub proof fn law_rank_is_unique(values: Multiset<u64>, rank: nat, v: u64, w: u64)
    requires
        at_rank(values, rank, v),
        at_rank(values, rank, w),
    ensures
        v == w,
{
    if v < w {
        lemma_more_admitted(values, |x: u64| x <= v, |x: u64| x < w);
    } else if w < v {
        lemma_more_admitted(values, |x: u64| x <= w, |x: u64| x < v);
    }
}

/// The least rank at which the given percentage of `n` values is reached.
pub open spec fn percentile_rank(percentile: u8, n: nat) -> nat {
    ((percentile * n + 99) / 100) as nat
}

/// Whether `number` stands for the value `v` where `digits` significant digits are kept: it is
/// not less, and exceeds it by no more than these digits leave open. With three digits, single
/// units are told apart below 2048.
pub open spec fn stands_for(number: u64, v: u64, digits: nat) -> bool {
    &&& v <= number
    &&& (number - v) * pow(10, digits) <= v
    &&& digits == 3 && v < 2048 ==> number == v
}

/// Whether `number` stands for the value with this rank.
pub open spec fn stands_for_rank(
    number: u64,
    values: Multiset<u64>,
    rank: nat,
    digits: nat,
) -> bool {
    exists|v: u64| #[trigger] at_rank(values, rank, v) && stands_for(number, v, digits)
}

/// `Histogram::new_with_bounds`: a histogram without values.
///
/// Claimed: it fails where the lowest value is 0, where the highest value is less than twice
/// the lowest, and where more than 5 digits are asked for; it succeeds where the lowest value
/// is 1 and none of these holds; what it makes has the bounds that were asked for and no
/// values. Of a lowest value above 1 that passes these tests nothing is claimed: there it
/// depends on a logarithm whether the digits can be represented.
#[verifier::external_body]
pub(crate) fn new_with_bounds(low: u64, high: u64, sigfig: u8) -> (res: Result<
    Durations,
    CreationError,
>)
    ensures
        low == 0 || high < 2 * low || sigfig > 5 ==> res is Err,
        low == 1 && high >= 2 && sigfig <= 5 ==> res is Ok,
        res matches Ok(d) ==> recorded(d) == Multiset::<u64>::empty() && bounds(d) == (
            low,
            high,
            sigfig,
        ),
{
    Histogram::new_with_bounds(low, high, sigfig).map(|hist| Durations { hist })
}

/// `Histogram::record`: one more value.
///
/// Claimed, of a value within the bounds: it succeeds, and exactly that value is added.
#[verifier::external_body]
pub(crate) fn record(durations: &mut Durations, value: u64) -> (res: Result<(), RecordError>)
    requires
        value <= bounds(*old(durations)).1,
    ensures
        res is Ok,
        recorded(*final(durations)) == recorded(*old(durations)).insert(value),
        bounds(*final(durations)) == bounds(*old(durations)),
{
    durations.hist.record(value)
}

/// `Histogram::add`: all values of another histogram.
///
/// Claimed, of two histograms with the same bounds, whose highest value is at most half of
/// `u64::MAX`: it succeeds, and the values of the other histogram are added, each as often as it
/// occurs there. With a higher bound the crate's arithmetic saturates, and the greatest values
/// are refused.
#[verifier::external_body]
pub(crate) fn add_all(durations: &mut Durations, other: &Durations) -> (res: Result<
    (),
    AdditionError,
>)
    requires
        bounds(*old(durations)) == bounds(*other),
        bounds(*other).1 <= u64::MAX / 2,
    ensures
        res is Ok,
        recorded(*final(durations)) == recorded(*old(durations)).add(recorded(*other)),
        bounds(*final(durations)) == bounds(*old(durations)),
{
    durations.hist.add(&other.hist)
}

/// `Histogram::len`: how many values were recorded.
///
/// Claimed: it is their number, or `u64::MAX` where there are more, since the crate counts
/// with saturation.
#[verifier::external_body]
pub(crate) fn count(durations: &Durations) -> (res: u64)
    ensures
        res == if recorded(*durations).len() <= u64::MAX {
            recorded(*durations).len() as int
        } else {
            u64::MAX as int
        },
{
    durations.hist.len()
}

/// `Histogram::value_at_percentile`, for a whole percentile.
///
/// Claimed, where the highest value that is tracked is at most half of `u64::MAX`: it depends on
/// the values, the bounds and the percentile alone; it is 0 where there are no values; up to a
/// trillion values, at least the given percentage of them are at most what it returns; and, for
/// the percentile 95 and up to `MOST_RANKED` values, what it returns stands for the value with
/// the rank that belongs to it, where single units are told apart at all. The rank of other
/// percentiles is left unsaid: where the percentage is rounded up to a double, it may be one
/// higher. Beyond `MOST_RANKED` values the product of percentage and number is rounded to a
/// double that may give another rank; beyond `u64::MAX` values the sum of the counts overflows;
/// with a higher bound the greatest values are returned too low.
#[verifier::external_body]
pub(crate) fn value_at_percentile(durations: &Durations, percentile: u8) -> (res: u64)
    requires
        recorded(*durations).len() <= u64::MAX,
        bounds(*durations).1 <= u64::MAX / 2,
    ensures
        res == percentile_value(recorded(*durations), bounds(*durations), percentile),
        recorded(*durations).len() == 0 ==> res == 0,
        percentile <= 100 && recorded(*durations).len() <= 1_000_000_000_000 ==> 100 * count_up_to(
            recorded(*durations),
            res,
        ) >= percentile * recorded(*durations).len(),
        percentile == 95 && 0 < recorded(*durations).len() <= MOST_RANKED && bounds(*durations).0
            == 1 ==> stands_for_rank(
            res,
            recorded(*durations),
            percentile_rank(percentile, recorded(*durations).len()),
            bounds(*durations).2 as nat,
        ),
{
    durations.hist.value_at_percentile(percentile.into())
}

/// The rank of a percentile is the least at which no less than that percentage is reached.
pub proof fn law_rank_reaches_the_percentage(percentile: u8, n: nat)
    ensures
        100 * percentile_rank(percentile, n) >= percentile * n,
        percentile_rank(percentile, n) > 0 ==> 100 * (percentile_rank(percentile, n) - 1)
            < percentile * n,
{
}

} // verus!
