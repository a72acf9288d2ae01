//! The arithmetic on measured values that the handlers need.
use vstd::prelude::*;

verus! {

/// Measured values and what is computed from them.
///
/// The handlers decide which values meet in which operation; the operations themselves work on
/// floating point numbers and are supplied by the site.
pub trait Arithmetic {
    /// A measured value.
    type Point: Copy;

    /// A value as it is plotted or shown.
    type Plotted: Copy;

    /// The value that stands for a baseline that was never measured.
    fn zero() -> Self::Point;

    /// The least value that can be plotted.
    fn lowest() -> Self::Plotted;

    /// The share that says that no share could be computed.
    fn unknown_share() -> Self::Plotted;

    /// `point`, rounded to one digit behind the decimal point.
    fn round_to_tenth(point: Self::Point) -> Self::Point;

    /// `point` divided by `baseline`.
    fn ratio(point: Self::Point, baseline: Self::Point) -> Self::Point;

    /// By how many percent `point` differs from `first`.
    fn percent_change(point: Self::Point, first: Self::Point) -> Self::Point;

    /// A time in milliseconds, in seconds.
    fn to_seconds(millis: Self::Point) -> Self::Point;

    /// `point` as it is plotted.
    fn narrow(point: Self::Point) -> Self::Plotted;

    /// The larger of two plotted values.
    fn larger(a: Self::Plotted, b: Self::Plotted) -> Self::Plotted;

    /// How many percent `nanos` nanoseconds are of `clock` milliseconds.
    fn share_of_clock(nanos: u128, clock: Self::Point) -> Self::Plotted;

    /// How many percent `nanos` nanoseconds are of `total` nanoseconds.
    fn share(nanos: u128, total: u128) -> Self::Plotted;

    /// The rate of `hits` among `invocations`, in hundredths of a percent, without fraction.
    fn hit_rate(hits: u64, invocations: u64) -> u64;

    /// A number that grows with `share`.
    fn rank(share: Self::Plotted) -> u64;
}

} // verus!
