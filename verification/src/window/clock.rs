//! The clock of the `time` crate, as the input state reads it.
//!
//! Verus does not look inside a point in time. The two wrappers below
//! are believed, not proved: nothing is claimed of the current time, and of
//! a span of time only the range that the crate keeps every span in.

use vstd::prelude::*;
use time::OffsetDateTime;

verus! {

/// `time::OffsetDateTime`, a point in time.
#[verifier::external_type_specification]
#[verifier::external_body]
pub struct ExOffsetDateTime(OffsetDateTime);

/// The longest span of time in nanoseconds, forward or backward: the whole
/// seconds of a span fill an `i64`, and less than a second comes on top.
pub const DURATION_LIMIT: i128 = 9_223_372_036_854_775_808_999_999_999;

/// Whether `nanos` is a span of time that can be measured.
pub open spec fn is_span(nanos: i128) -> bool {
    -DURATION_LIMIT <= nanos <= DURATION_LIMIT
}

/// Whether `nanos` is a span of time that can be measured.
pub fn check_span(nanos: i128) -> (r: bool)
    ensures
        r == is_span(nanos),
{
    -DURATION_LIMIT <= nanos && nanos <= DURATION_LIMIT
}

/// `OffsetDateTime::now_utc`: the current time. What comes back depends
/// on the clock of the machine, so nothing is claimed of it.
#[verifier::external_body]
pub(crate) fn clock_now() -> (now: OffsetDateTime) {
    OffsetDateTime::now_utc()
}

/// The subtraction of one `OffsetDateTime` from another, `later - earlier`,
/// and `Duration::whole_nanoseconds` of the span that it gives. All that is
/// claimed is the range of the result: the span holds whole seconds in an
/// `i64` and less than a thousand million nanoseconds beside them, and
/// `whole_nanoseconds` adds the two up.
#[verifier::external_body]
pub(crate) fn nanos_between(later: &OffsetDateTime, earlier: &OffsetDateTime) -> (nanos: i128)
    ensures
        is_span(nanos),
{
    (*later - *earlier).whole_nanoseconds()
}

} // verus!
