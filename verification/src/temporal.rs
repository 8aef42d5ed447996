use vstd::prelude::*;

use temporal_rs::PlainMonthDay as TemporalMonthDay;

verus! {

#[verifier::external_type_specification]
#[verifier::external_body]
pub struct ExPlainMonthDay(TemporalMonthDay);

#[verifier::external_type_specification]
#[verifier::external_body]
pub struct ExTimeZone(temporal_rs::TimeZone);

#[verifier::external_type_specification]
#[verifier::external_body]
pub struct ExEpochNanoseconds(temporal_rs::unix_time::EpochNanoseconds);

#[verifier::external_type_specification]
#[verifier::external_body]
pub struct ExTemporalError(temporal_rs::TemporalError);

/// What temporal_rs's `PlainMonthDay::epoch_ns_for_with_provider` gives for
/// `month_day` in `time_zone` with the time zone data compiled into
/// temporal_rs: the epoch nanoseconds of noon on the month-day's ISO date
/// (compatible disambiguation), or temporal_rs's error when that date-time or
/// instant is out of range.
pub uninterp spec fn compiled_epoch_ns(
    month_day: TemporalMonthDay,
    time_zone: temporal_rs::TimeZone,
) -> Result<temporal_rs::unix_time::EpochNanoseconds, temporal_rs::TemporalError>;

/// What temporal_rs's `UtcOffset::is_sub_minute` says of `time_zone` when
/// it is a UTC offset: whether the offset is not a whole number of minutes.
/// A named time zone is no such offset.
pub uninterp spec fn sub_minute_offset(time_zone: temporal_rs::TimeZone) -> bool;

/// Tells a UTC-offset time zone with a part of a minute (calls
/// `UtcOffset::is_sub_minute`) from any other time zone.
#[verifier::external_body]
fn is_sub_minute_offset(time_zone: &temporal_rs::TimeZone) -> (r: bool)
    ensures
        r == sub_minute_offset(*time_zone),
{
    match time_zone {
        temporal_rs::TimeZone::UtcOffset(offset) => offset.is_sub_minute(),
        temporal_rs::TimeZone::IanaIdentifier(_) => false,
    }
}

/// Calls temporal_rs's `PlainMonthDay::epoch_ns_for_with_provider` with the
/// time zone data compiled into temporal_rs; the result is named, the
/// calendar and time zone arithmetic is not restated here. temporal_rs
/// asserts (in debug builds) that an offset time zone is not a sub-minute
/// one, so such a time zone is not handed in.
#[verifier::external_body]
fn epoch_ns_with_compiled_data(
    month_day: &TemporalMonthDay,
    time_zone: temporal_rs::TimeZone,
) -> (r: Result<temporal_rs::unix_time::EpochNanoseconds, temporal_rs::TemporalError>)
    requires
        !sub_minute_offset(time_zone),
    ensures
        r == compiled_epoch_ns(*month_day, time_zone),
{
    month_day.epoch_ns_for_with_provider(time_zone, &*temporal_rs::provider::COMPILED_TZ_PROVIDER)
}

/// A month and day of a calendar, as temporal_rs holds it, whose instant in
/// a time zone is resolved with the time zone data compiled into temporal_rs.
#[derive(Debug)]
pub struct PlainMonthDay {
    pub inner: TemporalMonthDay,
}

impl PlainMonthDay {
    /// The epoch nanoseconds of noon on this month-day's ISO date in
    /// `time_zone`, which is not a UTC offset with a part of a minute.
    pub fn epoch_ns_for(
        &self,
        time_zone: temporal_rs::TimeZone,
    ) -> (r: Result<temporal_rs::unix_time::EpochNanoseconds, temporal_rs::TemporalError>)
        requires
            !sub_minute_offset(time_zone),
        ensures
            r == compiled_epoch_ns(self.inner, time_zone),
    {
        epoch_ns_with_compiled_data(&self.inner, time_zone)
    }

    /// `epoch_ns_for` for any time zone: `None` when `time_zone` is a UTC
    /// offset with a part of a minute, which temporal_rs does not resolve.
    pub fn checked_epoch_ns_for(
        &self,
        time_zone: temporal_rs::TimeZone,
    ) -> (r: Option<Result<temporal_rs::unix_time::EpochNanoseconds, temporal_rs::TemporalError>>)
        ensures
            match r {
                None => sub_minute_offset(time_zone),
                Some(x) => !sub_minute_offset(time_zone) && x == compiled_epoch_ns(self.inner, time_zone),
            },
    {
        if is_sub_minute_offset(&time_zone) {
            None
        } else {
            Some(self.epoch_ns_for(time_zone))
        }
    }
}

} // verus!
