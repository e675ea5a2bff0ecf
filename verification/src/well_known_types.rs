//! The well-known types: nullable scalars, durations and timestamps, and
//! how they pass between the wire, the host's values and `chrono`.

use crate::betterproto_interop::error::InteropError;
use crate::betterproto_interop::message::{Value, ValueView};
use crate::decode::message::{decode_temporal, decode_wrapped, decoded_temporal, decoded_wrapped};
use crate::decode::DecodeError;
use crate::descriptors::ScalarKind;
use crate::encode::error::EncodeError;
use crate::encode::message::{temporal_bytes, temporal_to_vec, wrapped_bytes, write_plain_scalar};
use vstd::prelude::*;
use vstd::slice::slice_to_vec;

verus! {

/// The number of nanoseconds in a second.
pub const NANOS_PER_SEC: i32 = 1_000_000_000;

/// A signed span of time: whole seconds and a nanosecond part.
#[derive(Clone, Copy, Debug, PartialEq, Eq, Structural)]
pub struct Duration {
    pub seconds: i64,
    pub nanos: i32,
}

/// An instant: seconds since the Unix epoch and the nanoseconds within that
/// second.
#[derive(Clone, Copy, Debug, PartialEq, Eq, Structural)]
pub struct Timestamp {
    pub seconds: i64,
    pub nanos: i32,
}

/// A span of time as `chrono` holds it.
#[verifier::external_type_specification]
#[verifier::external_body]
pub struct ExTimeDelta(chrono::TimeDelta);

/// The spans that `chrono` can hold: whole seconds and nanoseconds below a
/// second that together lie within `i64::MAX` milliseconds of zero.
pub open spec fn time_delta_in_bounds(seconds: i64, nanos: u32) -> bool {
    &&& -9_223_372_036_854_776 <= seconds <= 9_223_372_036_854_775
    &&& nanos < 1_000_000_000
    &&& !(seconds == 9_223_372_036_854_775 && nanos > 807_000_000)
    &&& !(seconds == -9_223_372_036_854_776 && nanos < 193_000_000)
}

/// The calendar year, in UTC, of the instant that lies `seconds` seconds and
/// `nanos` nanoseconds after the Unix epoch, as `chrono` computes it; `None`
/// where `chrono` cannot hold that instant.
pub uninterp spec fn utc_year(seconds: i64, nanos: u32) -> Option<i32>;

/// The span of the given seconds and nanoseconds as `chrono` holds it.
pub uninterp spec fn time_delta_of(seconds: i64, nanos: u32) -> chrono::TimeDelta;

/// Trusted: `chrono::TimeDelta::new`. It returns a span exactly where the
/// seconds and nanoseconds are within `chrono`'s bounds, and then the span
/// that `time_delta_of` names.
#[verifier::external_body]
fn chrono_time_delta_new(seconds: i64, nanos: u32) -> (r: Option<chrono::TimeDelta>)
    ensures
        r == if time_delta_in_bounds(seconds, nanos) {
            Some(time_delta_of(seconds, nanos))
        } else {
            None
        },
{
    chrono::TimeDelta::new(seconds, nanos)
}

/// The whole seconds, rounded towards zero, of the span that lies `seconds`
/// seconds and then `nanos` nanoseconds from zero: where the seconds are
/// negative, the nanoseconds take one second back.
pub open spec fn whole_seconds_of(seconds: i64, nanos: u32) -> int {
    if seconds < 0 && nanos > 0 {
        seconds + 1
    } else {
        seconds as int
    }
}

/// The nanoseconds that the span of `seconds` seconds and then `nanos`
/// nanoseconds has beside its whole seconds, with the sign of the span.
pub open spec fn subsec_nanos_of(seconds: i64, nanos: u32) -> int {
    if seconds < 0 && nanos > 0 {
        nanos - 1_000_000_000
    } else {
        nanos as int
    }
}

/// Trusted: `chrono::TimeDelta::num_seconds`. Of a span that
/// `chrono::TimeDelta::new` makes of seconds and nanoseconds, it returns the
/// whole seconds rounded towards zero. Of a span that only arithmetic on
/// spans can make, nothing is claimed.
#[verifier::external_body]
fn chrono_num_seconds(delta: &chrono::TimeDelta) -> (r: i64)
    ensures
        forall|seconds: i64, nanos: u32|
            time_delta_in_bounds(seconds, nanos) && *delta == #[trigger] time_delta_of(
                seconds,
                nanos,
            ) ==> r == whole_seconds_of(seconds, nanos),
{
    delta.num_seconds()
}

/// Trusted: `chrono::TimeDelta::subsec_nanos`. The nanoseconds beside the
/// whole seconds are less than a second in either direction; of a span that
/// `chrono::TimeDelta::new` makes of seconds and nanoseconds, they are the
/// nanoseconds with the sign of the span.
#[verifier::external_body]
fn chrono_subsec_nanos(delta: &chrono::TimeDelta) -> (r: i32)
    ensures
        -1_000_000_000 < r < 1_000_000_000,
        forall|seconds: i64, nanos: u32|
            time_delta_in_bounds(seconds, nanos) && *delta == #[trigger] time_delta_of(
                seconds,
                nanos,
            ) ==> r == subsec_nanos_of(seconds, nanos),
{
    delta.subsec_nanos()
}

/// Trusted: `==` of two spans, which `chrono::TimeDelta` derives. It holds
/// exactly where the two are the same span.
#[verifier::external_body]
fn chrono_same_span(a: &chrono::TimeDelta, b: &chrono::TimeDelta) -> (r: bool)
    ensures
        r == (*a == *b),
{
    a == b
}

/// Trusted: `chrono::DateTime::from_timestamp`, and `chrono::Datelike::year`
/// of the instant it returns. The result is the year that `utc_year` names.
#[verifier::external_body]
fn chrono_utc_year(seconds: i64, nanos: u32) -> (r: Option<i32>)
    ensures
        r == utc_year(seconds, nanos),
{
    let instant = chrono::DateTime::from_timestamp(seconds, nanos)?;
    Some(chrono::Datelike::year(&instant))
}

/// Trusted: `chrono::NaiveDateTime::and_local_timezone` with `chrono::Local`,
/// and `single` of what it returns. Where the wall-clock value has exactly one
/// meaning in the local time zone, the result is that instant as seconds since
/// the Unix epoch and nanoseconds within the second. Which value has one
/// depends on the machine's time zone, so nothing is claimed of the result.
#[verifier::external_body]
fn chrono_local_instant(naive: &chrono::NaiveDateTime) -> (r: Option<(i64, u32)>) {
    let instant = naive.and_local_timezone(chrono::Local).single()?;
    Some((instant.timestamp(), instant.timestamp_subsec_nanos()))
}

/// A duration with the same length whose nanoseconds are not negative, where
/// there is one: a negative nanosecond part borrows one second.
pub open spec fn normalized_duration(d: Duration) -> Option<Duration> {
    if d.nanos >= 0 {
        Some(d)
    } else if d.seconds == i64::MIN {
        None
    } else {
        Some(Duration { seconds: (d.seconds - 1) as i64, nanos: (d.nanos + NANOS_PER_SEC) as i32 })
    }
}

/// The duration of whole seconds and nanoseconds that may differ in sign:
/// the same length of time with nanoseconds that are not negative, where the
/// seconds leave room to borrow one, and the parts as they are where not.
pub open spec fn duration_of_parts(whole_seconds: i64, subsec_nanos: i32) -> Duration {
    match normalized_duration(Duration { seconds: whole_seconds, nanos: subsec_nanos }) {
        Some(d) => d,
        None => Duration { seconds: whole_seconds, nanos: subsec_nanos },
    }
}

/// The host's value of a duration that was read: the duration with its sign
/// normalized, or `InvalidData` where the nanoseconds cannot be brought into
/// a second or the span is more than the host can hold.
pub open spec fn duration_value(d: Duration) -> Result<ValueView, DecodeError> {
    match normalized_duration(d) {
        Some(n) => if n.nanos >= 0 && time_delta_in_bounds(n.seconds, n.nanos as u32) {
            Ok(ValueView::Duration(n))
        } else {
            Err(DecodeError::InvalidData)
        },
        None => Err(DecodeError::InvalidData),
    }
}

/// The host's value of a timestamp whose calendar year is `year`, `None`
/// standing for an instant that the calendar cannot hold at all.
///
/// The timestamp itself where the year is one of 1 to 9999, and
/// `TimestampOutOfBounds` where it is another. An instant without a year is
/// out of bounds too where its nanoseconds lie within a second, for then only
/// its day can be what the calendar refuses; with other nanoseconds it is no
/// instant, and `InvalidData`.
pub open spec fn timestamp_value_in_year(t: Timestamp, year: Option<i32>) -> Result<
    ValueView,
    DecodeError,
> {
    match year {
        None => if 0 <= t.nanos < NANOS_PER_SEC {
            Err(DecodeError::TimestampOutOfBounds { seconds: t.seconds, nanos: t.nanos as u32 })
        } else {
            Err(DecodeError::InvalidData)
        },
        Some(y) => if 1 <= y <= 9999 {
            Ok(ValueView::Timestamp(t))
        } else {
            Err(DecodeError::TimestampOutOfBounds { seconds: t.seconds, nanos: t.nanos as u32 })
        },
    }
}

/// The host's value of a timestamp that was read: the timestamp itself where
/// its year is one of 1 to 9999, `TimestampOutOfBounds` where its instant lies
/// in any other year, however far, and `InvalidData` where the nanoseconds
/// are negative, or are a second or more and name no instant.
pub open spec fn timestamp_value(t: Timestamp) -> Result<ValueView, DecodeError> {
    if t.nanos < 0 {
        Err(DecodeError::InvalidData)
    } else {
        timestamp_value_in_year(t, utc_year(t.seconds, t.nanos as u32))
    }
}

/// Whether a duration is one that the host holds as it stands: its
/// nanoseconds are not negative and its span is within what the host can
/// hold. These are the durations that are read back as they were written.
pub open spec fn duration_is_canonical(d: Duration) -> bool {
    d.nanos >= 0 && time_delta_in_bounds(d.seconds, d.nanos as u32)
}

/// Whether a timestamp is one that the host holds as it stands: it names an
/// instant in the years 1 to 9999. These are the timestamps that are read
/// back as they were written.
pub open spec fn timestamp_is_canonical(t: Timestamp) -> bool {
    timestamp_value(t) is Ok
}

/// A canonical duration is its own value for the host, and no other
/// duration is.
pub proof fn lemma_duration_is_canonical(d: Duration)
    ensures
        duration_is_canonical(d) <==> duration_value(d) == Ok::<ValueView, DecodeError>(
            ValueView::Duration(d),
        ),
{
}

/// A canonical timestamp is its own value for the host.
pub proof fn lemma_timestamp_is_canonical(t: Timestamp)
    ensures
        timestamp_is_canonical(t) <==> timestamp_value(t) == Ok::<ValueView, DecodeError>(
            ValueView::Timestamp(t),
        ),
{
}

impl Duration {
    /// Whether this duration is one that the host holds as it stands.
    pub fn is_canonical(&self) -> (r: bool)
        ensures
            r == duration_is_canonical(*self),
    {
        if self.nanos < 0 {
            false
        } else {
            match chrono_time_delta_new(self.seconds, self.nanos as u32) {
                Some(_) => true,
                None => false,
            }
        }
    }

    /// The duration of `whole_seconds` seconds and `subsec_nanos` nanoseconds,
    /// which may differ in sign, with the nanoseconds brought to a value that
    /// is not negative where the seconds allow it.
    pub fn from_parts(whole_seconds: i64, subsec_nanos: i32) -> (r: Duration)
        ensures
            r == duration_of_parts(whole_seconds, subsec_nanos),
            r.seconds * 1_000_000_000 + r.nanos == whole_seconds * 1_000_000_000 + subsec_nanos,
            subsec_nanos >= 0 ==> r.nanos == subsec_nanos,
            -1_000_000_000 <= subsec_nanos < 0 && whole_seconds > i64::MIN ==> 0 <= r.nanos
                < 1_000_000_000,
    {
        if subsec_nanos < 0 && whole_seconds > i64::MIN {
            Duration { seconds: whole_seconds - 1, nanos: subsec_nanos + NANOS_PER_SEC }
        } else {
            Duration { seconds: whole_seconds, nanos: subsec_nanos }
        }
    }

    /// The duration of a span that `chrono` holds: whole seconds rounded down
    /// and nanoseconds from zero up to a second. Of the span that
    /// `chrono::TimeDelta::new` makes of seconds and nanoseconds, it is the
    /// duration of those seconds and nanoseconds. The nanoseconds are negative
    /// only where the seconds leave no second to borrow.
    pub fn from_time_delta(value: &chrono::TimeDelta) -> (r: Duration)
        ensures
            forall|seconds: i64, nanos: u32|
                time_delta_in_bounds(seconds, nanos) && *value == #[trigger] time_delta_of(
                    seconds,
                    nanos,
                ) ==> r == (Duration { seconds, nanos: nanos as i32 }),
            -1_000_000_000 < r.nanos < 1_000_000_000,
            r.nanos < 0 ==> r.seconds == i64::MIN,
    {
        let whole_seconds: i64 = chrono_num_seconds(value);
        let subsec_nanos: i32 = chrono_subsec_nanos(value);
        let r = Duration::from_parts(whole_seconds, subsec_nanos);
        proof {
            assert forall|seconds: i64, nanos: u32|
                time_delta_in_bounds(seconds, nanos) && *value == #[trigger] time_delta_of(
                    seconds,
                    nanos,
                ) implies r == (Duration { seconds, nanos: nanos as i32 }) by {
                assert(whole_seconds == whole_seconds_of(seconds, nanos));
                assert(subsec_nanos == subsec_nanos_of(seconds, nanos));
            }
        }
        r
    }

    /// The duration of a span, where the span is one that
    /// `chrono::TimeDelta::new` makes of seconds and nanoseconds, and then the
    /// duration of those; `None` for any other span, which only arithmetic on
    /// spans can make. The duration of `Some` is canonical, and
    /// `try_to_time_delta` gives the span back.
    pub fn try_from_time_delta(value: &chrono::TimeDelta) -> (r: Option<Duration>)
        ensures
            match r {
                Some(d) => duration_is_canonical(d) && *value == time_delta_of(
                    d.seconds,
                    d.nanos as u32,
                ),
                None => forall|seconds: i64, nanos: u32|
                    time_delta_in_bounds(seconds, nanos) ==> *value != #[trigger] time_delta_of(
                        seconds,
                        nanos,
                    ),
            },
    {
        let d = Duration::from_time_delta(value);
        if d.nanos < 0 {
            return None;
        }
        match chrono_time_delta_new(d.seconds, d.nanos as u32) {
            Some(back) => {
                if chrono_same_span(&back, value) {
                    Some(d)
                } else {
                    None
                }
            },
            None => None,
        }
    }

    /// This duration with its sign normalized, where that can be done.
    pub fn normalized(&self) -> (r: Option<Duration>)
        ensures
            r == normalized_duration(*self),
    {
        if self.nanos >= 0 {
            Some(*self)
        } else if self.seconds == i64::MIN {
            None
        } else {
            Some(Duration { seconds: self.seconds - 1, nanos: self.nanos + NANOS_PER_SEC })
        }
    }

    /// The span of this duration as `chrono` holds it: that of the duration
    /// with its sign normalized. Fails with `InvalidData` exactly where
    /// `duration_value` does.
    pub fn try_to_time_delta(&self) -> (r: Result<chrono::TimeDelta, DecodeError>)
        ensures
            match r {
                Ok(delta) => duration_value(*self) matches Ok(ValueView::Duration(d)) && delta
                    == time_delta_of(d.seconds, d.nanos as u32),
                Err(e) => e == DecodeError::InvalidData && duration_value(*self) is Err,
            },
    {
        match self.normalized() {
            Some(n) => {
                if n.nanos < 0 {
                    return Err(DecodeError::InvalidData);
                }
                match chrono_time_delta_new(n.seconds, n.nanos as u32) {
                    Some(delta) => Ok(delta),
                    None => Err(DecodeError::InvalidData),
                }
            },
            None => Err(DecodeError::InvalidData),
        }
    }

    /// The host's value of this duration.
    pub fn try_to_object(&self) -> (r: Result<Value, DecodeError>)
        ensures
            match r {
                Ok(value) => duration_value(*self) == Ok::<ValueView, DecodeError>(value@),
                Err(e) => duration_value(*self) == Err::<ValueView, DecodeError>(e),
            },
    {
        match self.normalized() {
            Some(n) => {
                if n.nanos < 0 {
                    return Err(DecodeError::InvalidData);
                }
                match chrono_time_delta_new(n.seconds, n.nanos as u32) {
                    Some(_) => Ok(Value::Duration(n)),
                    None => Err(DecodeError::InvalidData),
                }
            },
            None => Err(DecodeError::InvalidData),
        }
    }
}

/// A date and time as the host hands it over: with an offset, and then given
/// as the instant it names, or without one.
#[derive(Debug, PartialEq)]
pub enum HostDateTime {
    /// An instant: seconds since the Unix epoch in UTC, and the nanoseconds
    /// within that second.
    Aware { utc_seconds: i64, subsec_nanos: u32 },
    /// A wall-clock value, to be read in the local time zone.
    Naive(chrono::NaiveDateTime),
}

impl Timestamp {
    /// Whether this timestamp is one that the host holds as it stands.
    pub fn is_canonical(&self) -> (r: bool)
        ensures
            r == timestamp_is_canonical(*self),
    {
        match self.try_to_object() {
            Ok(_) => true,
            Err(_) => false,
        }
    }

    /// The timestamp of an instant given in UTC.
    pub fn from_utc_parts(utc_seconds: i64, subsec_nanos: u32) -> (r: Timestamp)
        ensures
            r == (Timestamp { seconds: utc_seconds, nanos: subsec_nanos as i32 }),
    {
        Timestamp { seconds: utc_seconds, nanos: #[verifier::truncate] (subsec_nanos as i32) }
    }

    /// The timestamp of a wall-clock value, given the instant that it names
    /// in the local time zone; `OffsetNaiveDateTimeDoesNotMap` where it names
    /// none, or more than one.
    pub fn from_local_instant(naive: chrono::NaiveDateTime, instant: Option<(i64, u32)>) -> (r:
        Result<Timestamp, InteropError>)
        ensures
            r == match instant {
                Some((seconds, nanos)) => Ok::<Timestamp, InteropError>(
                    Timestamp { seconds, nanos: nanos as i32 },
                ),
                None => Err::<Timestamp, InteropError>(
                    InteropError::OffsetNaiveDateTimeDoesNotMap(naive),
                ),
            },
    {
        match instant {
            Some((seconds, nanos)) => Ok(Timestamp::from_utc_parts(seconds, nanos)),
            None => Err(InteropError::OffsetNaiveDateTimeDoesNotMap(naive)),
        }
    }

    /// The timestamp of a date and time of the host. One with an offset gives
    /// its instant; one without is read in the local time zone, and fails
    /// with `OffsetNaiveDateTimeDoesNotMap`, carrying the value, where the zone
    /// gives it no single meaning.
    pub fn try_from_any(ob: &HostDateTime) -> (r: Result<Timestamp, InteropError>)
        ensures
            match *ob {
                HostDateTime::Aware { utc_seconds, subsec_nanos } => r == Ok::<
                    Timestamp,
                    InteropError,
                >(Timestamp { seconds: utc_seconds, nanos: subsec_nanos as i32 }),
                HostDateTime::Naive(naive) => r matches Err(e) ==> e
                    == InteropError::OffsetNaiveDateTimeDoesNotMap(naive),
            },
    {
        match ob {
            HostDateTime::Aware { utc_seconds, subsec_nanos } => Ok(
                Timestamp::from_utc_parts(*utc_seconds, *subsec_nanos),
            ),
            HostDateTime::Naive(naive) => Timestamp::from_local_instant(
                *naive,
                chrono_local_instant(naive),
            ),
        }
    }

    /// The host's value of this timestamp, given its calendar year.
    pub fn to_object_in_year(&self, year: Option<i32>) -> (r: Result<Value, DecodeError>)
        ensures
            match r {
                Ok(value) => timestamp_value_in_year(*self, year) == Ok::<ValueView, DecodeError>(
                    value@,
                ),
                Err(e) => timestamp_value_in_year(*self, year) == Err::<ValueView, DecodeError>(e),
            },
    {
        match year {
            None => {
                if 0 <= self.nanos && self.nanos < NANOS_PER_SEC {
                    Err(
                        DecodeError::TimestampOutOfBounds {
                            seconds: self.seconds,
                            nanos: self.nanos as u32,
                        },
                    )
                } else {
                    Err(DecodeError::InvalidData)
                }
            },
            Some(y) => {
                if 1 <= y && y <= 9999 {
                    Ok(Value::Timestamp(*self))
                } else {
                    Err(
                        DecodeError::TimestampOutOfBounds {
                            seconds: self.seconds,
                            nanos: #[verifier::truncate] (self.nanos as u32),
                        },
                    )
                }
            },
        }
    }

    /// The host's value of this timestamp: the instant it names, which must
    /// lie in the years 1 to 9999.
    pub fn try_to_object(&self) -> (r: Result<Value, DecodeError>)
        ensures
            match r {
                Ok(value) => timestamp_value(*self) == Ok::<ValueView, DecodeError>(value@),
                Err(e) => timestamp_value(*self) == Err::<ValueView, DecodeError>(e),
            },
    {
        if self.nanos < 0 {
            return Err(DecodeError::InvalidData);
        }
        let year = chrono_utc_year(self.seconds, self.nanos as u32);
        self.to_object_in_year(year)
    }
}

impl Duration {
    /// The duration that a value of the host holds. Fails with
    /// `DowncastFailed` exactly where the value is no duration.
    pub fn extract_bound(ob: &Value) -> (r: Result<Duration, EncodeError>)
        ensures
            match r {
                Ok(d) => ob@ == ValueView::Duration(d),
                Err(e) => e == EncodeError::DowncastFailed && !(ob@ is Duration),
            },
    {
        match ob {
            Value::Duration(d) => Ok(*d),
            _ => Err(EncodeError::DowncastFailed),
        }
    }

    /// The bytes of this duration's message.
    pub fn encode_to_vec(&self) -> (r: Vec<u8>)
        ensures
            r@ == temporal_bytes(self.seconds, self.nanos),
    {
        temporal_to_vec(self.seconds, self.nanos)
    }

    /// The duration whose message the bytes are.
    pub fn decode(buf: &[u8]) -> (r: Result<Duration, DecodeError>)
        ensures
            match r {
                Ok(d) => decoded_temporal(buf@) == Ok::<(i64, i32), DecodeError>(
                    (d.seconds, d.nanos),
                ),
                Err(e) => decoded_temporal(buf@) == Err::<(i64, i32), DecodeError>(e),
            },
    {
        match decode_temporal(buf) {
            Ok((seconds, nanos)) => Ok(Duration { seconds, nanos }),
            Err(e) => Err(e),
        }
    }
}

impl Timestamp {
    /// The timestamp that a value of the host holds. Fails with
    /// `DowncastFailed` exactly where the value is no timestamp.
    pub fn extract_bound(ob: &Value) -> (r: Result<Timestamp, EncodeError>)
        ensures
            match r {
                Ok(t) => ob@ == ValueView::Timestamp(t),
                Err(e) => e == EncodeError::DowncastFailed && !(ob@ is Timestamp),
            },
    {
        match ob {
            Value::Timestamp(t) => Ok(*t),
            _ => Err(EncodeError::DowncastFailed),
        }
    }

    /// The bytes of this timestamp's message.
    pub fn encode_to_vec(&self) -> (r: Vec<u8>)
        ensures
            r@ == temporal_bytes(self.seconds, self.nanos),
    {
        temporal_to_vec(self.seconds, self.nanos)
    }

    /// The timestamp whose message the bytes are.
    pub fn decode(buf: &[u8]) -> (r: Result<Timestamp, DecodeError>)
        ensures
            match r {
                Ok(t) => decoded_temporal(buf@) == Ok::<(i64, i32), DecodeError>(
                    (t.seconds, t.nanos),
                ),
                Err(e) => decoded_temporal(buf@) == Err::<(i64, i32), DecodeError>(e),
            },
    {
        match decode_temporal(buf) {
            Ok((seconds, nanos)) => Ok(Timestamp { seconds, nanos }),
            Err(e) => Err(e),
        }
    }
}

/// A nullable boolean.
#[derive(Debug, PartialEq)]
pub struct BoolValue {
    pub value: bool,
}

impl BoolValue {
    /// The host's value of this scalar.
    pub fn to_object(&self) -> (r: Value)
        ensures
            r@ == ValueView::Bool(self.value),
    {
        Value::Bool(self.value)
    }

    /// The scalar that a value of the host holds. Fails with
    /// `DowncastFailed` exactly where the value is of another kind.
    pub fn extract_bound(ob: &Value) -> (r: Result<BoolValue, EncodeError>)
        ensures
            match r {
                Ok(w) => ob@ == ValueView::Bool(w.value),
                Err(e) => e == EncodeError::DowncastFailed && !(ob@ is Bool),
            },
    {
        match ob {
            Value::Bool(v) => Ok(BoolValue { value: *v }),
            _ => Err(EncodeError::DowncastFailed),
        }
    }

    /// The bytes of this scalar's message: the scalar under number 1, and
    /// nothing where it is zero.
    pub fn encode_to_vec(&self) -> (r: Vec<u8>)
        ensures
            r@ == wrapped_bytes(ValueView::Bool(self.value)),
    {
        let mut buf: Vec<u8> = Vec::new();
        write_plain_scalar(1, &self.to_object(), &mut buf);
        assert(buf@ =~= wrapped_bytes(ValueView::Bool(self.value)));
        buf
    }

    /// The scalar whose message the bytes are.
    pub fn decode(buf: &[u8]) -> (r: Result<BoolValue, DecodeError>)
        ensures
            match r {
                Ok(w) => decoded_wrapped(ScalarKind::Bool, buf@) == Ok::<ValueView, DecodeError>(
                    ValueView::Bool(w.value),
                ),
                Err(e) => decoded_wrapped(ScalarKind::Bool, buf@) == Err::<ValueView, DecodeError>(
                    e,
                ),
            },
    {
        match decode_wrapped(ScalarKind::Bool, buf) {
            Ok(Value::Bool(v)) => Ok(BoolValue { value: v }),
            Ok(_) => Err(DecodeError::InvalidData),
            Err(e) => Err(e),
        }
    }
}

/// A nullable sequence of bytes.
#[derive(Debug, PartialEq)]
pub struct BytesValue {
    pub value: Vec<u8>,
}

impl BytesValue {
    /// The host's value of this scalar.
    pub fn to_object(&self) -> (r: Value)
        ensures
            r@ == ValueView::Bytes(self.value@),
    {
        Value::Bytes(slice_to_vec(self.value.as_slice()))
    }

    /// The scalar that a value of the host holds. Fails with
    /// `DowncastFailed` exactly where the value is of another kind.
    pub fn extract_bound(ob: &Value) -> (r: Result<BytesValue, EncodeError>)
        ensures
            match r {
                Ok(w) => ob@ == ValueView::Bytes(w.value@),
                Err(e) => e == EncodeError::DowncastFailed && !(ob@ is Bytes),
            },
    {
        match ob {
            Value::Bytes(v) => Ok(BytesValue { value: slice_to_vec(v.as_slice()) }),
            _ => Err(EncodeError::DowncastFailed),
        }
    }

    /// The bytes of this scalar's message: the scalar under number 1, and
    /// nothing where it is zero.
    pub fn encode_to_vec(&self) -> (r: Vec<u8>)
        ensures
            r@ == wrapped_bytes(ValueView::Bytes(self.value@)),
    {
        let mut buf: Vec<u8> = Vec::new();
        write_plain_scalar(1, &self.to_object(), &mut buf);
        assert(buf@ =~= wrapped_bytes(ValueView::Bytes(self.value@)));
        buf
    }

    /// The scalar whose message the bytes are.
    pub fn decode(buf: &[u8]) -> (r: Result<BytesValue, DecodeError>)
        ensures
            match r {
                Ok(w) => decoded_wrapped(ScalarKind::Bytes, buf@) == Ok::<ValueView, DecodeError>(
                    ValueView::Bytes(w.value@),
                ),
                Err(e) => decoded_wrapped(ScalarKind::Bytes, buf@) == Err::<ValueView, DecodeError>(
                    e,
                ),
            },
    {
        match decode_wrapped(ScalarKind::Bytes, buf) {
            Ok(Value::Bytes(v)) => Ok(BytesValue { value: v }),
            Ok(_) => Err(DecodeError::InvalidData),
            Err(e) => Err(e),
        }
    }
}

/// A nullable double-precision number, held by its IEEE 754 bit pattern.
#[derive(Debug, PartialEq)]
pub struct DoubleValue {
    pub value: u64,
}

impl DoubleValue {
    /// The host's value of this scalar.
    pub fn to_object(&self) -> (r: Value)
        ensures
            r@ == ValueView::Double(self.value),
    {
        Value::Double(self.value)
    }

    /// The scalar that a value of the host holds. Fails with
    /// `DowncastFailed` exactly where the value is of another kind.
    pub fn extract_bound(ob: &Value) -> (r: Result<DoubleValue, EncodeError>)
        ensures
            match r {
                Ok(w) => ob@ == ValueView::Double(w.value),
                Err(e) => e == EncodeError::DowncastFailed && !(ob@ is Double),
            },
    {
        match ob {
            Value::Double(v) => Ok(DoubleValue { value: *v }),
            _ => Err(EncodeError::DowncastFailed),
        }
    }

    /// The bytes of this scalar's message: the scalar under number 1, and
    /// nothing where it is zero.
    pub fn encode_to_vec(&self) -> (r: Vec<u8>)
        ensures
            r@ == wrapped_bytes(ValueView::Double(self.value)),
    {
        let mut buf: Vec<u8> = Vec::new();
        write_plain_scalar(1, &self.to_object(), &mut buf);
        assert(buf@ =~= wrapped_bytes(ValueView::Double(self.value)));
        buf
    }

    /// The scalar whose message the bytes are.
    pub fn decode(buf: &[u8]) -> (r: Result<DoubleValue, DecodeError>)
        ensures
            match r {
                Ok(w) => decoded_wrapped(ScalarKind::Double, buf@) == Ok::<ValueView, DecodeError>(
                    ValueView::Double(w.value),
                ),
                Err(e) => decoded_wrapped(ScalarKind::Double, buf@) == Err::<ValueView, DecodeError>(
                    e,
                ),
            },
    {
        match decode_wrapped(ScalarKind::Double, buf) {
            Ok(Value::Double(v)) => Ok(DoubleValue { value: v }),
            Ok(_) => Err(DecodeError::InvalidData),
            Err(e) => Err(e),
        }
    }
}

/// A nullable single-precision number, held by its IEEE 754 bit pattern.
#[derive(Debug, PartialEq)]
pub struct FloatValue {
    pub value: u32,
}

impl FloatValue {
    /// The host's value of this scalar.
    pub fn to_object(&self) -> (r: Value)
        ensures
            r@ == ValueView::Float(self.value),
    {
        Value::Float(self.value)
    }

    /// The scalar that a value of the host holds. Fails with
    /// `DowncastFailed` exactly where the value is of another kind.
    pub fn extract_bound(ob: &Value) -> (r: Result<FloatValue, EncodeError>)
        ensures
            match r {
                Ok(w) => ob@ == ValueView::Float(w.value),
                Err(e) => e == EncodeError::DowncastFailed && !(ob@ is Float),
            },
    {
        match ob {
            Value::Float(v) => Ok(FloatValue { value: *v }),
            _ => Err(EncodeError::DowncastFailed),
        }
    }

    /// The bytes of this scalar's message: the scalar under number 1, and
    /// nothing where it is zero.
    pub fn encode_to_vec(&self) -> (r: Vec<u8>)
        ensures
            r@ == wrapped_bytes(ValueView::Float(self.value)),
    {
        let mut buf: Vec<u8> = Vec::new();
        write_plain_scalar(1, &self.to_object(), &mut buf);
        assert(buf@ =~= wrapped_bytes(ValueView::Float(self.value)));
        buf
    }

    /// The scalar whose message the bytes are.
    pub fn decode(buf: &[u8]) -> (r: Result<FloatValue, DecodeError>)
        ensures
            match r {
                Ok(w) => decoded_wrapped(ScalarKind::Float, buf@) == Ok::<ValueView, DecodeError>(
                    ValueView::Float(w.value),
                ),
                Err(e) => decoded_wrapped(ScalarKind::Float, buf@) == Err::<ValueView, DecodeError>(
                    e,
                ),
            },
    {
        match decode_wrapped(ScalarKind::Float, buf) {
            Ok(Value::Float(v)) => Ok(FloatValue { value: v }),
            Ok(_) => Err(DecodeError::InvalidData),
            Err(e) => Err(e),
        }
    }
}

/// A nullable 32-bit signed integer.
#[derive(Debug, PartialEq)]
pub struct Int32Value {
    pub value: i32,
}

impl Int32Value {
    /// The host's value of this scalar.
    pub fn to_object(&self) -> (r: Value)
        ensures
            r@ == ValueView::Int32(self.value),
    {
        Value::Int32(self.value)
    }

    /// The scalar that a value of the host holds. Fails with
    /// `DowncastFailed` exactly where the value is of another kind.
    pub fn extract_bound(ob: &Value) -> (r: Result<Int32Value, EncodeError>)
        ensures
            match r {
                Ok(w) => ob@ == ValueView::Int32(w.value),
                Err(e) => e == EncodeError::DowncastFailed && !(ob@ is Int32),
            },
    {
        match ob {
            Value::Int32(v) => Ok(Int32Value { value: *v }),
            _ => Err(EncodeError::DowncastFailed),
        }
    }

    /// The bytes of this scalar's message: the scalar under number 1, and
    /// nothing where it is zero.
    pub fn encode_to_vec(&self) -> (r: Vec<u8>)
        ensures
            r@ == wrapped_bytes(ValueView::Int32(self.value)),
    {
        let mut buf: Vec<u8> = Vec::new();
        write_plain_scalar(1, &self.to_object(), &mut buf);
        assert(buf@ =~= wrapped_bytes(ValueView::Int32(self.value)));
        buf
    }

    /// The scalar whose message the bytes are.
    pub fn decode(buf: &[u8]) -> (r: Result<Int32Value, DecodeError>)
        ensures
            match r {
                Ok(w) => decoded_wrapped(ScalarKind::Int32, buf@) == Ok::<ValueView, DecodeError>(
                    ValueView::Int32(w.value),
                ),
                Err(e) => decoded_wrapped(ScalarKind::Int32, buf@) == Err::<ValueView, DecodeError>(
                    e,
                ),
            },
    {
        match decode_wrapped(ScalarKind::Int32, buf) {
            Ok(Value::Int32(v)) => Ok(Int32Value { value: v }),
            Ok(_) => Err(DecodeError::InvalidData),
            Err(e) => Err(e),
        }
    }
}

/// A nullable 64-bit signed integer.
#[derive(Debug, PartialEq)]
pub struct Int64Value {
    pub value: i64,
}

impl Int64Value {
    /// The host's value of this scalar.
    pub fn to_object(&self) -> (r: Value)
        ensures
            r@ == ValueView::Int64(self.value),
    {
        Value::Int64(self.value)
    }

    /// The scalar that a value of the host holds. Fails with
    /// `DowncastFailed` exactly where the value is of another kind.
    pub fn extract_bound(ob: &Value) -> (r: Result<Int64Value, EncodeError>)
        ensures
            match r {
                Ok(w) => ob@ == ValueView::Int64(w.value),
                Err(e) => e == EncodeError::DowncastFailed && !(ob@ is Int64),
            },
    {
        match ob {
            Value::Int64(v) => Ok(Int64Value { value: *v }),
            _ => Err(EncodeError::DowncastFailed),
        }
    }

    /// The bytes of this scalar's message: the scalar under number 1, and
    /// nothing where it is zero.
    pub fn encode_to_vec(&self) -> (r: Vec<u8>)
        ensures
            r@ == wrapped_bytes(ValueView::Int64(self.value)),
    {
        let mut buf: Vec<u8> = Vec::new();
        write_plain_scalar(1, &self.to_object(), &mut buf);
        assert(buf@ =~= wrapped_bytes(ValueView::Int64(self.value)));
        buf
    }

    /// The scalar whose message the bytes are.
    pub fn decode(buf: &[u8]) -> (r: Result<Int64Value, DecodeError>)
        ensures
            match r {
                Ok(w) => decoded_wrapped(ScalarKind::Int64, buf@) == Ok::<ValueView, DecodeError>(
                    ValueView::Int64(w.value),
                ),
                Err(e) => decoded_wrapped(ScalarKind::Int64, buf@) == Err::<ValueView, DecodeError>(
                    e,
                ),
            },
    {
        match decode_wrapped(ScalarKind::Int64, buf) {
            Ok(Value::Int64(v)) => Ok(Int64Value { value: v }),
            Ok(_) => Err(DecodeError::InvalidData),
            Err(e) => Err(e),
        }
    }
}

/// A nullable 32-bit unsigned integer.
#[derive(Debug, PartialEq)]
pub struct UInt32Value {
    pub value: u32,
}

impl UInt32Value {
    /// The host's value of this scalar.
    pub fn to_object(&self) -> (r: Value)
        ensures
            r@ == ValueView::UInt32(self.value),
    {
        Value::UInt32(self.value)
    }

    /// The scalar that a value of the host holds. Fails with
    /// `DowncastFailed` exactly where the value is of another kind.
    pub fn extract_bound(ob: &Value) -> (r: Result<UInt32Value, EncodeError>)
        ensures
            match r {
                Ok(w) => ob@ == ValueView::UInt32(w.value),
                Err(e) => e == EncodeError::DowncastFailed && !(ob@ is UInt32),
            },
    {
        match ob {
            Value::UInt32(v) => Ok(UInt32Value { value: *v }),
            _ => Err(EncodeError::DowncastFailed),
        }
    }

    /// The bytes of this scalar's message: the scalar under number 1, and
    /// nothing where it is zero.
    pub fn encode_to_vec(&self) -> (r: Vec<u8>)
        ensures
            r@ == wrapped_bytes(ValueView::UInt32(self.value)),
    {
        let mut buf: Vec<u8> = Vec::new();
        write_plain_scalar(1, &self.to_object(), &mut buf);
        assert(buf@ =~= wrapped_bytes(ValueView::UInt32(self.value)));
        buf
    }

    /// The scalar whose message the bytes are.
    pub fn decode(buf: &[u8]) -> (r: Result<UInt32Value, DecodeError>)
        ensures
            match r {
                Ok(w) => decoded_wrapped(ScalarKind::UInt32, buf@) == Ok::<ValueView, DecodeError>(
                    ValueView::UInt32(w.value),
                ),
                Err(e) => decoded_wrapped(ScalarKind::UInt32, buf@) == Err::<ValueView, DecodeError>(
                    e,
                ),
            },
    {
        match decode_wrapped(ScalarKind::UInt32, buf) {
            Ok(Value::UInt32(v)) => Ok(UInt32Value { value: v }),
            Ok(_) => Err(DecodeError::InvalidData),
            Err(e) => Err(e),
        }
    }
}

/// A nullable 64-bit unsigned integer.
#[derive(Debug, PartialEq)]
pub struct UInt64Value {
    pub value: u64,
}

impl UInt64Value {
    /// The host's value of this scalar.
    pub fn to_object(&self) -> (r: Value)
        ensures
            r@ == ValueView::UInt64(self.value),
    {
        Value::UInt64(self.value)
    }

    /// The scalar that a value of the host holds. Fails with
    /// `DowncastFailed` exactly where the value is of another kind.
    pub fn extract_bound(ob: &Value) -> (r: Result<UInt64Value, EncodeError>)
        ensures
            match r {
                Ok(w) => ob@ == ValueView::UInt64(w.value),
                Err(e) => e == EncodeError::DowncastFailed && !(ob@ is UInt64),
            },
    {
        match ob {
            Value::UInt64(v) => Ok(UInt64Value { value: *v }),
            _ => Err(EncodeError::DowncastFailed),
        }
    }

    /// The bytes of this scalar's message: the scalar under number 1, and
    /// nothing where it is zero.
    pub fn encode_to_vec(&self) -> (r: Vec<u8>)
        ensures
            r@ == wrapped_bytes(ValueView::UInt64(self.value)),
    {
        let mut buf: Vec<u8> = Vec::new();
        write_plain_scalar(1, &self.to_object(), &mut buf);
        assert(buf@ =~= wrapped_bytes(ValueView::UInt64(self.value)));
        buf
    }

    /// The scalar whose message the bytes are.
    pub fn decode(buf: &[u8]) -> (r: Result<UInt64Value, DecodeError>)
        ensures
            match r {
                Ok(w) => decoded_wrapped(ScalarKind::UInt64, buf@) == Ok::<ValueView, DecodeError>(
                    ValueView::UInt64(w.value),
                ),
                Err(e) => decoded_wrapped(ScalarKind::UInt64, buf@) == Err::<ValueView, DecodeError>(
                    e,
                ),
            },
    {
        match decode_wrapped(ScalarKind::UInt64, buf) {
            Ok(Value::UInt64(v)) => Ok(UInt64Value { value: v }),
            Ok(_) => Err(DecodeError::InvalidData),
            Err(e) => Err(e),
        }
    }
}

/// A nullable string.
#[derive(Debug, PartialEq)]
pub struct StringValue {
    pub value: String,
}

impl StringValue {
    /// The host's value of this scalar.
    pub fn to_object(&self) -> (r: Value)
        ensures
            r@ == ValueView::Str(self.value@),
    {
        Value::Str(self.value.clone())
    }

    /// The scalar that a value of the host holds. Fails with
    /// `DowncastFailed` exactly where the value is of another kind.
    pub fn extract_bound(ob: &Value) -> (r: Result<StringValue, EncodeError>)
        ensures
            match r {
                Ok(w) => ob@ == ValueView::Str(w.value@),
                Err(e) => e == EncodeError::DowncastFailed && !(ob@ is Str),
            },
    {
        match ob {
            Value::Str(v) => Ok(StringValue { value: v.clone() }),
            _ => Err(EncodeError::DowncastFailed),
        }
    }

    /// The bytes of this scalar's message: the scalar under number 1, and
    /// nothing where it is zero.
    pub fn encode_to_vec(&self) -> (r: Vec<u8>)
        ensures
            r@ == wrapped_bytes(ValueView::Str(self.value@)),
    {
        let mut buf: Vec<u8> = Vec::new();
        write_plain_scalar(1, &self.to_object(), &mut buf);
        assert(buf@ =~= wrapped_bytes(ValueView::Str(self.value@)));
        buf
    }

    /// The scalar whose message the bytes are.
    pub fn decode(buf: &[u8]) -> (r: Result<StringValue, DecodeError>)
        ensures
            match r {
                Ok(w) => decoded_wrapped(ScalarKind::String, buf@) == Ok::<ValueView, DecodeError>(
                    ValueView::Str(w.value@),
                ),
                Err(e) => decoded_wrapped(ScalarKind::String, buf@) == Err::<ValueView, DecodeError>(
                    e,
                ),
            },
    {
        match decode_wrapped(ScalarKind::String, buf) {
            Ok(Value::Str(v)) => Ok(StringValue { value: v }),
            Ok(_) => Err(DecodeError::InvalidData),
            Err(e) => Err(e),
        }
    }
}

} // verus!
