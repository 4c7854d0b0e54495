//! Instants as the store keeps them: microseconds, with the two infinities
//! that the store's timestamps can hold.

use chrono::{NaiveDateTime, Utc};
use tokio_postgres::types::{FromSql, Type};
use vstd::prelude::*;

verus! {

/// Microseconds from the Unix epoch to the epoch of the wire format,
/// 2000-01-01T00:00:00Z.
pub const WIRE_EPOCH_MICROS: i64 = 946_684_800_000_000i64;

/// The instant that stands for "never": later than every other instant.
pub const INFINITY_MICROS: i64 = 0x7fff_ffff_ffff_ffffi64;

/// The instant that stands for "always in the past".
pub const NEG_INFINITY_MICROS: i64 = -0x8000_0000_0000_0000i64;

/// The least instant that the calendar holds: the first microsecond of the
/// year -262143.
pub const CALENDAR_MIN_MICROS: i64 = -8_334_601_228_800_000_000i64;

/// The greatest instant that the calendar holds: the last microsecond of
/// the year 262142.
pub const CALENDAR_MAX_MICROS: i64 = 8_210_266_876_799_999_999i64;

/// An instant in microseconds since the Unix epoch. The largest value is
/// positive infinity, the smallest negative infinity.
#[derive(Debug, Clone, Copy, PartialEq, Eq, Structural)]
pub struct DateTimePlus(pub i64);

/// Why eight bytes of the store could not be read as an instant.
#[derive(Debug, Clone, Copy, PartialEq, Eq, Structural)]
pub enum TimestampError {
    /// The value is not exactly eight bytes long.
    InvalidLength,
    /// The instant lies outside the calendar's range.
    TooLarge,
}

/// The big-endian two's-complement integer that eight bytes spell.
pub open spec fn wire_value(raw: Seq<u8>) -> int
    recommends
        raw.len() == 8,
{
    let magnitude = raw[0] * 0x100_0000_0000_0000 + raw[1] * 0x1_0000_0000_0000 + raw[2]
        * 0x100_0000_0000 + raw[3] * 0x1_0000_0000 + raw[4] * 0x100_0000 + raw[5] * 0x1_0000
        + raw[6] * 0x100 + raw[7];
    if raw[0] >= 128 {
        magnitude - 0x1_0000_0000_0000_0000
    } else {
        magnitude
    }
}

/// What the calendar makes of a raw timestamp, in microseconds since the
/// Unix epoch: eight bytes stand for the instant that lies their value in
/// microseconds after 2000-01-01T00:00:00, if the calendar holds that
/// instant; nothing else stands for an instant.
pub open spec fn decoded_timestamp(raw: Seq<u8>) -> Option<i64> {
    let micros = wire_value(raw) + WIRE_EPOCH_MICROS;
    if raw.len() == 8 && CALENDAR_MIN_MICROS <= micros <= CALENDAR_MAX_MICROS {
        Some(micros as i64)
    } else {
        None
    }
}

/// Calls `NaiveDateTime::from_sql` of `tokio_postgres::types` and hands the
/// instant back in microseconds since the Unix epoch. Trusted: the call
/// succeeds exactly on eight bytes whose instant, their value in
/// microseconds after 2000-01-01T00:00:00, lies between the first instant
/// of the year -262143 and the last of the year 262142, and returns that
/// instant.
#[verifier::external_body]
fn decode_timestamp(raw: &[u8]) -> (r: Option<i64>)
    ensures
        r == decoded_timestamp(raw@),
{
    match NaiveDateTime::from_sql(&Type::TIMESTAMPTZ, raw) {
        Ok(t) => Some(t.and_utc().timestamp_micros()),
        Err(_) => None,
    }
}

/// Calls `Utc::now` of chrono and hands the instant back in microseconds
/// since the Unix epoch. Trusted; nothing is claimed of the clock's value.
#[verifier::external_body]
fn clock_micros() -> i64 {
    Utc::now().timestamp_micros()
}

/// Whether the bytes spell the given infinity of the wire format.
pub open spec fn spells(raw: Seq<u8>, first: u8, rest: u8) -> bool {
    &&& raw.len() == 8
    &&& raw[0] == first
    &&& forall|i: int| 1 <= i < 8 ==> raw[i] == rest
}

/// What a raw timestamp of the store stands for, given what the calendar
/// makes of its finite values.
pub open spec fn instant_of(raw: Seq<u8>, finite: Option<i64>) -> Result<
    DateTimePlus,
    TimestampError,
> {
    if raw.len() != 8 {
        Err(TimestampError::InvalidLength)
    } else if spells(raw, 128, 0) {
        Ok(DateTimePlus(NEG_INFINITY_MICROS))
    } else if spells(raw, 127, 255) {
        Ok(DateTimePlus(INFINITY_MICROS))
    } else {
        match finite {
            Some(v) => Ok(DateTimePlus(v)),
            None => Err(TimestampError::TooLarge),
        }
    }
}

fn has_pattern(raw: &[u8], first: u8, rest: u8) -> (b: bool)
    ensures
        b == spells(raw@, first, rest),
{
    if raw.len() != 8 || raw[0] != first {
        return false;
    }
    let mut i: usize = 1;
    while i < 8
        invariant
            1 <= i <= 8,
            raw@.len() == 8,
            forall|j: int| 1 <= j < i ==> raw@[j] == rest,
        decreases 8 - i,
    {
        if raw[i] != rest {
            return false;
        }
        i += 1;
    }
    true
}

impl DateTimePlus {
    /// The instant after which nothing comes: a license that expires then
    /// never expires.
    pub fn infinity() -> (t: DateTimePlus)
        ensures
            t == DateTimePlus(INFINITY_MICROS),
            t.is_infinity(),
    {
        DateTimePlus(INFINITY_MICROS)
    }

    /// Whether this is positive infinity.
    pub open spec fn is_infinity(self) -> bool {
        self.0 == INFINITY_MICROS
    }

    /// Whether this instant lies strictly before `other`.
    pub open spec fn before(self, other: DateTimePlus) -> bool {
        self.0 < other.0
    }

    /// Whether this instant lies strictly before `other`.
    pub fn is_before(&self, other: &DateTimePlus) -> (b: bool)
        ensures
            b == self.before(*other),
    {
        self.0 < other.0
    }

    /// The instant for a finite value that the calendar has decoded: the
    /// value itself, or `TooLarge` where the calendar could not hold it.
    pub fn from_finite(finite: Option<i64>) -> (r: Result<DateTimePlus, TimestampError>)
        ensures
            r == match finite {
                Some(v) => Ok::<DateTimePlus, TimestampError>(DateTimePlus(v)),
                None => Err(TimestampError::TooLarge),
            },
    {
        match finite {
            Some(v) => Ok(DateTimePlus(v)),
            None => Err(TimestampError::TooLarge),
        }
    }

    /// Reads an instant from the eight bytes in which the store sends a
    /// timestamp. The least value is negative infinity and the greatest is
    /// positive infinity; any other is handed to the calendar, and lies the
    /// wire value in microseconds after 2000-01-01T00:00:00Z, or is
    /// `TooLarge` where the calendar does not hold that instant.
    pub fn from_sql(raw: &[u8]) -> (r: Result<DateTimePlus, TimestampError>)
        ensures
            r == instant_of(raw@, decoded_timestamp(raw@)),
            raw@.len() != 8 <==> r == Err::<DateTimePlus, TimestampError>(
                TimestampError::InvalidLength,
            ),
            r matches Ok(t) ==> t.0 == if spells(raw@, 128, 0) {
                NEG_INFINITY_MICROS as int
            } else if spells(raw@, 127, 255) {
                INFINITY_MICROS as int
            } else {
                wire_value(raw@) + WIRE_EPOCH_MICROS
            },
            r is Ok <==> raw@.len() == 8 && (spells(raw@, 128, 0) || spells(raw@, 127, 255)
                || CALENDAR_MIN_MICROS <= wire_value(raw@) + WIRE_EPOCH_MICROS
                <= CALENDAR_MAX_MICROS),
    {
        if raw.len() != 8 {
            Err(TimestampError::InvalidLength)
        } else if has_pattern(raw, 128, 0) {
            Ok(DateTimePlus(NEG_INFINITY_MICROS))
        } else if has_pattern(raw, 127, 255) {
            Ok(DateTimePlus(INFINITY_MICROS))
        } else {
            DateTimePlus::from_finite(decode_timestamp(raw))
        }
    }

    /// The current instant by the system clock. Whatever the clock says, the
    /// result is an instant that positive infinity is not before.
    pub fn now() -> (t: DateTimePlus)
        ensures
            !DateTimePlus(INFINITY_MICROS).before(t),
    {
        DateTimePlus(clock_micros())
    }
}

/// The least wire value is spelt by 128 and seven zero bytes and by nothing
/// else, and the greatest by 127 and seven bytes of 255 and by nothing else.
pub proof fn lemma_extreme_wire_values(raw: Seq<u8>)
    requires
        raw.len() == 8,
    ensures
        -0x8000_0000_0000_0000 <= wire_value(raw) <= 0x7fff_ffff_ffff_ffff,
        spells(raw, 128, 0) <==> wire_value(raw) == -0x8000_0000_0000_0000,
        spells(raw, 127, 255) <==> wire_value(raw) == 0x7fff_ffff_ffff_ffff,
{
    if spells(raw, 128, 0) {
        assert(raw[1] == 0 && raw[2] == 0 && raw[3] == 0 && raw[4] == 0 && raw[5] == 0 && raw[6]
            == 0 && raw[7] == 0);
    }
    if spells(raw, 127, 255) {
        assert(raw[1] == 255 && raw[2] == 255 && raw[3] == 255 && raw[4] == 255 && raw[5] == 255
            && raw[6] == 255 && raw[7] == 255);
    }
}

/// Decoding keeps the order of instants: of two raw timestamps that both
/// stand for an instant, the one with the smaller wire value stands for the
/// earlier instant, or for the same. Negative infinity is the least of all
/// and positive infinity the greatest.
pub proof fn law_decoding_keeps_the_order(a: Seq<u8>, b: Seq<u8>)
    requires
        a.len() == 8,
        b.len() == 8,
        wire_value(a) <= wire_value(b),
        instant_of(a, decoded_timestamp(a)) is Ok,
        instant_of(b, decoded_timestamp(b)) is Ok,
    ensures
        instant_of(a, decoded_timestamp(a))->Ok_0.0 <= instant_of(
            b,
            decoded_timestamp(b),
        )->Ok_0.0,
        instant_of(a, decoded_timestamp(a))->Ok_0.0 == NEG_INFINITY_MICROS <==> spells(a, 128, 0),
        instant_of(a, decoded_timestamp(a))->Ok_0.0 == INFINITY_MICROS <==> spells(a, 127, 255),
{
    lemma_extreme_wire_values(a);
    lemma_extreme_wire_values(b);
}

} // verus!
