//! Points in time.
use vstd::prelude::*;

verus! {

/// A point in time: seconds since the Unix epoch and the nanoseconds after that.
#[derive(Debug, Clone, Copy, PartialEq, Eq, Structural)]
pub struct Timestamp {
    pub seconds: i64,
    pub nanoseconds: u32,
}

impl Timestamp {
    /// Nanoseconds since the Unix epoch.
    pub open spec fn nanos(self) -> int {
        self.seconds * 1_000_000_000 + self.nanoseconds
    }

    /// Whether this point lies before `other`.
    pub open spec fn earlier(self, other: Timestamp) -> bool {
        self.seconds < other.seconds || (self.seconds == other.seconds && self.nanoseconds
            < other.nanoseconds)
    }

    pub fn is_earlier(&self, other: &Timestamp) -> (r: bool)
        ensures
            r == self.earlier(*other),
    {
        self.seconds < other.seconds || (self.seconds == other.seconds && self.nanoseconds
            < other.nanoseconds)
    }
}

/// How long the result of a check stays fresh, in whole seconds.
pub const FRESH_SECONDS: u64 = 60;

/// Whether a check has to be repeated: it never ran, or more whole seconds than a result stays
/// fresh have gone by since.
pub open spec fn is_stale(checked: Option<Timestamp>, now: Timestamp) -> bool {
    match checked {
        None => true,
        Some(at) => now.nanos() - at.nanos() >= (FRESH_SECONDS + 1) * 1_000_000_000,
    }
}

pub fn stale(checked: &Option<Timestamp>, now: &Timestamp) -> (r: bool)
    ensures
        r == is_stale(*checked, *now),
{
    match checked {
        None => true,
        Some(at) => {
            let elapsed: i128 = (now.seconds as i128 - at.seconds as i128) * 1_000_000_000
                + now.nanoseconds as i128 - at.nanoseconds as i128;
            elapsed >= 61_000_000_000
        },
    }
}

/// The current time, from `chrono::Utc::now`: it does not lie within a leap second. When it is, the
/// machine decides. The call panics where the system clock stands before the Unix epoch.
#[verifier::external_body]
pub(crate) fn utc_now() -> (r: Timestamp)
    ensures
        r.nanoseconds < 1_000_000_000,
{
    let now = chrono::Utc::now();
    Timestamp { seconds: now.timestamp(), nanoseconds: now.timestamp_subsec_nanos() }
}

/// The current time.
pub fn now() -> (r: Timestamp)
    ensures
        r.nanoseconds < 1_000_000_000,
{
    utc_now()
}

/// A point in time as `chrono` writes it by the pattern `%Y%m%d-%H%M%S`, in UTC; `None` for a
/// point that `chrono` cannot hold.
pub uninterp spec fn compact_utc(seconds: i64, nanoseconds: u32) -> Option<Seq<char>>;

/// The last second of the year 9999.
pub const LAST_SECOND: i64 = 253_402_300_799;

/// Whether a point in time lies between the Unix epoch and the end of the year 9999, outside a
/// leap second.
pub open spec fn is_ordinary(at: Timestamp) -> bool {
    0 <= at.seconds <= LAST_SECOND && at.nanoseconds < 1_000_000_000
}

/// Whether a text is eight digits, a hyphen and six digits.
pub open spec fn is_compact(text: Seq<char>) -> bool {
    &&& text.len() == 15
    &&& text[8] == '-'
    &&& forall|i: int|
        0 <= i < 15 && i != 8 ==> crate::text::is_ascii_digit(#[trigger] text[i])
}

/// `DateTime::from_timestamp` of `chrono`, then `format` with `%Y%m%d-%H%M%S`: the date and the
/// time of day in UTC. The text depends on nothing but the point in time. Up to the year 9999 the
/// year is written with four digits and no sign, and the other numbers always with two.
#[verifier::external_body]
pub(crate) fn compact_text(at: &Timestamp) -> (r: Option<String>)
    ensures
        crate::text::opt_text(r) == compact_utc(at.seconds, at.nanoseconds),
        is_ordinary(*at) ==> r is Some && is_compact(r->Some_0@),
{
    let point = chrono::DateTime::from_timestamp(at.seconds, at.nanoseconds)?;
    Some(point.format("%Y%m%d-%H%M%S").to_string())
}

} // verus!
