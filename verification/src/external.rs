//! Calls into the `uuid` and `chrono` crates and into `std::time`, with
//! what the library takes as given about them.
use vstd::prelude::*;

verus! {

/// What `uuid::Uuid::parse_str` yields for a text, as the 128-bit value of
/// the identifier (`Uuid::as_u128`), or `None` where it reports an error.
pub uninterp spec fn uuid_parse(text: Seq<char>) -> Option<u128>;

/// Calls `uuid::Uuid::parse_str`.  Claimed: the result is `uuid_parse` of
/// the text; nothing is claimed of which texts parse.
#[verifier::external_body]
pub(crate) fn parse_uuid(text: &str) -> (r: Option<u128>)
    ensures
        r == uuid_parse(text@),
{
    match uuid::Uuid::parse_str(text) {
        Ok(id) => Some(id.as_u128()),
        Err(_) => None,
    }
}

/// Calls `uuid::Uuid::new_v4`.  The value is random; claimed only what its
/// source sets on every outcome: the version nibble is 4 and the two top
/// bits of the variant byte are `10`.
#[verifier::external_body]
pub(crate) fn random_uuid() -> (r: u128)
    ensures
        r & 0xF000_C000_0000_0000_0000u128 == 0x4000_8000_0000_0000_0000u128,
{
    uuid::Uuid::new_v4().as_u128()
}

/// The lowercase hexadecimal digit for a value below 16.
pub open spec fn hex_digit(n: u128) -> char {
    if n < 10 {
        (48 + n) as char
    } else {
        (87 + n) as char
    }
}

/// The 32 hexadecimal digits of a 128-bit value, most significant first.
pub open spec fn hex_digits(id: u128) -> Seq<char> {
    Seq::new(32, |i: int| hex_digit((id >> ((124 - 4 * i) as u32)) & 0xFu128))
}

/// The hyphenated form of a UUID: its digits in groups of 8, 4, 4, 4 and 12.
pub open spec fn hyphenated(id: u128) -> Seq<char> {
    let h = hex_digits(id);
    h.subrange(0, 8) + seq!['-'] + h.subrange(8, 12) + seq!['-'] + h.subrange(12, 16) + seq!['-']
        + h.subrange(16, 20) + seq!['-'] + h.subrange(20, 32)
}

/// Calls `to_string` on `uuid::Uuid::from_u128(id)`.  Claimed: the text is
/// the lowercase hyphenated form of the big-endian value, 36 characters
/// long, and `uuid::Uuid::parse_str` reads it back as `id`, as the crate
/// documents for the formats that it generates.
#[verifier::external_body]
pub(crate) fn uuid_text(id: u128) -> (s: String)
    ensures
        s@ == hyphenated(id),
        s@.len() == 36,
        uuid_parse(s@) == Some(id),
{
    uuid::Uuid::from_u128(id).to_string()
}

/// The readings of the system clock taken through a holder, oldest first.
/// It is a record for proofs alone and holds nothing at run time.
pub struct ClockLog {
    pub readings: Ghost<Seq<i64>>,
}

impl ClockLog {
    /// A log of no readings.
    pub fn new() -> (log: Self)
        ensures
            log.readings@ == Seq::<i64>::empty(),
    {
        ClockLog { readings: Ghost(Seq::empty()) }
    }
}

/// Calls `chrono::Utc::now().timestamp()`, the current time in seconds
/// since the Unix epoch.  The value depends on the clock, so nothing is
/// claimed of it; the contract only enters it in `log` as the newest
/// reading, which is what the log records.
#[verifier::external_body]
#[allow(unused_variables)]
pub(crate) fn unix_now(log: &mut ClockLog) -> (r: i64)
    ensures
        final(log).readings@ == old(log).readings@.push(r),
{
    chrono::Utc::now().timestamp()
}

/// What `std::time::Duration::from_secs` yields for a number of seconds.
pub uninterp spec fn duration_of_secs(secs: u64) -> std::time::Duration;

/// Calls `std::time::Duration::from_secs`.  Claimed: the result is
/// `duration_of_secs` of the argument.
#[verifier::external_body]
pub(crate) fn seconds(secs: u64) -> (d: std::time::Duration)
    ensures
        d == duration_of_secs(secs),
{
    std::time::Duration::from_secs(secs)
}

/// Specifies `Clone::clone` on `std::time::Duration`, a `Copy` type: the
/// clone is the same value.
pub assume_specification[ <std::time::Duration as Clone>::clone ](d: &std::time::Duration) -> (r: std::time::Duration)
    ensures
        r == *d,
;

} // verus!
