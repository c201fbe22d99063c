//! The timestamp normalizer: an instant (seconds since the Unix epoch) is
//! resolved against a UTC offset — the process's configured timezone for
//! `convert`, UTC itself for `convert_utc` — and serialized as an RFC 3339
//! timestamp that denotes exactly that instant. Instants whose local calendar
//! year would fall outside 0 through 9999 have no representation in the
//! profile and yield the sentinel outcome.

use crate::calendar::{
    day_index, lemma_calendar_anchors, lemma_civil_unique, valid_civil, TOTAL_DAYS,
};
use crate::rfc3339::{render_stamp, rfc3339_denotes, stamp_seq};
use vstd::string::StringExecFns;
use vstd::prelude::*;

verus! {

/// The three-way outcome of a conversion: one unambiguous local timestamp, no
/// valid local representation, or two candidate local times with no choice
/// made between them.
#[derive(Debug, PartialEq, Eq)]
pub enum LocalConversionResult {
    Single(String),
    Gap,
    Ambiguous,
}

/// Smallest instant the profile can represent under any offset: the first
/// instant whose local time stays at or after 0000-01-01 even a whole day
/// east of UTC.
pub const MIN_SUPPORTED: i64 = -62167132800;

/// Largest instant the profile can represent under any offset.
pub const MAX_SUPPORTED: i64 = 253402214399;

/// Seconds from 0000-01-01T00:00:00 to the Unix epoch.
pub const CIVIL_EPOCH_SHIFT: i64 = 62167219200;

pub open spec fn in_supported_range(n: int) -> bool {
    MIN_SUPPORTED <= n <= MAX_SUPPORTED
}

/// The string a conversion outcome is serialized to.
pub open spec fn result_text(r: LocalConversionResult) -> Seq<char> {
    match r {
        LocalConversionResult::Single(s) => s@,
        LocalConversionResult::Gap => "none"@,
        LocalConversionResult::Ambiguous => "ambiguous"@,
    }
}

/// A raw UTC offset rounded to whole minutes, half a minute rounding away
/// from zero toward the offset's sign.
pub open spec fn rounded_offset(off: int) -> int {
    if off < 0 {
        -((((-off) + 30) / 60) * 60)
    } else {
        ((off + 30) / 60) * 60
    }
}

pub open spec fn offset_magnitude(off: int) -> int {
    if rounded_offset(off) < 0 {
        -rounded_offset(off)
    } else {
        rounded_offset(off)
    }
}

/// The hour digits of the serialized offset.
pub open spec fn offset_hours(off: int) -> int {
    offset_magnitude(off) / 3600
}

/// The minute digits of the serialized offset.
pub open spec fn offset_minutes(off: int) -> int {
    offset_magnitude(off) % 3600 / 60
}

/// The exact stamp the normalizer emits for instant `n` under the raw UTC
/// offset `off`, named through its civil date `(y, m, d)`.
pub open spec fn emitted_stamp_at(
    n: int,
    off: int,
    s: Seq<char>,
    y: int,
    m: int,
    d: int,
) -> bool {
    let shifted = n + rounded_offset(off) + CIVIL_EPOCH_SHIFT as int;
    &&& valid_civil(y, m, d)
    &&& day_index(y, m, d) == shifted / 86400
    &&& s == stamp_seq(
        y,
        m,
        d,
        shifted % 86400 / 3600,
        shifted % 86400 % 3600 / 60,
        shifted % 86400 % 3600 % 60,
        off < 0,
        offset_hours(off),
        offset_minutes(off),
    )
}

/// `s` is the stamp the normalizer emits for instant `n` under offset `off`.
pub open spec fn emitted_stamp(n: int, off: int, s: Seq<char>) -> bool {
    exists|y: int, m: int, d: int| emitted_stamp_at(n, off, s, y, m, d)
}

/// Splitting `rmin` whole minutes into hour and minute digits is exact.
proof fn lemma_offset_split(rmin: int)
    requires
        0 <= rmin <= 1440,
    ensures
        ({
            let a = rmin * 60;
            &&& 0 <= a / 3600 <= 24
            &&& 0 <= a % 3600 / 60 <= 59
            &&& (a / 3600 == 24 ==> a % 3600 / 60 == 0)
            &&& (a / 3600) * 3600 + (a % 3600 / 60) * 60 == a
        }),
{
    let a = rmin * 60;
    vstd::arithmetic::div_mod::lemma_fundamental_div_mod(a, 3600);
    vstd::arithmetic::div_mod::lemma_fundamental_div_mod_converse(
        a % 3600,
        60,
        rmin - 60 * (a / 3600),
        0,
    );
}

/// The rounded offset of a raw offset within a day splits into in-range hour
/// and minute digits that together restore it.
proof fn lemma_offset_decomposition(off: int)
    requires
        -86400 < off < 86400,
    ensures
        0 <= offset_hours(off) <= 24,
        0 <= offset_minutes(off) <= 59,
        offset_hours(off) == 24 ==> offset_minutes(off) == 0,
        (if off < 0 {
            -1int
        } else {
            1int
        }) * (offset_hours(off) * 3600 + offset_minutes(off) * 60) == rounded_offset(off),
        -86400 <= rounded_offset(off) <= 86400,
{
    let a0 = if off < 0 {
        -off
    } else {
        off
    };
    let rmin = (a0 + 30) / 60;
    vstd::arithmetic::div_mod::lemma_fundamental_div_mod(a0 + 30, 60);
    lemma_offset_split(rmin);
    if off < 0 {
        assert(rounded_offset(off) == -(rmin * 60));
    } else {
        assert(rounded_offset(off) == rmin * 60);
    }
    assert(offset_magnitude(off) == rmin * 60);
    assert(offset_hours(off) * 3600 + offset_minutes(off) * 60 == rmin * 60);
    if off < 0 {
        assert((-1int) * (offset_hours(off) * 3600 + offset_minutes(off) * 60)
            == rounded_offset(off));
    } else {
        assert((1int) * (offset_hours(off) * 3600 + offset_minutes(off) * 60)
            == rounded_offset(off));
    }
}

/// Round trip: the stamp emitted for instant `n` denotes `n` itself, so
/// parsing it back under the profile recovers the instant exactly.
pub proof fn lemma_emitted_denotes(n: int, off: int, s: Seq<char>)
    requires
        -86400 < off < 86400,
        in_supported_range(n),
        emitted_stamp(n, off, s),
    ensures
        rfc3339_denotes(s) == Some(n),
{
    let (y, m, d) = choose|y: int, m: int, d: int| emitted_stamp_at(n, off, s, y, m, d);
    let shifted = n + rounded_offset(off) + CIVIL_EPOCH_SHIFT as int;
    let tod = shifted % 86400;
    lemma_offset_decomposition(off);
    vstd::arithmetic::div_mod::lemma_fundamental_div_mod(shifted, 86400);
    vstd::arithmetic::div_mod::lemma_fundamental_div_mod(tod, 3600);
    vstd::arithmetic::div_mod::lemma_fundamental_div_mod(tod % 3600, 60);
    crate::rfc3339::lemma_stamp_seq_denotes(
        y,
        m,
        d,
        tod / 3600,
        tod % 3600 / 60,
        tod % 3600 % 60,
        off < 0,
        offset_hours(off),
        offset_minutes(off),
    );
}

/// Determinism: for one instant and one raw offset there is only one stamp
/// the normalizer can emit.
pub proof fn lemma_emitted_stamp_unique(n: int, off: int, s1: Seq<char>, s2: Seq<char>)
    requires
        emitted_stamp(n, off, s1),
        emitted_stamp(n, off, s2),
    ensures
        s1 == s2,
{
    let (y1, m1, d1) = choose|y: int, m: int, d: int| emitted_stamp_at(n, off, s1, y, m, d);
    let (y2, m2, d2) = choose|y: int, m: int, d: int| emitted_stamp_at(n, off, s2, y, m, d);
    lemma_civil_unique(y1, m1, d1, y2, m2, d2);
}

/// Relies on chrono: `TimeZone::timestamp_opt` on `Local` resolves an instant
/// against the process's timezone database, and `Offset::fix` with
/// `FixedOffset::local_minus_utc` reads the resolved offset in seconds.
/// chrono builds every `FixedOffset` strictly between -86400 and 86400
/// seconds; within the supported range the resolution is always a single
/// datetime, so the unwrap cannot panic. The value depends on the process's
/// timezone configuration, so nothing more is stated of it.
#[verifier::external_body]
fn system_local_offset(secs: i64) -> (off: i32)
    requires
        in_supported_range(secs as int),
    ensures
        -86400 < off < 86400,
{
    let resolved = chrono::TimeZone::timestamp_opt(&chrono::Local, secs, 0).unwrap();
    chrono::Offset::fix(resolved.offset()).local_minus_utc()
}

/// Round a raw offset to whole minutes and split it into the sign, the hour
/// and minute digits, and the rounded value itself.
fn offset_fields(off: i32) -> (r: (bool, u64, u64, i64))
    requires
        -86400 < off < 86400,
    ensures
        r.0 == (off < 0),
        r.1 as int == offset_hours(off as int),
        r.2 as int == offset_minutes(off as int),
        r.3 as int == rounded_offset(off as int),
        r.1 <= 24,
        r.2 <= 59,
        -86400 <= r.3 <= 86400,
{
    proof {
        lemma_offset_decomposition(off as int);
    }
    let neg = off < 0;
    let absu: u64 = if neg {
        (-(off as i64)) as u64
    } else {
        off as u64
    };
    let rmin: u64 = (absu + 30) / 60;
    let rsec: u64 = rmin * 60;
    let r60: i64 = if neg {
        -(rsec as i64)
    } else {
        rsec as i64
    };
    let oh: u64 = rsec / 3600;
    let om: u64 = (rsec % 3600) / 60;
    (neg, oh, om, r60)
}

/// Convert an instant under an explicit raw UTC offset in seconds.
pub fn convert_with_offset(instant: i64, offset_seconds: i32) -> (r: LocalConversionResult)
    requires
        -86400 < offset_seconds < 86400,
    ensures
        in_supported_range(instant as int) ==> (r matches LocalConversionResult::Single(s)
            && emitted_stamp(instant as int, offset_seconds as int, s@) && rfc3339_denotes(s@)
            == Some(instant as int)),
        !in_supported_range(instant as int) ==> r is Gap,
{
    if instant < MIN_SUPPORTED || instant > MAX_SUPPORTED {
        return LocalConversionResult::Gap;
    }
    let (neg, oh, om, r60) = offset_fields(offset_seconds);
    let shifted: i64 = instant + r60 + CIVIL_EPOCH_SHIFT;
    let su: u64 = shifted as u64;
    proof {
        lemma_calendar_anchors();
        vstd::arithmetic::div_mod::lemma_fundamental_div_mod(su as int, 86400);
        vstd::arithmetic::div_mod::lemma_fundamental_div_mod(su as int % 86400, 3600);
        vstd::arithmetic::div_mod::lemma_fundamental_div_mod(su as int % 86400 % 3600, 60);
        assert(su / 86400 < TOTAL_DAYS);
    }
    let dn: u64 = su / 86400;
    let tod: u64 = su % 86400;
    let (y, m, d) = crate::calendar::civil_from_day_index(dn);
    let hh: u64 = tod / 3600;
    let rem: u64 = tod % 3600;
    let mi: u64 = rem / 60;
    let ss: u64 = rem % 60;
    let out = render_stamp(y, m, d, hh, mi, ss, neg, oh, om);
    proof {
        let n = instant as int;
        let off = offset_seconds as int;
        assert(emitted_stamp_at(n, off, out@, y as int, m as int, d as int));
        lemma_emitted_denotes(n, off, out@);
    }
    LocalConversionResult::Single(out)
}

/// Convert an instant against the process's configured local timezone: the
/// contract of the normalizer. Every supported instant resolves to a single
/// timestamp denoting exactly that instant; unsupported instants yield the
/// gap sentinel. The timestamp's offset comes from the timezone database, so
/// the exact text is not pinned here.
pub fn convert(instant: i64) -> (r: LocalConversionResult)
    ensures
        in_supported_range(instant as int) ==> (r matches LocalConversionResult::Single(s)
            && rfc3339_denotes(s@) == Some(instant as int)),
        !in_supported_range(instant as int) ==> r is Gap,
{
    if instant < MIN_SUPPORTED || instant > MAX_SUPPORTED {
        return LocalConversionResult::Gap;
    }
    let off = system_local_offset(instant);
    convert_with_offset(instant, off)
}

/// Convert an instant in the UTC zone: offset zero, exact text pinned by
/// `emitted_stamp`, hence deterministic.
pub fn convert_utc(instant: i64) -> (r: LocalConversionResult)
    ensures
        in_supported_range(instant as int) ==> (r matches LocalConversionResult::Single(s)
            && emitted_stamp(instant as int, 0, s@) && rfc3339_denotes(s@) == Some(
            instant as int,
        )),
        !in_supported_range(instant as int) ==> r is Gap,
{
    convert_with_offset(instant, 0)
}

/// Serialize a conversion outcome: the timestamp itself, `"none"` for the
/// gap sentinel, `"ambiguous"` for the ambiguous sentinel.
pub fn render_result(r: &LocalConversionResult) -> (t: String)
    ensures
        t@ == result_text(*r),
{
    match r {
        LocalConversionResult::Single(s) => s.clone(),
        LocalConversionResult::Gap => String::from_str("none"),
        LocalConversionResult::Ambiguous => String::from_str("ambiguous"),
    }
}

/// Convert an instant in the local zone and serialize the outcome.
pub fn unix_to_local(unix: i64) -> (r: String)
    ensures
        in_supported_range(unix as int) ==> rfc3339_denotes(r@) == Some(unix as int),
        !in_supported_range(unix as int) ==> r@ == "none"@,
{
    let c = convert(unix);
    render_result(&c)
}

/// Convert an instant in the UTC zone and serialize the outcome.
pub fn unix_to_local_utc(unix: i64) -> (r: String)
    ensures
        in_supported_range(unix as int) ==> emitted_stamp(unix as int, 0, r@)
            && rfc3339_denotes(r@) == Some(unix as int),
        !in_supported_range(unix as int) ==> r@ == "none"@,
{
    let c = convert_utc(unix);
    render_result(&c)
}

} // verus!
