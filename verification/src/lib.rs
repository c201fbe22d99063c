//! A small native-extension core: integer addition, conversion of Unix
//! timestamps to local-zoned RFC 3339 strings with a three-way outcome,
//! and an opaque value passthrough.
//!
//! The timestamp normalizer is the heart of the crate: `normalize::convert`
//! resolves an instant (seconds since the Unix epoch) against the process's
//! timezone configuration and yields either a single RFC 3339 timestamp that
//! denotes exactly that instant, or a sentinel. The calendar arithmetic and
//! the serialization are verified; only the timezone-database lookup is
//! trusted.

use vstd::prelude::*;

pub mod calendar;
pub mod normalize;
pub mod rfc3339;

verus! {

/// Integer addition over signed 64-bit values; the sum must be representable.
pub fn add(a: i64, b: i64) -> (r: i64)
    requires
        i64::MIN <= a as int + b as int <= i64::MAX,
    ensures
        r as int == a as int + b as int,
{
    a + b
}

/// Returns its argument unchanged: the value round trip of the host bridge.
pub fn passthrough<T>(value: T) -> (r: T)
    ensures
        r == value,
{
    value
}

} // verus!
