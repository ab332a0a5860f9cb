//! Wall-clock time and fresh identifiers. Both depend on the machine, so
//! their contracts promise nothing about the values returned; reading them
//! never panics.

use vstd::prelude::*;
use vstd::string::StringExecFns;
use crate::crypto::primitives::random_bytes;

verus! {

/// `SystemTime::now().duration_since(UNIX_EPOCH)` in nanoseconds: the time
/// since the epoch, or, when the clock reads earlier, how long before it
/// (`SystemTimeError::duration`). The value depends on the clock; nothing
/// is claimed of it.
#[verifier::external_body]
fn clock_nanos() -> (r: Result<u128, u128>) {
    match std::time::SystemTime::now().duration_since(std::time::UNIX_EPOCH) {
        Ok(d) => Ok(d.as_nanos()),
        Err(e) => Err(e.duration().as_nanos()),
    }
}

/// Nanoseconds since the Unix epoch, negative before it; zero when the
/// count does not fit in an `i64`.
pub(crate) fn now_nanos() -> (t: i64) {
    match clock_nanos() {
        Ok(n) => {
            if n <= 9_223_372_036_854_775_807u128 {
                n as i64
            } else {
                0
            }
        },
        Err(b) => {
            if b <= 9_223_372_036_854_775_807u128 {
                -(b as i64)
            } else {
                0
            }
        },
    }
}

/// Milliseconds since the Unix epoch, rounded down (so negative before
/// it), held within the range of an `i64`.
pub(crate) fn now_millis() -> (t: i64) {
    match clock_nanos() {
        Ok(n) => {
            let ms = n / 1_000_000;
            if ms <= 9_223_372_036_854_775_807u128 {
                ms as i64
            } else {
                9_223_372_036_854_775_807i64
            }
        },
        Err(b) => {
            let whole = b / 1_000_000;
            let ms = if b % 1_000_000 == 0 {
                whole
            } else {
                whole + 1
            };
            if ms <= 9_223_372_036_854_775_807u128 {
                -(ms as i64)
            } else {
                -9_223_372_036_854_775_807i64
            }
        },
    }
}

/// The number that bytes stand for, most significant first.
pub open spec fn big_endian_value(b: Seq<u8>) -> nat
    decreases b.len(),
{
    if b.len() == 0 {
        0
    } else {
        big_endian_value(b.drop_last()) * 256 + (b.last() as nat)
    }
}

/// Sixteen random bytes made a version 4 UUID: the high four bits of byte 6
/// become the version (4), the high two bits of byte 8 the RFC 4122 variant
/// (binary 10).
pub open spec fn uuid_v4_bytes(b: Seq<u8>) -> Seq<u8> {
    b.update(6, (b[6] & 0x0f) | 0x40).update(8, (b[8] & 0x3f) | 0x80)
}

/// `uuid::Builder::from_random_bytes(..).into_uuid().as_u128()`: the bytes
/// with the RFC 4122 variant and version 4 bits set, read as a big-endian
/// number.
#[verifier::external_body]
fn uuid_from_random(bytes: &[u8]) -> (id: u128)
    requires
        bytes@.len() == 16,
    ensures
        id == big_endian_value(uuid_v4_bytes(bytes@)),
{
    let arr: [u8; 16] = bytes.try_into().unwrap();
    uuid::Builder::from_random_bytes(arr).into_uuid().as_u128()
}

/// The message when no random identifier could be made.
pub open spec fn id_failure_message() -> Seq<char> {
    "Failed to generate identifier: "@ + "ring::error::Unspecified"@
}

/// A fresh random (version 4) UUID as its 128-bit value, built from sixteen
/// bytes of the system's generator; an error when the generator fails.
pub(crate) fn fresh_uuid() -> (r: Result<u128, String>)
    ensures
        r matches Err(e) ==> e@ == id_failure_message(),
{
    match random_bytes(16) {
        Ok(b) => Ok(uuid_from_random(b.as_slice())),
        Err(e) => {
            let mut m = crate::text::owned("Failed to generate identifier: ");
            m.append(e.as_str());
            Err(m)
        },
    }
}

} // verus!
