use vstd::prelude::*;

verus! {

/// The big-endian value of the eight bytes of `b` from `o`.
pub open spec fn be_u64(b: Seq<u8>, o: int) -> u64 {
    ((b[o] as u64) << 56u64) | ((b[o + 1] as u64) << 48u64) | ((b[o + 2] as u64) << 40u64) | ((b[o
        + 3] as u64) << 32u64) | ((b[o + 4] as u64) << 24u64) | ((b[o + 5] as u64) << 16u64) | ((b[o
        + 6] as u64) << 8u64) | (b[o + 7] as u64)
}

/// The identifier made from the sixteen bytes of a UUID: the high word
/// shifted by 32 bits, combined by `or` with the low word.
pub open spec fn uuid_id(b: Seq<u8>) -> i64 {
    ((be_u64(b, 0) << 32u64) | be_u64(b, 8)) as i64
}

/// Bytes of a random (version 4, RFC 4122 variant) UUID.
pub open spec fn is_v4(b: Seq<u8>) -> bool {
    b.len() == 16 && b[6] / 16 == 4 && b[8] / 64 == 2
}

/// Relies on `uuid::Uuid::new_v4` (random, version 4, RFC 4122 variant) and
/// `Uuid::as_bytes` (its sixteen bytes, big-endian).
#[verifier::external_body]
fn random_uuid_bytes() -> (r: [u8; 16])
    ensures
        is_v4(r@),
{
    *uuid::Uuid::new_v4().as_bytes()
}

fn read_be_u64(b: &[u8; 16], o: usize) -> (r: u64)
    requires
        o + 8 <= 16,
    ensures
        r == be_u64(b@, o as int),
{
    ((b[o] as u64) << 56u64) | ((b[o + 1] as u64) << 48u64) | ((b[o + 2] as u64) << 40u64) | ((b[o
        + 3] as u64) << 32u64) | ((b[o + 4] as u64) << 24u64) | ((b[o + 5] as u64) << 16u64) | ((b[o
        + 6] as u64) << 8u64) | (b[o + 7] as u64)
}

/// The identifier of the sixteen bytes of a UUID.
pub fn uuid_bytes_to_id(b: [u8; 16]) -> (r: i64)
    ensures
        r == uuid_id(b@),
{
    let msb = read_be_u64(&b, 0);
    let lsb = read_be_u64(&b, 8);
    ((msb << 32u64) | lsb) as i64
}

/// A fresh random identifier, made from a random UUID.
pub fn gen_uuid() -> (r: i64)
    ensures
        exists|b: Seq<u8>| is_v4(b) && r == uuid_id(b),
{
    let b = random_uuid_bytes();
    uuid_bytes_to_id(b)
}

} // verus!
