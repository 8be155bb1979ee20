//! What the library has from other crates and from the clock.
use vstd::prelude::*;

verus! {

// ---------------------------------------------------------------------------
// Digests
// ---------------------------------------------------------------------------

/// The SHA-256 digest of some bytes.
pub uninterp spec fn sha256(bytes: Seq<u8>) -> Seq<u8>;

/// The HMAC-SHA256 code of some bytes under a key.
pub uninterp spec fn hmac_sha256(key: Seq<u8>, bytes: Seq<u8>) -> Seq<u8>;

/// `sha2::Sha256::digest` depends on the bytes alone and gives 32 bytes.
#[verifier::external_body]
pub(crate) fn sha256_digest(bytes: &[u8]) -> (r: Vec<u8>)
    ensures
        r@ == sha256(bytes@),
        r@.len() == 32,
{
    <sha2::Sha256 as sha2::Digest>::digest(bytes).to_vec()
}

/// `hmac::Hmac<sha2::Sha256>` takes keys of any length; the code depends on the
/// key and the bytes alone and has 32 bytes.
#[verifier::external_body]
pub(crate) fn hmac_code(key: &[u8], bytes: &[u8]) -> (r: Vec<u8>)
    ensures
        r@ == hmac_sha256(key@, bytes@),
        r@.len() == 32,
{
    let mut mac =
        <hmac::Hmac<sha2::Sha256> as hmac::Mac>::new_from_slice(key).expect("HMAC accepts any key length");
    hmac::Mac::update(&mut mac, bytes);
    hmac::Mac::finalize(mac).into_bytes().to_vec()
}

/// The lowercase hexadecimal digit of a number below sixteen.
pub open spec fn hex_digit(n: int) -> char {
    if n < 10 {
        (48 + n) as char
    } else {
        (87 + n) as char
    }
}

/// Two lowercase hexadecimal digits for each byte.
pub open spec fn hex_text(bytes: Seq<u8>) -> Seq<char> {
    Seq::new(
        2 * bytes.len(),
        |i: int|
            if i % 2 == 0 {
                hex_digit(bytes[i / 2] as int / 16)
            } else {
                hex_digit(bytes[i / 2] as int % 16)
            },
    )
}

/// `hex::encode` writes two lowercase digits for each byte, the high one first.
#[verifier::external_body]
pub(crate) fn hex_encode(bytes: &[u8]) -> (r: String)
    ensures
        r@ == hex_text(bytes@),
{
    hex::encode(bytes)
}

/// The SHA-256 digest of some bytes in hexadecimal.
pub fn sha256_hex(bytes: &[u8]) -> (r: String)
    ensures
        r@ == hex_text(sha256(bytes@)),
        r@.len() == 64,
{
    let d = sha256_digest(bytes);
    hex_encode(d.as_slice())
}

// ---------------------------------------------------------------------------
// Chance and time
// ---------------------------------------------------------------------------

/// `uuid::Uuid::new_v4` draws a random id; its text has 36 characters. Nothing
/// more is stated: two calls are to give different ids, but only by chance.
#[verifier::external_body]
pub(crate) fn random_id() -> (r: String)
    ensures
        r@.len() == 36,
{
    uuid::Uuid::new_v4().to_string()
}

/// `std::time::SystemTime::now`, in nanoseconds since 1970, or 0 before that.
/// Nothing is stated of it.
#[verifier::external_body]
pub(crate) fn unix_nanos() -> (r: u128) {
    std::time::SystemTime::now().duration_since(std::time::UNIX_EPOCH).map(|d| d.as_nanos()).unwrap_or(0)
}

/// The current time in seconds since 1970, or 0 before that; the time that does
/// not fit counts as 0.
pub(crate) fn now_unix() -> (r: u64) {
    let secs: u128 = unix_nanos() / 1_000_000_000;
    if secs <= 0xffff_ffff_ffff_ffff {
        secs as u64
    } else {
        0
    }
}

} // verus!
