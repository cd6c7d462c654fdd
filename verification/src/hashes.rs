//! Content hashing for configuration uploads.
//!
//! An uploaded drone configuration is stored under the first eight hex
//! digits of the SHA-1 of its payload; the reply to the uploader carries the
//! same eight digits.

use vstd::prelude::*;

verus! {

/// The SHA-1 digest of a byte string: twenty bytes that depend on the input
/// alone.
pub uninterp spec fn sha1_of(data: Seq<u8>) -> Seq<u8>;

/// Relies on `sha1::Sha1` (through the digest interface): the SHA-1 digest
/// is twenty bytes and is a function of the input bytes alone.
#[verifier::external_body]
pub fn sha1_digest(data: &[u8]) -> (r: Vec<u8>)
    ensures
        r@ == sha1_of(data@),
        r@.len() == 20,
{
    <sha1::Sha1 as sha1::Digest>::digest(data).to_vec()
}

/// Lowercase hex digit of a nibble.
pub open spec fn hex_digit(n: int) -> u8 {
    if n < 10 {
        (48 + n) as u8
    } else {
        (87 + n) as u8
    }
}

/// Lowercase hex text of a byte string: two digits per byte, high nibble
/// first.
pub open spec fn spec_hex(data: Seq<u8>) -> Seq<u8>
    decreases data.len(),
{
    if data.len() == 0 {
        Seq::empty()
    } else {
        seq![
            hex_digit(data[0] as int / 16),
            hex_digit(data[0] as int % 16),
        ] + spec_hex(data.drop_first())
    }
}

/// Relies on `hex::encode`: each byte becomes its two lowercase hex digits,
/// high nibble first.
#[verifier::external_body]
pub fn hex_encode(data: &[u8]) -> (r: Vec<u8>)
    ensures
        r@ == spec_hex(data@),
{
    hex::encode(data).into_bytes()
}

/// Every byte of hex text is a digit or a lowercase letter `a` to `f`.
pub proof fn lemma_hex_bytes(data: Seq<u8>)
    ensures
        spec_hex(data).len() == 2 * data.len(),
        forall|i: int|
            0 <= i < spec_hex(data).len() ==> (48 <= #[trigger] spec_hex(data)[i] <= 57 || 97
                <= spec_hex(data)[i] <= 102),
    decreases data.len(),
{
    if data.len() > 0 {
        lemma_hex_bytes(data.drop_first());
        assert(0 <= data[0] as int / 16 <= 15);
        assert(0 <= data[0] as int % 16 <= 15);
    }
}

/// The first eight hex digits of the SHA-1 of `payload`.
pub fn sha1_hex8(payload: &[u8]) -> (r: Vec<u8>)
    ensures
        r@ == spec_hex(sha1_of(payload@)).take(8),
        r@.len() == 8,
        forall|i: int| 0 <= i < 8 ==> (48 <= #[trigger] r@[i] <= 57 || 97 <= r@[i] <= 102),
{
    let digest = sha1_digest(payload);
    let full = hex_encode(digest.as_slice());
    proof {
        lemma_hex_bytes(digest@);
    }
    let mut out: Vec<u8> = Vec::new();
    let mut i: usize = 0;
    while i < 8
        invariant
            i <= 8,
            full@ == spec_hex(sha1_of(payload@)),
            full@.len() >= 8,
            out@ == full@.take(i as int),
        decreases 8 - i,
    {
        out.push(full[i]);
        proof {
            assert(out@ =~= full@.take(i + 1));
        }
        i = i + 1;
    }
    proof {
        lemma_hex_bytes(sha1_of(payload@));
    }
    out
}

} // verus!
