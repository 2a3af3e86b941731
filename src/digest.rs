use vstd::prelude::*;
use vstd::string::StringSliceAdditionalSpecFns;
use vstd::utf8::encode_utf8;

verus! {

/// The SHA-256 digest of a byte string.
pub uninterp spec fn sha256(data: Seq<u8>) -> Seq<u8>;

/// Relies on sha2's `Sha256::digest`: the SHA-256 digest of `data`, which
/// is 32 bytes long.
#[verifier::external_body]
fn sha256_digest(data: &[u8]) -> (r: Vec<u8>)
    ensures
        r@ == sha256(data@),
        r@.len() == 32,
{
    <sha2::Sha256 as sha2::Digest>::digest(data).to_vec()
}

/// The stamp of a source text: the first eight bytes of the SHA-256 digest
/// of its UTF-8 encoding.
pub open spec fn source_stamp(source: Seq<char>) -> Seq<u8> {
    sha256(encode_utf8(source)).subrange(0, 8)
}

/// Computes the stamp of a source text.
pub fn content_hash(source: &str) -> (r: [u8; 8])
    ensures
        r@ == source_stamp(source@),
{
    let d = sha256_digest(source.as_bytes());
    let r = [d[0], d[1], d[2], d[3], d[4], d[5], d[6], d[7]];
    assert(r@ =~= source_stamp(source@));
    r
}

} // verus!
