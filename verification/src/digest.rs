//! Stable identifiers: the texts they are made of and their digests.

use vstd::prelude::*;

verus! {

/// The lower-case hexadecimal notation of the SHA-256 digest of `data`.
pub uninterp spec fn sha256_hex(data: Seq<u8>) -> Seq<char>;

/// `sha2::Sha256::digest`, written in lower-case hexadecimal. The contract claims that
/// the text is a function of the data and has 64 characters.
#[verifier::external_body]
fn digest_of(data: &Vec<u8>) -> (r: String)
    ensures
        r@ == sha256_hex(data@),
        r@.len() == 64,
{
    format!("{:x}", <sha2::Sha256 as sha2::Digest>::digest(data))
}

/// The bytes of a text in UTF-8.
pub open spec fn utf8(s: Seq<char>) -> Seq<u8> {
    vstd::utf8::encode_utf8(s)
}

/// The identifier that a text gives.
pub fn text_digest(s: &str) -> (r: String)
    ensures
        r@ == sha256_hex(utf8(s@)),
        r@.len() == 64,
{
    let b = s.as_bytes();
    let mut data: Vec<u8> = Vec::new();
    for i in 0..b.len()
        invariant
            b@ == utf8(s@),
            data@ == b@.take(i as int),
    {
        data.push(b[i]);
        assert(b@.take(i + 1) =~= b@.take(i as int).push(b@[i as int]));
    }
    assert(b@.take(b@.len() as int) =~= b@);
    digest_of(&data)
}

/// Different texts have different bytes.
pub proof fn lemma_utf8_injective(a: Seq<char>, b: Seq<char>)
    requires
        utf8(a) == utf8(b),
    ensures
        a == b,
{
    vstd::utf8::encode_utf8_decode_utf8(a);
    vstd::utf8::encode_utf8_decode_utf8(b);
}

} // verus!
