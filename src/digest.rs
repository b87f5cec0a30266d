use vstd::prelude::*;

verus! {

/// The MD5 digest of a byte string, written as lowercase hexadecimal.
pub uninterp spec fn md5_hex(data: Seq<u8>) -> Seq<char>;

/// Relies on md5::compute and the digest's LowerHex formatting: two lowercase hex
/// digits for each of the 16 digest bytes, a function of the input bytes alone.
#[verifier::external_body]
pub(crate) fn md5_hex_digest(data: &Vec<u8>) -> (r: String)
    ensures
        r@ == md5_hex(data@),
        r@.len() == 32,
{
    format!("{:x}", md5::compute(data))
}

} // verus!
