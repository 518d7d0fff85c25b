//! The fingerprint of an image: its MD5 digest in lower-case hexadecimal.

use crate::string::string_push;
use vstd::prelude::*;

verus! {

/// The MD5 digest of `data`, as `md5::compute` gives it.
pub uninterp spec fn md5_digest(data: Seq<u8>) -> Seq<u8>;

/// `md5::compute`: the MD5 digest of `data`, which has 16 bytes.
#[verifier::external_body]
pub(crate) fn md5_compute(data: &Vec<u8>) -> (r: Vec<u8>)
    ensures
        r@ == md5_digest(data@),
        r@.len() == 16,
{
    md5::compute(data).0.to_vec()
}

/// The lower-case hexadecimal digit for `n`.
pub open spec fn spec_hex_digit(n: int) -> char
    recommends
        0 <= n < 16,
{
    if n < 10 {
        (n + 0x30) as char
    } else {
        (n - 10 + 0x61) as char
    }
}

/// Two lower-case hexadecimal digits for each byte of `bytes`, high digit first.
pub open spec fn spec_hex_lower(bytes: Seq<u8>) -> Seq<char> {
    Seq::new(
        2 * bytes.len(),
        |i: int|
            if i % 2 == 0 {
                spec_hex_digit(bytes[i / 2] as int / 16)
            } else {
                spec_hex_digit(bytes[i / 2] as int % 16)
            },
    )
}

/// The fingerprint of `data`: the hexadecimal form of its MD5 digest.
pub open spec fn spec_fingerprint(data: Seq<u8>) -> Seq<char> {
    spec_hex_lower(md5_digest(data))
}

fn hex_digit(n: u8) -> (c: char)
    requires
        n < 16,
    ensures
        c == spec_hex_digit(n as int),
{
    if n < 10 {
        (n + 0x30) as char
    } else {
        (n - 10 + 0x61) as char
    }
}

/// The bytes of `bytes` in lower-case hexadecimal.
pub fn hex_lower(bytes: &Vec<u8>) -> (r: String)
    ensures
        r@ == spec_hex_lower(bytes@),
{
    let mut out = String::new();
    let mut i: usize = 0;
    while i < bytes.len()
        invariant
            i <= bytes@.len(),
            out@ == spec_hex_lower(bytes@.take(i as int)),
        decreases bytes@.len() - i,
    {
        let b = bytes[i];
        string_push(&mut out, hex_digit(b / 16));
        string_push(&mut out, hex_digit(b % 16));
        i += 1;
        proof {
            assert(out@ =~= spec_hex_lower(bytes@.take(i as int)));
        }
    }
    proof {
        assert(bytes@.take(bytes@.len() as int) =~= bytes@);
    }
    out
}

/// The fingerprint of `data`.
pub fn fingerprint(data: &Vec<u8>) -> (r: String)
    ensures
        r@ == spec_fingerprint(data@),
{
    let digest = md5_compute(data);
    hex_lower(&digest)
}

} // verus!
