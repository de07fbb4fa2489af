//! Conversions between text and character sequences, and the content digest.

use vstd::prelude::*;
use vstd::std_specs::iter::IteratorSpec;

verus! {

/// The SHA-384 digest of the UTF-8 encoding of `text`.
pub uninterp spec fn sha384_of(text: Seq<char>) -> Seq<u8>;

broadcast use vstd::string::group_string_axioms;

/// The characters of `s`, in order.
pub(crate) fn chars_of(s: &str) -> (r: Vec<char>)
    ensures
        r@ == s@,
{
    let mut it = s.chars();
    let mut out: Vec<char> = Vec::new();
    loop
        invariant
            out@ + it.remaining() == s@,
            it.decrease() is Some,
        ensures
            out@ == s@,
        decreases it.decrease()->0,
    {
        match it.next() {
            Some(c) => {
                out.push(c);
            },
            None => {
                assert(out@ =~= out@ + it.remaining());
                break;
            },
        }
    }
    out
}

/// Relies on `String::from_iter`: the string made of the characters of `v`, in order.
#[verifier::external_body]
pub(crate) fn string_of(v: &Vec<char>) -> (r: String)
    ensures
        r@ == v@,
{
    String::from_iter(v.iter())
}

/// Relies on `sha2::Sha384::digest` over the UTF-8 bytes of `s`: a 48-byte digest
/// that depends on the characters of `s` alone.
#[verifier::external_body]
pub(crate) fn sha384_digest(s: &str) -> (r: Vec<u8>)
    ensures
        r@ == sha384_of(s@),
        r@.len() == 48,
{
    <sha2::Sha384 as sha2::Digest>::digest(s.as_bytes()).to_vec()
}

} // verus!
