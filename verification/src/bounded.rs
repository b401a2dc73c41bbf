//! Fixed-capacity text of `heapless`, as the settings and profiles hold it.

use vstd::prelude::*;

verus! {

/// `heapless::String`, opaque to proofs: [`text32`] and [`text64`] name what it
/// holds.
#[verifier::external_type_specification]
#[verifier::external_body]
pub struct ExText<const N: usize>(heapless::String<N>);

/// `heapless::Vec`, opaque to proofs: each use names what it holds.
#[verifier::external_type_specification]
#[verifier::external_body]
#[verifier::reject_recursive_types(T)]
pub struct ExList<T, const N: usize>(heapless::Vec<T, N>);

/// The characters a 32-byte text holds.
pub uninterp spec fn text32(s: heapless::String<32>) -> Seq<char>;

/// The characters a 64-byte text holds.
pub uninterp spec fn text64(s: heapless::String<64>) -> Seq<char>;

/// `heapless::String::<32>::try_from`: holds the given characters, or fails
/// when their UTF-8 encoding is longer than 32 bytes.
#[verifier::external_body]
pub(crate) fn text32_from(s: &str) -> (r: Result<heapless::String<32>, ()>)
    ensures
        r is Ok <==> vstd::utf8::encode_utf8(s@).len() <= 32,
        r matches Ok(t) ==> text32(t) == s@,
{
    heapless::String::<32>::try_from(s)
}

/// `heapless::String::<32>::as_str`: the characters held.
#[verifier::external_body]
pub(crate) fn text32_as_str(s: &heapless::String<32>) -> (r: &str)
    ensures
        r@ == text32(*s),
{
    s.as_str()
}

/// `heapless::String::<32>::clone`: holds the same characters.
#[verifier::external_body]
pub(crate) fn text32_clone(s: &heapless::String<32>) -> (r: heapless::String<32>)
    ensures
        text32(r) == text32(*s),
{
    s.clone()
}

/// `heapless::String::<64>::new`: holds nothing.
#[verifier::external_body]
pub(crate) fn text64_new() -> (r: heapless::String<64>)
    ensures
        text64(r) == Seq::<char>::empty(),
{
    heapless::String::<64>::new()
}

/// `heapless::String::<64>::clone`: holds the same characters.
#[verifier::external_body]
pub(crate) fn text64_clone(s: &heapless::String<64>) -> (r: heapless::String<64>)
    ensures
        text64(r) == text64(*s),
{
    s.clone()
}

} // verus!
