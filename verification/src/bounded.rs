//! The code from outside that this crate calls: the fixed-capacity vector
//! and string of `heapless`, which hold connection handles and credentials,
//! and the UTF-8 validation of `core`. Nothing here is proved: each contract
//! restates what the source or the documentation of the function it names
//! says of it.

use vstd::prelude::*;
use vstd::string::StringSliceAdditionalSpecFns;
use vstd::utf8::valid_utf8;
use crate::relay::MAX_CLIENTS;

verus! {

/// `heapless::Vec`: a vector with room for `N` elements, stored inline.
/// Nothing inside it is visible to proofs; what it holds is named below.
#[verifier::external_type_specification]
#[verifier::external_body]
#[verifier::reject_recursive_types(T)]
pub struct ExHeaplessVec<T, const N: usize>(heapless::Vec<T, N>);

/// A vector of at most `MAX_CLIENTS` connection handles, stored inline.
pub type HandleVec = heapless::Vec<usize, MAX_CLIENTS>;

/// The elements a `HandleVec` holds, first to last.
pub uninterp spec fn handles(v: HandleVec) -> Seq<usize>;

/// `heapless::Vec::new`: a vector that holds nothing.
#[verifier::external_body]
pub(crate) fn handles_new() -> (v: HandleVec)
    ensures
        handles(v) == Seq::<usize>::empty(),
{
    heapless::Vec::new()
}

/// `heapless::Vec::as_slice`: the elements as a slice, first to last. The
/// vector never holds more than its capacity.
#[verifier::external_body]
pub(crate) fn handles_as_slice(v: &HandleVec) -> (s: &[usize])
    ensures
        s@ == handles(*v),
        s@.len() <= MAX_CLIENTS,
{
    v.as_slice()
}

/// `heapless::Vec::push`: appends `item` if there is room, and hands it back
/// with the vector unchanged if there is none.
#[verifier::external_body]
pub(crate) fn handles_push(v: &mut HandleVec, item: usize) -> (r: Result<(), usize>)
    ensures
        r == (if handles(*old(v)).len() < MAX_CLIENTS {
            Ok::<(), usize>(())
        } else {
            Err::<(), usize>(item)
        }),
        handles(*final(v)) == (if handles(*old(v)).len() < MAX_CLIENTS {
            handles(*old(v)).push(item)
        } else {
            handles(*old(v))
        }),
{
    v.push(item)
}

/// `heapless::Vec::pop`: takes the last element off, or returns `None` and
/// leaves the vector as it is when it holds nothing.
#[verifier::external_body]
pub(crate) fn handles_pop(v: &mut HandleVec) -> (r: Option<usize>)
    ensures
        r == (if handles(*old(v)).len() > 0 {
            Some(handles(*old(v)).last())
        } else {
            None
        }),
        handles(*final(v)) == (if handles(*old(v)).len() > 0 {
            handles(*old(v)).drop_last()
        } else {
            handles(*old(v))
        }),
{
    v.pop()
}

/// `heapless::Vec::swap_remove`: takes the element at `index` out and puts
/// the last element in its place. The method panics on an index that is out
/// of bounds, which `requires` rules out.
#[verifier::external_body]
pub(crate) fn handles_swap_remove(v: &mut HandleVec, index: usize) -> (removed: usize)
    requires
        index < handles(*old(v)).len(),
    ensures
        removed == handles(*old(v))[index as int],
        handles(*final(v)) == handles(*old(v)).update(
            index as int,
            handles(*old(v)).last(),
        ).drop_last(),
{
    v.swap_remove(index)
}

/// `heapless::String`: a string with room for `N` bytes of UTF-8, stored
/// inline. Nothing inside it is visible to proofs; what it holds is named
/// below.
#[verifier::external_type_specification]
#[verifier::external_body]
pub struct ExHeaplessString<const N: usize>(heapless::String<N>);

/// How many bytes of UTF-8 a `Credential` can hold.
pub const CREDENTIAL_CAPACITY: usize = 64;

/// An SSID or a password, stored inline.
pub type Credential = heapless::String<CREDENTIAL_CAPACITY>;

/// The characters a `Credential` holds.
pub uninterp spec fn credential_text(s: Credential) -> Seq<char>;

/// `heapless::String::from_str`: a string with the characters of `s` if the
/// UTF-8 bytes of `s` are no more than the capacity, and an error otherwise.
#[verifier::external_body]
pub(crate) fn credential_from_str(s: &str) -> (r: Result<Credential, ()>)
    ensures
        r is Ok == (s.spec_bytes().len() <= CREDENTIAL_CAPACITY),
        r is Ok ==> credential_text(r.unwrap()) == s@,
{
    core::str::FromStr::from_str(s)
}

/// `core::str::from_utf8`: the bytes as a string slice if they are valid
/// UTF-8, and nothing otherwise.
#[verifier::external_body]
pub(crate) fn utf8_str(bytes: &[u8]) -> (s: Option<&str>)
    ensures
        s is Some == valid_utf8(bytes@),
        s is Some ==> s.unwrap().spec_bytes() == bytes@,
{
    core::str::from_utf8(bytes).ok()
}

} // verus!
