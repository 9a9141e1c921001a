//! The boundary adapter: raw (address, length) pairs handed across the
//! module/host boundary, and the owned text values reconstructed from them.

use crate::heap::Heap;
use crate::heap::HeapModel;
use vstd::prelude::*;

verus! {

/// A region of the boundary heap as the host names it: a start address and
/// a byte length. Ownership of the region travels with the pair.
#[derive(Clone, Copy)]
pub struct RawBuffer {
    pub address: u32,
    pub length: u32,
}

impl RawBuffer {
    /// The pair names a live region of `m` whose byte length is exactly
    /// `length` — the condition under which reconstruction is meaningful.
    pub open spec fn valid_for(self, m: HeapModel) -> bool {
        &&& m.regions.dom().contains(self.address)
        &&& m.regions[self.address].len() == self.length as nat
    }
}

/// An owned text value reconstructed from a raw buffer. It owns exactly the
/// bytes of the region it was reconstructed from: no padding, no capacity
/// slack. Its view is that byte sequence.
pub struct OwnedString {
    bytes: Vec<u8>,
}

impl View for OwnedString {
    type V = Seq<u8>;

    closed spec fn view(&self) -> Seq<u8> {
        self.bytes@
    }
}

impl OwnedString {
    /// Wraps already-owned bytes as an owned text value.
    pub fn from_bytes(bytes: Vec<u8>) -> (text: OwnedString)
        ensures
            text@ == bytes@,
    {
        OwnedString { bytes }
    }

    /// The byte length of the text.
    pub fn byte_len(&self) -> (n: usize)
        ensures
            n == self@.len(),
    {
        self.bytes.len()
    }

    /// Whether the text is empty.
    pub fn is_empty(&self) -> (r: bool)
        ensures
            r == (self@.len() == 0),
    {
        self.bytes.len() == 0
    }

    /// The bytes of the text.
    pub fn as_bytes(&self) -> (b: &Vec<u8>)
        ensures
            b@ == self@,
    {
        &self.bytes
    }

    /// Gives the bytes of the text up.
    pub fn into_bytes(self) -> (b: Vec<u8>)
        ensures
            b@ == self@,
    {
        self.bytes
    }
}

/// Reconstructs an owned text value from a raw buffer the host (or the
/// allocator) handed across the boundary. Ownership of the region transfers
/// with the call: the region leaves the heap, and its bytes — exactly
/// `buffer.length` of them, byte for byte — become the text's own.
///
/// The declared length matching the region's true length is a correctness
/// precondition of the reconstruction, not something it can check away.
pub fn reconstruct(heap: &mut Heap, buffer: RawBuffer) -> (text: OwnedString)
    requires
        buffer.valid_for(old(heap)@),
    ensures
        text@ == old(heap)@.regions[buffer.address],
        text@.len() == buffer.length as nat,
        final(heap)@ == old(heap)@.after_dealloc(buffer.address),
{
    let bytes = crate::heap::take_region(heap, buffer.address);
    OwnedString { bytes }
}

/// The checked counterpart of `reconstruct`: first holds the buffer against
/// the heap, and reconstructs only when the buffer names a live region of
/// exactly the declared length. A malformed buffer yields `None` and leaves
/// the heap untouched instead of breaking the ownership contract.
pub fn try_reconstruct(heap: &mut Heap, buffer: RawBuffer) -> (r: Option<OwnedString>)
    ensures
        r is Some <==> buffer.valid_for(old(heap)@),
        match r {
            Some(text) => text@ == old(heap)@.regions[buffer.address] && text@.len()
                == buffer.length as nat && final(heap)@ == old(heap)@.after_dealloc(
                buffer.address,
            ),
            None => final(heap)@ == old(heap)@,
        },
{
    let valid = match heap.region_len(buffer.address) {
        Some(n) => n == buffer.length as usize,
        None => false,
    };
    if valid {
        Some(reconstruct(heap, buffer))
    } else {
        None
    }
}

/// The boundary adapter for the two host accessors. It holds no state: each
/// accessor is a one-shot request whose answer arrives as a `RawBuffer`.
pub struct CumulusCI {}

impl CumulusCI {
    /// Turns the host's answer to an access-token request — a raw buffer of
    /// UTF-8 text whose declared length matches its region exactly — into
    /// an owned text value, taking ownership of the region.
    pub fn get_access_token(&self, heap: &mut Heap, response: RawBuffer) -> (token: OwnedString)
        requires
            response.valid_for(old(heap)@),
        ensures
            token@ == old(heap)@.regions[response.address],
            token@.len() == response.length as nat,
            final(heap)@ == old(heap)@.after_dealloc(response.address),
    {
        reconstruct(heap, response)
    }

    /// Turns the host's answer to an instance-URL request into an owned
    /// text value, exactly as `get_access_token` does for its buffer.
    pub fn get_instance_url(&self, heap: &mut Heap, response: RawBuffer) -> (url: OwnedString)
        requires
            response.valid_for(old(heap)@),
        ensures
            url@ == old(heap)@.regions[response.address],
            url@.len() == response.length as nat,
            final(heap)@ == old(heap)@.after_dealloc(response.address),
    {
        reconstruct(heap, response)
    }
}

/// Implemented by values that can be frozen into a plain value with the
/// adapter's help. The library itself implements it for no type: it is the
/// extension point the adapter's users fill in.
pub trait Freeze<T> {
    fn freeze(&self, cumulusci: &CumulusCI) -> T;
}

} // verus!
