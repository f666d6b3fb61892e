//! The staging buffer: circular's `Buffer`, with what it holds named for
//! the contracts.

use vstd::prelude::*;

use circular::Buffer;

verus! {

#[verifier::external_type_specification]
#[verifier::external_body]
pub struct ExBuffer(circular::Buffer);

/// The bytes a buffer holds that have not been consumed, in order.
pub uninterp spec fn buffer_data(b: circular::Buffer) -> Seq<u8>;

/// The size of the buffer's memory.
pub uninterp spec fn buffer_capacity(b: circular::Buffer) -> nat;

/// The free space after the held bytes, where new bytes can be written.
pub uninterp spec fn buffer_space(b: circular::Buffer) -> nat;

/// Held bytes and free space fit in the memory.
pub open spec fn buffer_fits(b: circular::Buffer) -> bool {
    buffer_data(b).len() + buffer_space(b) <= buffer_capacity(b)
}

/// Relies on circular's `Buffer::with_capacity`: an empty buffer whose
/// memory of `capacity` bytes is all free space. It allocates that memory,
/// which panics beyond `isize::MAX` bytes.
pub assume_specification[ circular::Buffer::with_capacity ](capacity: usize) -> (r: Buffer)
    requires
        capacity <= isize::MAX,
    ensures
        buffer_data(r) == Seq::<u8>::empty(),
        buffer_capacity(r) == capacity,
        buffer_space(r) == capacity,
;

/// Relies on circular's `Buffer::data`: the slice of held bytes.
pub assume_specification[ circular::Buffer::data ](b: &Buffer) -> (r: &[u8])
    ensures
        r@ == buffer_data(*b),
;

/// Relies on circular's `Buffer::available_space`: the free space.
pub assume_specification[ circular::Buffer::available_space ](b: &Buffer) -> (r: usize)
    ensures
        r == buffer_space(*b),
;

/// Relies on circular's `Buffer::capacity`: the size of the memory.
pub assume_specification[ circular::Buffer::capacity ](b: &Buffer) -> (r: usize)
    ensures
        r == buffer_capacity(*b),
;

/// Relies on circular's `Buffer::consume`: drops up to `count` held bytes
/// from the front; a shift it may make only frees space.
pub assume_specification[ circular::Buffer::consume ](b: &mut Buffer, count: usize) -> (r: usize)
    ensures
        r as int == if count <= buffer_data(*old(b)).len() { count as int } else { buffer_data(*old(b)).len() as int },
        buffer_data(*final(b)) == buffer_data(*old(b)).skip(r as int),
        buffer_capacity(*final(b)) == buffer_capacity(*old(b)),
        buffer_space(*final(b)) >= buffer_space(*old(b)),
        buffer_fits(*final(b)),
;

/// Relies on circular's `Buffer::grow`: enlarges the memory to `new_size`
/// when it is smaller, keeping the held bytes; otherwise does nothing. The
/// resize panics beyond `isize::MAX` bytes.
pub assume_specification[ circular::Buffer::grow ](b: &mut Buffer, new_size: usize) -> (r: bool)
    requires
        new_size <= isize::MAX,
    ensures
        r == (buffer_capacity(*old(b)) < new_size),
        buffer_data(*final(b)) == buffer_data(*old(b)),
        r ==> buffer_capacity(*final(b)) == new_size,
        r ==> buffer_space(*final(b)) == buffer_space(*old(b)) + new_size - buffer_capacity(*old(b)),
        !r ==> buffer_capacity(*final(b)) == buffer_capacity(*old(b)),
        !r ==> buffer_space(*final(b)) == buffer_space(*old(b)),
        buffer_fits(*final(b)),
;

/// Relies on circular's `Buffer::shift`: moves the held bytes to the start
/// of the memory, so that all the rest is free space.
pub assume_specification[ circular::Buffer::shift ](b: &mut Buffer)
    ensures
        buffer_data(*final(b)) == buffer_data(*old(b)),
        buffer_capacity(*final(b)) == buffer_capacity(*old(b)),
        buffer_space(*final(b)) + buffer_data(*final(b)).len() == buffer_capacity(*final(b)),
;

/// Relies on circular's `impl std::io::Write for Buffer`: copies as many
/// bytes as the free space takes after the held ones, and never fails.
#[verifier::external_body]
pub(crate) fn buffer_write(b: &mut Buffer, bytes: &[u8]) -> (r: usize)
    ensures
        r as int == if bytes.len() <= buffer_space(*old(b)) { bytes.len() as int } else { buffer_space(*old(b)) as int },
        buffer_data(*final(b)) == buffer_data(*old(b)) + bytes@.take(r as int),
        buffer_capacity(*final(b)) == buffer_capacity(*old(b)),
        buffer_fits(*final(b)),
{
    std::io::Write::write(b, bytes).unwrap_or(0)
}

} // verus!
