//! The receive buffer of a datagram socket.
use vstd::prelude::*;
use vstd::slice::slice_subrange;

verus! {

/// The size of a receive buffer: the largest datagram taken in whole.
pub const BUFFER_SIZE: usize = 1024;

/// A buffer that a socket receives datagrams into.
pub struct Buffer(pub [u8; BUFFER_SIZE]);

impl Buffer {
    /// A zeroed buffer.
    pub fn new() -> (r: Self)
        ensures
            forall|i: int| 0 <= i < BUFFER_SIZE ==> r.0@[i] == 0,
    {
        Buffer([0u8; BUFFER_SIZE])
    }

    /// The first `len` bytes: the datagram last received, of that length.
    pub fn received(&self, len: usize) -> (r: &[u8])
        requires
            len <= BUFFER_SIZE,
        ensures
            r@ == self.0@.subrange(0, len as int),
    {
        slice_subrange(self.0.as_slice(), 0, len)
    }
}

} // verus!
