//! A byte writer over a fixed-capacity buffer: the arena-with-an-index
//! pattern both machines use, offered on its own.

use vstd::prelude::*;

use crate::meat::MeatPackError;

verus! {

/// A writer that appends bytes to a buffer of fixed capacity `N` and
/// refuses to write past it.
pub struct ArrWriter<const N: usize> {
    arr: Vec<u8>,
}

impl<const N: usize> View for ArrWriter<N> {
    type V = Seq<u8>;

    closed spec fn view(&self) -> Seq<u8> {
        self.arr@
    }
}

impl<const N: usize> ArrWriter<N> {
    /// A fresh, empty writer.
    pub fn new() -> (r: Self)
        ensures
            r@ == Seq::<u8>::empty(),
    {
        ArrWriter { arr: Vec::new() }
    }

    /// Appends a byte to the buffer, failing once `N` bytes are held.
    pub fn push(&mut self, byte: &u8) -> (r: Result<(), MeatPackError>)
        ensures
            match r {
                Ok(()) => old(self)@.len() < N && final(self)@ == old(self)@.push(*byte),
                Err(e) => {
                    &&& e == MeatPackError::BufferFull
                    &&& old(self)@.len() >= N
                    &&& final(self)@ == old(self)@
                },
            },
    {
        if self.arr.len() >= N {
            return Err(MeatPackError::BufferFull);
        }
        self.arr.push(*byte);
        Ok(())
    }

    /// The bytes written so far.
    pub fn as_bytes(&self) -> (r: &[u8])
        ensures
            r@ == self@,
    {
        self.arr.as_slice()
    }
}

} // verus!
