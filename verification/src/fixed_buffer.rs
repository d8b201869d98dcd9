//! Buffer with a fixed capacity of elements.

use vstd::prelude::*;

verus! {

/// Errors that can occur when using the `FixedBuffer`.
#[derive(Debug, Clone, Copy, PartialEq, Eq, Structural)]
pub enum Error {
    /// The buffer is full.
    BufferFull,
}

/// Buffer with a fixed maximum number of elements.
pub struct FixedBuffer<T, const N: usize> {
    pub elements: Vec<T>,
}

impl<T, const N: usize> FixedBuffer<T, N> {
    /// The stored elements never exceed the capacity.
    pub open spec fn wf(self) -> bool {
        self.elements@.len() <= N
    }

    /// Creates a new `FixedBuffer`.
    ///
    /// The capacity of the `FixedBuffer` is determined by the constant
    /// generic parameter `N`.
    pub fn new() -> (r: FixedBuffer<T, N>)
        ensures
            r.wf(),
            r.elements@ =~= Seq::<T>::empty(),
    {
        FixedBuffer { elements: Vec::new() }
    }

    /// Returns the number of elements stored in the `FixedBuffer`.
    pub fn length(&self) -> (r: usize)
        ensures
            r == self.elements@.len(),
    {
        self.elements.len()
    }

    /// Appends a value to the `FixedBuffer`.
    ///
    /// This function can fail if the buffer is full. If the buffer is full,
    /// the value will be dropped.
    ///
    /// # Parameters
    ///
    /// - `value`: Value to append to the buffer.
    ///
    /// # Returns
    ///
    /// - [`Result::Ok`]: if the value was successfully appended to the buffer.
    /// - [`Result::Err`]: if the buffer was full.
    pub fn append(&mut self, value: T) -> (r: Result<(), Error>)
        ensures
            r is Ok <==> old(self).elements@.len() < N,
            r is Ok ==> final(self).elements@ =~= old(self).elements@.push(value),
            r is Err ==> *final(self) == *old(self) && r->Err_0 == Error::BufferFull,
            old(self).wf() ==> final(self).wf(),
    {
        if self.elements.len() < N {
            self.elements.push(value);
            Ok(())
        } else {
            Err(Error::BufferFull)
        }
    }

    /// Removes and drops all elements in the buffer.
    pub fn clear(&mut self)
        ensures
            final(self).wf(),
            final(self).elements@ =~= Seq::<T>::empty(),
    {
        self.elements.clear();
    }

    /// Returns a reference to the element at the given position.
    pub fn index(&self, index: usize) -> (r: &T)
        requires
            index < self.elements@.len(),
        ensures
            *r == self.elements@[index as int],
    {
        &self.elements[index]
    }
}

/// The little-endian bytes of one 32-bit value, least significant first.
pub open spec fn u32_le_bytes(v: u32) -> Seq<u8> {
    seq![
        (v as int % 256) as u8,
        (v as int / 256 % 256) as u8,
        (v as int / 65536 % 256) as u8,
        (v as int / 16777216 % 256) as u8,
    ]
}

/// The little-endian bytes of a sequence of 32-bit values, in order.
pub open spec fn le_bytes_of(s: Seq<u32>) -> Seq<u8>
    decreases s.len(),
{
    if s.len() == 0 {
        Seq::empty()
    } else {
        le_bytes_of(s.drop_last()) + u32_le_bytes(s.last())
    }
}

impl<const N: usize> FixedBuffer<u32, N> {
    /// Converts the stored elements to their little-endian byte encoding.
    pub fn bytes(&self) -> (r: Vec<u8>)
        ensures
            r@ =~= le_bytes_of(self.elements@),
    {
        let mut r: Vec<u8> = Vec::new();
        let mut i: usize = 0;
        while i < self.elements.len()
            invariant
                0 <= i <= self.elements@.len(),
                r@ =~= le_bytes_of(self.elements@.subrange(0, i as int)),
            decreases self.elements@.len() - i,
        {
            proof {
                assert(self.elements@.subrange(0, i + 1).drop_last() =~= self.elements@.subrange(
                    0,
                    i as int,
                ));
            }
            let v = self.elements[i];
            r.push((v % 256) as u8);
            r.push((v / 256 % 256) as u8);
            r.push((v / 65536 % 256) as u8);
            r.push((v / 16777216 % 256) as u8);
            i += 1;
        }
        proof {
            assert(self.elements@.subrange(0, self.elements@.len() as int) =~= self.elements@);
        }
        r
    }
}

} // verus!
