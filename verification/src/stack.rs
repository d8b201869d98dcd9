//! A fixed-capacity, stack-like container.

use vstd::prelude::*;

verus! {

/// Errors for a [`Stack`].
#[derive(Debug, Clone, Copy, PartialEq, Eq, Structural)]
pub enum Error {
    /// Error produced if an attempt is made to store more elements in a
    /// stack than its capacity allows.
    CapacityExceeded,
}

/// `Stack` is a fixed-capacity, stack-like container.
///
/// `Stack` supports:
///
///   - Length queries: [`Stack::len`].
///   - Pushing values onto the end: [`Stack::push`].
///   - Popping values from the end: [`Stack::pop`].
///   - Clearing all values: [`Stack::clear`].
///   - Viewing as a slice: [`Stack::deref`].
#[derive(Debug)]
pub struct Stack<T, const N: usize> {
    pub elements: Vec<T>,
}

impl<T, const N: usize> Stack<T, N> {
    /// The stored elements never exceed the capacity.
    pub open spec fn wf(self) -> bool {
        self.elements@.len() <= N
    }

    /// Creates a new `Stack`.
    pub fn new() -> (r: Stack<T, N>)
        ensures
            r.wf(),
            r.elements@ =~= Seq::<T>::empty(),
    {
        Stack { elements: Vec::new() }
    }

    /// Returns the length of the `Stack`.
    ///
    /// This is the number of items actually stored on the `Stack`, not its
    /// capacity.
    pub fn len(&self) -> (r: usize)
        ensures
            r == self.elements@.len(),
    {
        self.elements.len()
    }

    /// Pushes an item onto the end of the stack.
    ///
    /// If the stack has no more space, the `value` is dropped and an error
    /// is returned.
    ///
    /// # Parameters
    ///
    /// - `value`: The value to push onto the stack.
    ///
    /// # Returns
    ///
    /// - `Ok(())`: if there was enough space for the item on the stack.
    /// - `Err(Error::CapacityExceeded)`: if the stack ran out of space.
    pub fn push(&mut self, value: T) -> (r: Result<(), Error>)
        ensures
            r is Ok <==> old(self).elements@.len() < N,
            r is Ok ==> final(self).elements@ =~= old(self).elements@.push(value),
            r is Err ==> *final(self) == *old(self) && r->Err_0 == Error::CapacityExceeded,
            old(self).wf() ==> final(self).wf(),
    {
        if self.elements.len() < N {
            self.elements.push(value);
            Ok(())
        } else {
            Err(Error::CapacityExceeded)
        }
    }

    /// Pops an item off the end of the stack.
    ///
    /// # Returns
    ///
    /// - `Some(value)`: if there was an item on the stack.
    /// - `None`: if the stack was empty.
    pub fn pop(&mut self) -> (r: Option<T>)
        ensures
            old(self).elements@.len() > 0 ==> r is Some && r->Some_0 == old(
                self,
            ).elements@.last() && final(self).elements@ =~= old(self).elements@.drop_last(),
            old(self).elements@.len() == 0 ==> r is None && *final(self) == *old(self),
            old(self).wf() ==> final(self).wf(),
    {
        if self.elements.len() > 0 {
            Some(self.elements.pop().unwrap())
        } else {
            None
        }
    }

    /// Clears the stack, removing and dropping all items.
    pub fn clear(&mut self)
        ensures
            final(self).wf(),
            final(self).elements@ =~= Seq::<T>::empty(),
    {
        self.elements.clear();
    }

    /// View a `Stack` as a slice.
    pub fn deref(&self) -> (r: &[T])
        ensures
            r@ == self.elements@,
    {
        self.elements.as_slice()
    }
}

} // verus!
