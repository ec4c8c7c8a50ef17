//! A last-in-first-out stack of bounded capacity.

use vstd::prelude::*;

verus! {

/// Why a stack operation was refused.
#[derive(Clone, Copy, Debug, PartialEq, Eq, Structural)]
pub enum StackError {
    /// A value was requested from a position that holds none.
    StackEmpty,
    /// A push found the stack at capacity.
    StackFull,
    /// An overwrite named a position that holds no value.
    OverwriteInvalid,
}

/// A LIFO of at most `capacity()` items. The view lists the items from the
/// bottom up, so the top of the stack is the last element.
pub struct Stack<T> {
    items: Vec<T>,
    cap: usize,
}

impl<T: Copy> View for Stack<T> {
    type V = Seq<T>;

    closed spec fn view(&self) -> Seq<T> {
        self.items@
    }
}

impl<T: Copy> Stack<T> {
    pub closed spec fn spec_capacity(&self) -> nat {
        self.cap as nat
    }

    /// The stack never holds more than its capacity.
    pub open spec fn wf(&self) -> bool {
        self@.len() <= self.spec_capacity()
    }

    /// Is the stack in order?
    pub fn is_wf(&self) -> (r: bool)
        ensures
            r == self.wf(),
    {
        self.items.len() <= self.cap
    }

    /// An empty stack for at most `cap` items.
    pub fn new(cap: usize) -> (s: Self)
        ensures
            s.wf(),
            s@ == Seq::<T>::empty(),
            s.spec_capacity() == cap,
    {
        Stack { items: Vec::with_capacity(cap), cap }
    }

    #[verifier::when_used_as_spec(spec_capacity_usize)]
    pub fn capacity(&self) -> (c: usize)
        ensures
            c == self.spec_capacity(),
    {
        self.cap
    }

    pub closed spec fn spec_capacity_usize(&self) -> usize {
        self.cap
    }

    pub fn depth(&self) -> (n: usize)
        ensures
            n == self@.len(),
    {
        self.items.len()
    }

    /// Puts `item` on top, or reports `StackFull` and leaves the stack as it was.
    pub fn push(&mut self, item: T) -> (r: Result<(), StackError>)
        requires
            old(self).wf(),
        ensures
            final(self).wf(),
            final(self).spec_capacity() == old(self).spec_capacity(),
            old(self)@.len() < old(self).spec_capacity() ==> r == Ok::<(), StackError>(())
                && final(self)@ == old(self)@.push(item),
            old(self)@.len() >= old(self).spec_capacity() ==> r == Err::<(), StackError>(
                StackError::StackFull,
            ) && final(self)@ == old(self)@,
    {
        if self.items.len() >= self.cap {
            Err(StackError::StackFull)
        } else {
            self.items.push(item);
            Ok(())
        }
    }

    /// Takes the top item off, or returns `None` on an empty stack.
    pub fn pop(&mut self) -> (r: Option<T>)
        requires
            old(self).wf(),
        ensures
            final(self).wf(),
            final(self).spec_capacity() == old(self).spec_capacity(),
            old(self)@.len() > 0 ==> r == Some(old(self)@.last()) && final(self)@ == old(self)@.drop_last(),
            old(self)@.len() == 0 ==> r.is_none() && final(self)@ == old(self)@,
    {
        self.items.pop()
    }

    /// Takes the top item off, or reports `StackEmpty`.
    pub fn try_pop(&mut self) -> (r: Result<T, StackError>)
        requires
            old(self).wf(),
        ensures
            final(self).wf(),
            final(self).spec_capacity() == old(self).spec_capacity(),
            old(self)@.len() > 0 ==> r == Ok::<T, StackError>(old(self)@.last()) && final(self)@
                == old(self)@.drop_last(),
            old(self)@.len() == 0 ==> r == Err::<T, StackError>(StackError::StackEmpty) && final(self)@ == old(self)@,
    {
        match self.items.pop() {
            Some(t) => Ok(t),
            None => Err(StackError::StackEmpty),
        }
    }

    /// The top item, without removing it.
    pub fn try_peek(&self) -> (r: Result<T, StackError>)
        ensures
            self@.len() > 0 ==> r == Ok::<T, StackError>(self@.last()),
            self@.len() == 0 ==> r == Err::<T, StackError>(StackError::StackEmpty),
    {
        let n = self.items.len();
        if n == 0 {
            Err(StackError::StackEmpty)
        } else {
            Ok(self.items[n - 1])
        }
    }

    /// The item `n` places below the top (`n == 0` is the top itself).
    pub fn try_peek_back_n(&self, n: usize) -> (r: Result<T, StackError>)
        ensures
            n < self@.len() ==> r == Ok::<T, StackError>(self@[self@.len() - 1 - n]),
            n >= self@.len() ==> r == Err::<T, StackError>(StackError::StackEmpty),
    {
        let len = self.items.len();
        if n >= len {
            Err(StackError::StackEmpty)
        } else {
            Ok(self.items[len - 1 - n])
        }
    }

    /// Replaces the item `n` places below the top by `item`.
    pub fn overwrite_back_n(&mut self, n: usize, item: T) -> (r: Result<(), StackError>)
        requires
            old(self).wf(),
        ensures
            final(self).wf(),
            final(self).spec_capacity() == old(self).spec_capacity(),
            n < old(self)@.len() ==> r == Ok::<(), StackError>(()) && final(self)@ == old(self)@.update(old(self)@.len() - 1 - n, item),
            n >= old(self)@.len() ==> r == Err::<(), StackError>(StackError::OverwriteInvalid)
                && final(self)@ == old(self)@,
    {
        let len = self.items.len();
        if n >= len {
            Err(StackError::OverwriteInvalid)
        } else {
            self.items.set(len - 1 - n, item);
            Ok(())
        }
    }

    /// Removes every item.
    pub fn clear(&mut self)
        requires
            old(self).wf(),
        ensures
            final(self).wf(),
            final(self).spec_capacity() == old(self).spec_capacity(),
            final(self)@ == Seq::<T>::empty(),
    {
        self.items.clear();
    }
}

} // verus!
