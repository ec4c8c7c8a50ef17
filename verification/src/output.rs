//! The output buffer: a byte sink of fixed capacity.

use vstd::prelude::*;
use vstd::string::StringSliceAdditionalSpecFns;

verus! {

/// Why the output buffer refused a write.
#[derive(Clone, Copy, Debug, PartialEq, Eq, Structural)]
pub enum OutputError {
    /// The bytes do not fit in what is left of the buffer.
    Full,
    /// A value could not be rendered.
    FormattingErr,
}

/// A byte sink of fixed capacity. A write either fits whole or is refused
/// whole.
pub struct OutputBuf {
    buf: Vec<u8>,
    cap: usize,
}

impl View for OutputBuf {
    type V = Seq<u8>;

    closed spec fn view(&self) -> Seq<u8> {
        self.buf@
    }
}

/// The bytes held after `bytes` were offered to a buffer of `cap` bytes that
/// holds `held`.
pub open spec fn pushed(held: Seq<u8>, cap: nat, bytes: Seq<u8>) -> Seq<u8> {
    if held.len() + bytes.len() <= cap {
        held + bytes
    } else {
        held
    }
}

impl OutputBuf {
    pub closed spec fn spec_capacity(&self) -> nat {
        self.cap as nat
    }

    pub open spec fn wf(&self) -> bool {
        self@.len() <= self.spec_capacity()
    }

    /// Is the buffer in order?
    pub fn is_wf(&self) -> (r: bool)
        ensures
            r == self.wf(),
    {
        self.buf.len() <= self.cap
    }

    /// An empty buffer for at most `cap` bytes.
    pub fn new(cap: usize) -> (r: Self)
        ensures
            r.wf(),
            r@ == Seq::<u8>::empty(),
            r.spec_capacity() == cap,
    {
        OutputBuf { buf: Vec::with_capacity(cap), cap }
    }

    pub fn capacity(&self) -> (c: usize)
        ensures
            c == self.spec_capacity(),
    {
        self.cap
    }

    /// How many more bytes fit.
    pub fn remaining(&self) -> (n: usize)
        requires
            self.wf(),
        ensures
            n == self.spec_capacity() - self@.len(),
    {
        self.cap - self.buf.len()
    }

    /// Appends `bytes`, or reports `Full` and appends nothing.
    pub fn push_bstr(&mut self, bytes: &[u8]) -> (r: Result<(), OutputError>)
        requires
            old(self).wf(),
        ensures
            final(self).wf(),
            final(self).spec_capacity() == old(self).spec_capacity(),
            final(self)@ == pushed(old(self)@, old(self).spec_capacity(), bytes@),
            r == if old(self)@.len() + bytes@.len() <= old(self).spec_capacity() {
                Ok::<(), OutputError>(())
            } else {
                Err::<(), OutputError>(OutputError::Full)
            },
    {
        if bytes.len() > self.cap - self.buf.len() {
            return Err(OutputError::Full);
        }
        let mut i: usize = 0;
        while i < bytes.len()
            invariant
                i <= bytes@.len(),
                self.cap == old(self).cap,
                old(self).buf@.len() + bytes@.len() <= self.cap,
                self.buf@ == old(self).buf@ + bytes@.take(i as int),
            decreases bytes@.len() - i,
        {
            self.buf.push(bytes[i]);
            i += 1;
            assert(self.buf@ =~= old(self).buf@ + bytes@.take(i as int));
        }
        assert(bytes@.take(bytes@.len() as int) =~= bytes@);
        Ok(())
    }

    /// Appends the bytes of `s`, or reports `Full` and appends nothing.
    pub fn push_str(&mut self, s: &str) -> (r: Result<(), OutputError>)
        requires
            old(self).wf(),
        ensures
            final(self).wf(),
            final(self).spec_capacity() == old(self).spec_capacity(),
            final(self)@ == pushed(old(self)@, old(self).spec_capacity(), s.spec_bytes()),
            r == if old(self)@.len() + s.spec_bytes().len() <= old(self).spec_capacity() {
                Ok::<(), OutputError>(())
            } else {
                Err::<(), OutputError>(OutputError::Full)
            },
    {
        self.push_bstr(s.as_bytes())
    }

    /// Appends one byte, or reports `Full`.
    pub fn push_byte(&mut self, b: u8) -> (r: Result<(), OutputError>)
        requires
            old(self).wf(),
        ensures
            final(self).wf(),
            final(self).spec_capacity() == old(self).spec_capacity(),
            final(self)@ == pushed(old(self)@, old(self).spec_capacity(), seq![b]),
            r == if old(self)@.len() + 1 <= old(self).spec_capacity() {
                Ok::<(), OutputError>(())
            } else {
                Err::<(), OutputError>(OutputError::Full)
            },
    {
        if self.buf.len() >= self.cap {
            return Err(OutputError::Full);
        }
        self.buf.push(b);
        assert(self.buf@ =~= old(self).buf@ + seq![b]);
        Ok(())
    }

    /// Everything written since the buffer was last cleared.
    pub fn as_bytes(&self) -> (b: &[u8])
        ensures
            b@ == self@,
    {
        self.buf.as_slice()
    }

    /// Forgets what was written.
    pub fn clear(&mut self)
        requires
            old(self).wf(),
        ensures
            final(self).wf(),
            final(self).spec_capacity() == old(self).spec_capacity(),
            final(self)@ == Seq::<u8>::empty(),
    {
        self.buf.clear();
    }
}

} // verus!
