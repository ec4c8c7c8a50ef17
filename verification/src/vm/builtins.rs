//! The builtin words, the definition of new words, and the interpreter that
//! steps through compiled words.

use crate::dictionary::{cell_bits, lower, BumpError, EntryKind, RawEntry, ENTRY_SIZE};
use crate::fastr::{len_hash_of, name_prefix, FaStr, NameView};
use crate::number::decimal_signed;
use crate::output::OutputError;
use crate::stack::StackError;
use crate::vm::{Forth, ForthView, ARENA_LIMIT, ASYNC_BASE, BUILTIN_BASE};
use crate::word::{
    bit_and, bitand, tdiv, trem, wrap32, wrap_i64, wrapping_add, wrapping_div, wrapping_mul,
    wrapping_rem, wrapping_sub, Word,
};
use crate::{CallContext, Error, Mode, WordFunc};
use vstd::prelude::*;
use vstd::string::StringSliceAdditionalSpecFns;

verus! {

impl<T> ForthView<T> {
    /// `+`: the sum of the two top cells, modulo 2^32.
    pub open spec fn spec_add(self) -> (ForthView<T>, Result<(), Error>) {
        self.take_give(2, seq![Word { data: wrap32(self.top(0).data + self.top(1).data) }])
    }

    /// `-`: the second cell less the top cell, modulo 2^32.
    pub open spec fn spec_minus(self) -> (ForthView<T>, Result<(), Error>) {
        self.take_give(2, seq![Word { data: wrap32(self.top(1).data - self.top(0).data) }])
    }

    /// `*`: the product of the two top cells, modulo 2^32.
    pub open spec fn spec_mul(self) -> (ForthView<T>, Result<(), Error>) {
        self.take_give(2, seq![Word { data: wrap32(self.top(0).data * self.top(1).data) }])
    }

    /// `abs`: the magnitude of the top cell; that of the least cell is the least cell.
    pub open spec fn spec_abs(self) -> (ForthView<T>, Result<(), Error>) {
        self.take_give(1, seq![Word { data: wrap32(if self.top(0).data < 0 { -self.top(0).data } else { self.top(0).data as int }) }])
    }

    /// `negate`: the top cell with its sign changed, modulo 2^32.
    pub open spec fn spec_negate(self) -> (ForthView<T>, Result<(), Error>) {
        self.take_give(1, seq![Word { data: wrap32(-self.top(0).data) }])
    }

    /// `min`: the smaller of the two top cells.
    pub open spec fn spec_min(self) -> (ForthView<T>, Result<(), Error>) {
        self.take_give(2, seq![Word { data: if self.top(0).data <= self.top(1).data { self.top(0).data } else { self.top(1).data } }])
    }

    /// `max`: the larger of the two top cells.
    pub open spec fn spec_max(self) -> (ForthView<T>, Result<(), Error>) {
        self.take_give(2, seq![Word { data: if self.top(0).data >= self.top(1).data { self.top(0).data } else { self.top(1).data } }])
    }

    /// `not`: -1 for a top cell of 0, else 0.
    pub open spec fn spec_invert(self) -> (ForthView<T>, Result<(), Error>) {
        self.take_give(1, seq![Word { data: if self.top(0).data == 0 { -1i32 } else { 0i32 } }])
    }

    /// `and`: the bitwise and of the two top cells.
    pub open spec fn spec_and(self) -> (ForthView<T>, Result<(), Error>) {
        self.take_give(2, seq![Word { data: bit_and(self.top(0).data, self.top(1).data) }])
    }

    /// `=`: -1 where the two top cells are the same, else 0.
    pub open spec fn spec_equal(self) -> (ForthView<T>, Result<(), Error>) {
        self.take_give(2, seq![Word { data: if self.top(0).data == self.top(1).data { -1i32 } else { 0i32 } }])
    }

    /// `>`: -1 where the second cell is greater than the top cell, else 0.
    pub open spec fn spec_greater(self) -> (ForthView<T>, Result<(), Error>) {
        self.take_give(2, seq![Word { data: if self.top(1).data > self.top(0).data { -1i32 } else { 0i32 } }])
    }

    /// `<`: -1 where the second cell is less than the top cell, else 0.
    pub open spec fn spec_less(self) -> (ForthView<T>, Result<(), Error>) {
        self.take_give(2, seq![Word { data: if self.top(1).data < self.top(0).data { -1i32 } else { 0i32 } }])
    }

    /// `swap`: the two top cells change places.
    pub open spec fn spec_swap(self) -> (ForthView<T>, Result<(), Error>) {
        self.take_give(2, seq![self.top(0), self.top(1)])
    }

    /// `rot`: the third cell comes to the top.
    pub open spec fn spec_rot(self) -> (ForthView<T>, Result<(), Error>) {
        self.take_give(3, seq![self.top(1), self.top(0), self.top(2)])
    }

    /// `drop`: the top cell goes.
    pub open spec fn spec_ds_drop(self) -> (ForthView<T>, Result<(), Error>) {
        self.take_give(1, Seq::empty())
    }

    /// `2drop`: the two top cells go.
    pub open spec fn spec_ds_drop_2(self) -> (ForthView<T>, Result<(), Error>) {
        self.take_give(2, Seq::empty())
    }

    /// `2swap`: the two top pairs of cells change places.
    pub open spec fn spec_swap_2(self) -> (ForthView<T>, Result<(), Error>) {
        self.take_give(4, seq![self.top(1), self.top(0), self.top(3), self.top(2)])
    }

    /// `2dup`: the top pair of cells, twice.
    pub open spec fn spec_dup_2(self) -> (ForthView<T>, Result<(), Error>) {
        self.take_give(2, seq![self.top(1), self.top(0), self.top(1), self.top(0)])
    }

    /// `w+`: the address in the second cell, moved by as many cells as the top cell says, modulo 2^32.
    pub open spec fn spec_word_add(self) -> (ForthView<T>, Result<(), Error>) {
        self.take_give(2, seq![Word { data: wrap32(self.top(1).data + 4 * self.top(0).data) }])
    }

    /// `0`: the cell 0.
    pub open spec fn spec_zero_const(self) -> (ForthView<T>, Result<(), Error>) {
        self.give(seq![Word { data: 0 }])
    }

    /// `1`: the cell 1.
    pub open spec fn spec_one_const(self) -> (ForthView<T>, Result<(), Error>) {
        self.give(seq![Word { data: 1 }])
    }

    /// `dup`: the top cell, once more.
    pub open spec fn spec_dup(self) -> (ForthView<T>, Result<(), Error>) {
        self.peek_give(1, seq![self.top(0)])
    }

    /// `over`: the second cell, once more.
    pub open spec fn spec_over(self) -> (ForthView<T>, Result<(), Error>) {
        self.peek_give(2, seq![self.top(1)])
    }

    /// `2over`: the second pair of cells, once more.
    pub open spec fn spec_over_2(self) -> (ForthView<T>, Result<(), Error>) {
        self.peek_give(4, seq![self.top(3), self.top(2)])
    }

    /// `/`: the second cell divided by the top cell, rounded toward zero; `DivideByZero` for a top cell of 0.
    pub open spec fn spec_div(self) -> (ForthView<T>, Result<(), Error>) {
        self.take_check_give(2, if self.top(0).data == 0 { Some(Error::DivideByZero) } else { None }, seq![Word { data: wrap32(tdiv(self.top(1).data as int, self.top(0).data as int)) }])
    }

    /// `mod`: the remainder of the second cell divided by the top cell; `DivideByZero` for a top cell of 0.
    pub open spec fn spec_modu(self) -> (ForthView<T>, Result<(), Error>) {
        self.take_check_give(2, if self.top(0).data == 0 { Some(Error::DivideByZero) } else { None }, seq![Word { data: wrap32(trem(self.top(1).data as int, self.top(0).data as int)) }])
    }

    /// `/mod`: remainder, then quotient, of the second cell divided by the top cell.
    pub open spec fn spec_div_mod(self) -> (ForthView<T>, Result<(), Error>) {
        self.take_check_give(2, if self.top(0).data == 0 { Some(Error::DivideByZero) } else { None }, seq![Word { data: wrap32(trem(self.top(1).data as int, self.top(0).data as int)) }, Word { data: wrap32(tdiv(self.top(1).data as int, self.top(0).data as int)) }])
    }

    /// `*/`: the product of the third and second cells, kept in 64 bits, divided by the top cell; the quotient modulo 2^32.
    pub open spec fn spec_star_slash(self) -> (ForthView<T>, Result<(), Error>) {
        self.take_check_give(3, if self.top(0).data == 0 { Some(Error::DivideByZero) } else { None }, seq![Word { data: wrap32(tdiv(self.top(2).data * self.top(1).data, self.top(0).data as int)) }])
    }

    /// `*/mod`: remainder, then quotient, of the product of the third and second cells divided by the top cell.
    pub open spec fn spec_star_slash_mod(self) -> (ForthView<T>, Result<(), Error>) {
        self.take_check_give(3, if self.top(0).data == 0 { Some(Error::DivideByZero) } else { None }, seq![Word { data: wrap32(trem(self.top(2).data * self.top(1).data, self.top(0).data as int)) }, Word { data: wrap32(tdiv(self.top(2).data * self.top(1).data, self.top(0).data as int)) }])
    }

    /// `0=`: puts 0 on the stack, then does `=`.
    pub open spec fn spec_zero_equal(self) -> (ForthView<T>, Result<(), Error>) {
        if self.give(seq![Word { data: 0 }]).1.is_err() {
            self.give(seq![Word { data: 0 }])
        } else {
            self.given(seq![Word { data: 0 }]).spec_equal()
        }
    }

    /// `0>`: puts 0 on the stack, then does `>`.
    pub open spec fn spec_zero_greater(self) -> (ForthView<T>, Result<(), Error>) {
        if self.give(seq![Word { data: 0 }]).1.is_err() {
            self.give(seq![Word { data: 0 }])
        } else {
            self.given(seq![Word { data: 0 }]).spec_greater()
        }
    }

    /// `0<`: puts 0 on the stack, then does `<`.
    pub open spec fn spec_zero_less(self) -> (ForthView<T>, Result<(), Error>) {
        if self.give(seq![Word { data: 0 }]).1.is_err() {
            self.give(seq![Word { data: 0 }])
        } else {
            self.given(seq![Word { data: 0 }]).spec_less()
        }
    }

    /// `cr`: writes a line feed.
    pub open spec fn spec_cr(self) -> (ForthView<T>, Result<(), Error>) {
        self.put(seq![10u8])
    }

    /// `space`: writes a blank.
    pub open spec fn spec_space(self) -> (ForthView<T>, Result<(), Error>) {
        self.put(seq![32u8])
    }

    /// `emit`: takes the top cell and writes its low eight bits as one byte.
    pub open spec fn spec_emit(self) -> (ForthView<T>, Result<(), Error>) {
        if self.data.len() < 1 {
            (self.taken(1), Err(Error::Stack(StackError::StackEmpty)))
        } else {
            self.taken(1).put(seq![self.top(0).data as u8])
        }
    }

    /// `.`: takes the top cell and writes it in decimal, then a blank.
    pub open spec fn spec_pop_print(self) -> (ForthView<T>, Result<(), Error>) {
        if self.data.len() < 1 {
            (self.taken(1), Err(Error::Stack(StackError::StackEmpty)))
        } else {
            self.taken(1).put(decimal_signed(self.top(0).data as int).push(32u8))
        }
    }

    /// `u.`: takes the top cell and writes its bit pattern as an unsigned decimal, then a blank.
    pub open spec fn spec_unsigned_pop_print(self) -> (ForthView<T>, Result<(), Error>) {
        if self.data.len() < 1 {
            (self.taken(1), Err(Error::Stack(StackError::StackEmpty)))
        } else {
            self.taken(1).put(decimal_signed(cell_bits(self.top(0).data) as int).push(32u8))
        }
    }

    /// `d>r`: moves the top cell of the data stack to the return stack.
    pub open spec fn spec_data_to_return_stack(self) -> (ForthView<T>, Result<(), Error>) {
        if self.data.len() < 1 {
            (self.taken(1), Err(Error::Stack(StackError::StackEmpty)))
        } else {
            self.taken(1).rgive(seq![self.top(0)])
        }
    }

    /// `2d>2r`: moves the top two cells of the data stack to the return stack; the one that was on top is on top.
    pub open spec fn spec_data2_to_return2_stack(self) -> (ForthView<T>, Result<(), Error>) {
        if self.data.len() < 2 {
            (self.taken(2), Err(Error::Stack(StackError::StackEmpty)))
        } else {
            self.taken(2).rgive(seq![self.top(1), self.top(0)])
        }
    }

    /// `r>d`: moves the top cell of the return stack to the data stack.
    pub open spec fn spec_return_to_data_stack(self) -> (ForthView<T>, Result<(), Error>) {
        if self.ret.len() < 1 {
            (self.rtaken(1), Err(Error::Stack(StackError::StackEmpty)))
        } else {
            self.rtaken(1).give(seq![self.rtop(0)])
        }
    }

    /// `i`: the counter of the innermost loop: a copy of the top cell of the return stack.
    pub open spec fn spec_loop_i(self) -> (ForthView<T>, Result<(), Error>) {
        if self.ret.len() < 1 {
            (self, Err(Error::Stack(StackError::StackEmpty)))
        } else {
            self.give(seq![self.rtop(0)])
        }
    }

    /// `i'`: the limit of the innermost loop: a copy of the second cell of the return stack.
    pub open spec fn spec_loop_itick(self) -> (ForthView<T>, Result<(), Error>) {
        if self.ret.len() < 2 {
            (self, Err(Error::Stack(StackError::StackEmpty)))
        } else {
            self.give(seq![self.rtop(1)])
        }
    }

    /// `j`: the counter of the loop around the innermost: a copy of the third cell of the return stack.
    pub open spec fn spec_loop_j(self) -> (ForthView<T>, Result<(), Error>) {
        if self.ret.len() < 3 {
            (self, Err(Error::Stack(StackError::StackEmpty)))
        } else {
            self.give(seq![self.rtop(2)])
        }
    }

    /// `leave`: replaces the counter of the innermost loop by its limit less one, so that the loop ends after this round.
    pub open spec fn spec_loop_leave(self) -> (ForthView<T>, Result<(), Error>) {
        if self.ret.len() < 2 {
            (self.rtaken(1), Err(Error::Stack(StackError::StackEmpty)))
        } else {
            self.rtaken(1).rgive(seq![Word { data: wrap32(self.rtop(1).data - 1) }])
        }
    }

    /// `@`: takes an address and puts the cell that the arena holds there; `BadAddress` where the cell does not lie in the arena.
    pub open spec fn spec_var_load(self) -> (ForthView<T>, Result<(), Error>) {
        if self.data.len() < 1 {
            (self.taken(1), Err(Error::Stack(StackError::StackEmpty)))
        } else if self.top(0).data < 0 || !self.arena.holds(self.top(0).data as int, 4) {
            (self.taken(1), Err(Error::BadAddress))
        } else {
            self.taken(1).give(seq![self.arena.read_word(self.top(0).data as int)])
        }
    }

    /// `!`: takes an address, then a cell, and stores the cell at the address; `BadAddress` where it does not lie in the arena.
    pub open spec fn spec_var_store(self) -> (ForthView<T>, Result<(), Error>) {
        if self.data.len() < 2 {
            (self.taken(2), Err(Error::Stack(StackError::StackEmpty)))
        } else if self.top(0).data < 0 || !self.arena.holds(self.top(0).data as int, 4) {
            (self.taken(2), Err(Error::BadAddress))
        } else {
            (
                ForthView {
                    arena: self.arena.store_word(self.top(0).data as int, self.top(1)),
                    ..self.taken(2)
                },
                Ok(()),
            )
        }
    }

}

impl<T> Forth<T> {
    /// `+`: the sum of the two top cells, modulo 2^32.
    pub fn add(&mut self) -> (r: Result<(), Error>)
        requires
            old(self).wf(),
        ensures
            final(self).wf(),
            (final(self)@, r) == old(self)@.spec_add(),
            final(self)@.ran_from(old(self)@),
            final(self)@.steps_left == old(self)@.steps_left,
            final(self)@.calls.len() == old(self)@.calls.len(),
            !(r matches Err(Error::PendingCallAgain)),
    {
        let (a, b) = self.take2()?;
        self.give1(Word::data(wrapping_add(a.data, b.data)))
    }

    /// `-`: the second cell less the top cell, modulo 2^32.
    pub fn minus(&mut self) -> (r: Result<(), Error>)
        requires
            old(self).wf(),
        ensures
            final(self).wf(),
            (final(self)@, r) == old(self)@.spec_minus(),
            final(self)@.ran_from(old(self)@),
            final(self)@.steps_left == old(self)@.steps_left,
            final(self)@.calls.len() == old(self)@.calls.len(),
            !(r matches Err(Error::PendingCallAgain)),
    {
        let (a, b) = self.take2()?;
        self.give1(Word::data(wrapping_sub(b.data, a.data)))
    }

    /// `*`: the product of the two top cells, modulo 2^32.
    pub fn mul(&mut self) -> (r: Result<(), Error>)
        requires
            old(self).wf(),
        ensures
            final(self).wf(),
            (final(self)@, r) == old(self)@.spec_mul(),
            final(self)@.ran_from(old(self)@),
            final(self)@.steps_left == old(self)@.steps_left,
            final(self)@.calls.len() == old(self)@.calls.len(),
            !(r matches Err(Error::PendingCallAgain)),
    {
        let (a, b) = self.take2()?;
        self.give1(Word::data(wrapping_mul(a.data, b.data)))
    }

    /// `abs`: the magnitude of the top cell; that of the least cell is the least cell.
    pub fn abs(&mut self) -> (r: Result<(), Error>)
        requires
            old(self).wf(),
        ensures
            final(self).wf(),
            (final(self)@, r) == old(self)@.spec_abs(),
            final(self)@.ran_from(old(self)@),
            final(self)@.steps_left == old(self)@.steps_left,
            final(self)@.calls.len() == old(self)@.calls.len(),
            !(r matches Err(Error::PendingCallAgain)),
    {
        let a = self.take1()?;
        let v = if a.data < 0 {
            wrapping_sub(0, a.data)
        } else {
            a.data
        };
        self.give1(Word::data(v))
    }

    /// `negate`: the top cell with its sign changed, modulo 2^32.
    pub fn negate(&mut self) -> (r: Result<(), Error>)
        requires
            old(self).wf(),
        ensures
            final(self).wf(),
            (final(self)@, r) == old(self)@.spec_negate(),
            final(self)@.ran_from(old(self)@),
            final(self)@.steps_left == old(self)@.steps_left,
            final(self)@.calls.len() == old(self)@.calls.len(),
            !(r matches Err(Error::PendingCallAgain)),
    {
        let a = self.take1()?;
        self.give1(Word::data(wrapping_sub(0, a.data)))
    }

    /// `min`: the smaller of the two top cells.
    pub fn min(&mut self) -> (r: Result<(), Error>)
        requires
            old(self).wf(),
        ensures
            final(self).wf(),
            (final(self)@, r) == old(self)@.spec_min(),
            final(self)@.ran_from(old(self)@),
            final(self)@.steps_left == old(self)@.steps_left,
            final(self)@.calls.len() == old(self)@.calls.len(),
            !(r matches Err(Error::PendingCallAgain)),
    {
        let (a, b) = self.take2()?;
        self.give1(Word::data(if a.data <= b.data { a.data } else { b.data }))
    }

    /// `max`: the larger of the two top cells.
    pub fn max(&mut self) -> (r: Result<(), Error>)
        requires
            old(self).wf(),
        ensures
            final(self).wf(),
            (final(self)@, r) == old(self)@.spec_max(),
            final(self)@.ran_from(old(self)@),
            final(self)@.steps_left == old(self)@.steps_left,
            final(self)@.calls.len() == old(self)@.calls.len(),
            !(r matches Err(Error::PendingCallAgain)),
    {
        let (a, b) = self.take2()?;
        self.give1(Word::data(if a.data >= b.data { a.data } else { b.data }))
    }

    /// `not`: -1 for a top cell of 0, else 0.
    pub fn invert(&mut self) -> (r: Result<(), Error>)
        requires
            old(self).wf(),
        ensures
            final(self).wf(),
            (final(self)@, r) == old(self)@.spec_invert(),
            final(self)@.ran_from(old(self)@),
            final(self)@.steps_left == old(self)@.steps_left,
            final(self)@.calls.len() == old(self)@.calls.len(),
            !(r matches Err(Error::PendingCallAgain)),
    {
        let a = self.take1()?;
        self.give1(Word::data(if a.data == 0 { -1 } else { 0 }))
    }

    /// `and`: the bitwise and of the two top cells.
    pub fn and(&mut self) -> (r: Result<(), Error>)
        requires
            old(self).wf(),
        ensures
            final(self).wf(),
            (final(self)@, r) == old(self)@.spec_and(),
            final(self)@.ran_from(old(self)@),
            final(self)@.steps_left == old(self)@.steps_left,
            final(self)@.calls.len() == old(self)@.calls.len(),
            !(r matches Err(Error::PendingCallAgain)),
    {
        let (a, b) = self.take2()?;
        self.give1(Word::data(bitand(a.data, b.data)))
    }

    /// `=`: -1 where the two top cells are the same, else 0.
    pub fn equal(&mut self) -> (r: Result<(), Error>)
        requires
            old(self).wf(),
        ensures
            final(self).wf(),
            (final(self)@, r) == old(self)@.spec_equal(),
            final(self)@.ran_from(old(self)@),
            final(self)@.steps_left == old(self)@.steps_left,
            final(self)@.calls.len() == old(self)@.calls.len(),
            !(r matches Err(Error::PendingCallAgain)),
    {
        let (a, b) = self.take2()?;
        self.give1(Word::data(if a.data == b.data { -1 } else { 0 }))
    }

    /// `>`: -1 where the second cell is greater than the top cell, else 0.
    pub fn greater(&mut self) -> (r: Result<(), Error>)
        requires
            old(self).wf(),
        ensures
            final(self).wf(),
            (final(self)@, r) == old(self)@.spec_greater(),
            final(self)@.ran_from(old(self)@),
            final(self)@.steps_left == old(self)@.steps_left,
            final(self)@.calls.len() == old(self)@.calls.len(),
            !(r matches Err(Error::PendingCallAgain)),
    {
        let (a, b) = self.take2()?;
        self.give1(Word::data(if b.data > a.data { -1 } else { 0 }))
    }

    /// `<`: -1 where the second cell is less than the top cell, else 0.
    pub fn less(&mut self) -> (r: Result<(), Error>)
        requires
            old(self).wf(),
        ensures
            final(self).wf(),
            (final(self)@, r) == old(self)@.spec_less(),
            final(self)@.ran_from(old(self)@),
            final(self)@.steps_left == old(self)@.steps_left,
            final(self)@.calls.len() == old(self)@.calls.len(),
            !(r matches Err(Error::PendingCallAgain)),
    {
        let (a, b) = self.take2()?;
        self.give1(Word::data(if b.data < a.data { -1 } else { 0 }))
    }

    /// `swap`: the two top cells change places.
    pub fn swap(&mut self) -> (r: Result<(), Error>)
        requires
            old(self).wf(),
        ensures
            final(self).wf(),
            (final(self)@, r) == old(self)@.spec_swap(),
            final(self)@.ran_from(old(self)@),
            final(self)@.steps_left == old(self)@.steps_left,
            final(self)@.calls.len() == old(self)@.calls.len(),
            !(r matches Err(Error::PendingCallAgain)),
    {
        let (a, b) = self.take2()?;
        self.give2(a, b)
    }

    /// `rot`: the third cell comes to the top.
    pub fn rot(&mut self) -> (r: Result<(), Error>)
        requires
            old(self).wf(),
        ensures
            final(self).wf(),
            (final(self)@, r) == old(self)@.spec_rot(),
            final(self)@.ran_from(old(self)@),
            final(self)@.steps_left == old(self)@.steps_left,
            final(self)@.calls.len() == old(self)@.calls.len(),
            !(r matches Err(Error::PendingCallAgain)),
    {
        let (a, b, c) = self.take3()?;
        self.give3(b, a, c)
    }

    /// `drop`: the top cell goes.
    pub fn ds_drop(&mut self) -> (r: Result<(), Error>)
        requires
            old(self).wf(),
        ensures
            final(self).wf(),
            (final(self)@, r) == old(self)@.spec_ds_drop(),
            final(self)@.ran_from(old(self)@),
            final(self)@.steps_left == old(self)@.steps_left,
            final(self)@.calls.len() == old(self)@.calls.len(),
            !(r matches Err(Error::PendingCallAgain)),
    {
        let a = self.take1()?;
        assert(self@.data + Seq::<Word>::empty() =~= self@.data);
        Ok(())
    }

    /// `2drop`: the two top cells go.
    pub fn ds_drop_2(&mut self) -> (r: Result<(), Error>)
        requires
            old(self).wf(),
        ensures
            final(self).wf(),
            (final(self)@, r) == old(self)@.spec_ds_drop_2(),
            final(self)@.ran_from(old(self)@),
            final(self)@.steps_left == old(self)@.steps_left,
            final(self)@.calls.len() == old(self)@.calls.len(),
            !(r matches Err(Error::PendingCallAgain)),
    {
        let (a, b) = self.take2()?;
        assert(self@.data + Seq::<Word>::empty() =~= self@.data);
        Ok(())
    }

    /// `2swap`: the two top pairs of cells change places.
    pub fn swap_2(&mut self) -> (r: Result<(), Error>)
        requires
            old(self).wf(),
        ensures
            final(self).wf(),
            (final(self)@, r) == old(self)@.spec_swap_2(),
            final(self)@.ran_from(old(self)@),
            final(self)@.steps_left == old(self)@.steps_left,
            final(self)@.calls.len() == old(self)@.calls.len(),
            !(r matches Err(Error::PendingCallAgain)),
    {
        let (a, b, c, d) = self.take4()?;
        self.give4(b, a, d, c)
    }

    /// `2dup`: the top pair of cells, twice.
    pub fn dup_2(&mut self) -> (r: Result<(), Error>)
        requires
            old(self).wf(),
        ensures
            final(self).wf(),
            (final(self)@, r) == old(self)@.spec_dup_2(),
            final(self)@.ran_from(old(self)@),
            final(self)@.steps_left == old(self)@.steps_left,
            final(self)@.calls.len() == old(self)@.calls.len(),
            !(r matches Err(Error::PendingCallAgain)),
    {
        let (a, b) = self.take2()?;
        self.give4(b, a, b, a)
    }

    /// `w+`: the address in the second cell, moved by as many cells as the top cell says, modulo 2^32.
    pub fn word_add(&mut self) -> (r: Result<(), Error>)
        requires
            old(self).wf(),
        ensures
            final(self).wf(),
            (final(self)@, r) == old(self)@.spec_word_add(),
            final(self)@.ran_from(old(self)@),
            final(self)@.steps_left == old(self)@.steps_left,
            final(self)@.calls.len() == old(self)@.calls.len(),
            !(r matches Err(Error::PendingCallAgain)),
    {
        let (a, b) = self.take2()?;
        self.give1(Word::data(wrap_i64(b.data as i64 + 4 * (a.data as i64))))
    }

    /// `0`: the cell 0.
    pub fn zero_const(&mut self) -> (r: Result<(), Error>)
        requires
            old(self).wf(),
        ensures
            final(self).wf(),
            (final(self)@, r) == old(self)@.spec_zero_const(),
            final(self)@.ran_from(old(self)@),
            final(self)@.steps_left == old(self)@.steps_left,
            final(self)@.calls.len() == old(self)@.calls.len(),
            !(r matches Err(Error::PendingCallAgain)),
    {
        self.give1(Word::data(0))
    }

    /// `1`: the cell 1.
    pub fn one_const(&mut self) -> (r: Result<(), Error>)
        requires
            old(self).wf(),
        ensures
            final(self).wf(),
            (final(self)@, r) == old(self)@.spec_one_const(),
            final(self)@.ran_from(old(self)@),
            final(self)@.steps_left == old(self)@.steps_left,
            final(self)@.calls.len() == old(self)@.calls.len(),
            !(r matches Err(Error::PendingCallAgain)),
    {
        self.give1(Word::data(1))
    }

    /// `dup`: the top cell, once more.
    pub fn dup(&mut self) -> (r: Result<(), Error>)
        requires
            old(self).wf(),
        ensures
            final(self).wf(),
            (final(self)@, r) == old(self)@.spec_dup(),
            final(self)@.ran_from(old(self)@),
            final(self)@.steps_left == old(self)@.steps_left,
            final(self)@.calls.len() == old(self)@.calls.len(),
            !(r matches Err(Error::PendingCallAgain)),
    {
        match self.data_stack.try_peek() {
            Ok(a) => self.give1(a),
            Err(e) => Err(Error::Stack(e)),
        }
    }

    /// `over`: the second cell, once more.
    pub fn over(&mut self) -> (r: Result<(), Error>)
        requires
            old(self).wf(),
        ensures
            final(self).wf(),
            (final(self)@, r) == old(self)@.spec_over(),
            final(self)@.ran_from(old(self)@),
            final(self)@.steps_left == old(self)@.steps_left,
            final(self)@.calls.len() == old(self)@.calls.len(),
            !(r matches Err(Error::PendingCallAgain)),
    {
        match self.data_stack.try_peek_back_n(1) {
            Ok(a) => self.give1(a),
            Err(e) => Err(Error::Stack(e)),
        }
    }

    /// `2over`: the second pair of cells, once more.
    pub fn over_2(&mut self) -> (r: Result<(), Error>)
        requires
            old(self).wf(),
        ensures
            final(self).wf(),
            (final(self)@, r) == old(self)@.spec_over_2(),
            final(self)@.ran_from(old(self)@),
            final(self)@.steps_left == old(self)@.steps_left,
            final(self)@.calls.len() == old(self)@.calls.len(),
            !(r matches Err(Error::PendingCallAgain)),
    {
        let a = match self.data_stack.try_peek_back_n(2) {
            Ok(a) => a,
            Err(e) => return Err(Error::Stack(e)),
        };
        match self.data_stack.try_peek_back_n(3) {
            Ok(b) => self.give2(b, a),
            Err(e) => Err(Error::Stack(e)),
        }
    }

    /// `/`: the second cell divided by the top cell, rounded toward zero; `DivideByZero` for a top cell of 0.
    pub fn div(&mut self) -> (r: Result<(), Error>)
        requires
            old(self).wf(),
        ensures
            final(self).wf(),
            (final(self)@, r) == old(self)@.spec_div(),
            final(self)@.ran_from(old(self)@),
            final(self)@.steps_left == old(self)@.steps_left,
            final(self)@.calls.len() == old(self)@.calls.len(),
            !(r matches Err(Error::PendingCallAgain)),
    {
        let (a, b) = self.take2()?;
        if a.data == 0 {
            return Err(Error::DivideByZero);
        }
        self.give1(Word::data(wrapping_div(b.data, a.data)))
    }

    /// `mod`: the remainder of the second cell divided by the top cell; `DivideByZero` for a top cell of 0.
    pub fn modu(&mut self) -> (r: Result<(), Error>)
        requires
            old(self).wf(),
        ensures
            final(self).wf(),
            (final(self)@, r) == old(self)@.spec_modu(),
            final(self)@.ran_from(old(self)@),
            final(self)@.steps_left == old(self)@.steps_left,
            final(self)@.calls.len() == old(self)@.calls.len(),
            !(r matches Err(Error::PendingCallAgain)),
    {
        let (a, b) = self.take2()?;
        if a.data == 0 {
            return Err(Error::DivideByZero);
        }
        self.give1(Word::data(wrapping_rem(b.data, a.data)))
    }

    /// `/mod`: remainder, then quotient, of the second cell divided by the top cell.
    pub fn div_mod(&mut self) -> (r: Result<(), Error>)
        requires
            old(self).wf(),
        ensures
            final(self).wf(),
            (final(self)@, r) == old(self)@.spec_div_mod(),
            final(self)@.ran_from(old(self)@),
            final(self)@.steps_left == old(self)@.steps_left,
            final(self)@.calls.len() == old(self)@.calls.len(),
            !(r matches Err(Error::PendingCallAgain)),
    {
        let (a, b) = self.take2()?;
        if a.data == 0 {
            return Err(Error::DivideByZero);
        }
        self.give2(Word::data(wrapping_rem(b.data, a.data)), Word::data(wrapping_div(b.data, a.data)))
    }

    /// `*/`: the product of the third and second cells, kept in 64 bits, divided by the top cell; the quotient modulo 2^32.
    pub fn star_slash(&mut self) -> (r: Result<(), Error>)
        requires
            old(self).wf(),
        ensures
            final(self).wf(),
            (final(self)@, r) == old(self)@.spec_star_slash(),
            final(self)@.ran_from(old(self)@),
            final(self)@.steps_left == old(self)@.steps_left,
            final(self)@.calls.len() == old(self)@.calls.len(),
            !(r matches Err(Error::PendingCallAgain)),
    {
        let (a, b, c) = self.take3()?;
        if a.data == 0 {
            return Err(Error::DivideByZero);
        }
        assert(-0x4000_0000_0000_0000 <= (c.data as int) * (b.data as int) <= 0x4000_0000_0000_0000)
            by (nonlinear_arith)
            requires
                -0x8000_0000 <= c.data <= 0x7FFF_FFFF,
                -0x8000_0000 <= b.data <= 0x7FFF_FFFF,
        ;
        let top: i64 = (c.data as i64) * (b.data as i64);
        let div: i64 = a.data as i64;
        proof {
            crate::word::lemma_quotient_bound(
                if top >= 0 {
                    top as int
                } else {
                    -(top as int)
                },
                div as int,
            );
        }
        self.give1(Word::data(wrap_i64(top / div)))
    }

    /// `*/mod`: remainder, then quotient, of the product of the third and second cells divided by the top cell.
    pub fn star_slash_mod(&mut self) -> (r: Result<(), Error>)
        requires
            old(self).wf(),
        ensures
            final(self).wf(),
            (final(self)@, r) == old(self)@.spec_star_slash_mod(),
            final(self)@.ran_from(old(self)@),
            final(self)@.steps_left == old(self)@.steps_left,
            final(self)@.calls.len() == old(self)@.calls.len(),
            !(r matches Err(Error::PendingCallAgain)),
    {
        let (a, b, c) = self.take3()?;
        if a.data == 0 {
            return Err(Error::DivideByZero);
        }
        assert(-0x4000_0000_0000_0000 <= (c.data as int) * (b.data as int) <= 0x4000_0000_0000_0000)
            by (nonlinear_arith)
            requires
                -0x8000_0000 <= c.data <= 0x7FFF_FFFF,
                -0x8000_0000 <= b.data <= 0x7FFF_FFFF,
        ;
        let top: i64 = (c.data as i64) * (b.data as i64);
        let div: i64 = a.data as i64;
        proof {
            crate::word::lemma_quotient_bound(
                if top >= 0 {
                    top as int
                } else {
                    -(top as int)
                },
                div as int,
            );
        }
        self.give2(Word::data(wrap_i64(top % div)), Word::data(wrap_i64(top / div)))
    }

    /// `0=`: puts 0 on the stack, then does `=`.
    pub fn zero_equal(&mut self) -> (r: Result<(), Error>)
        requires
            old(self).wf(),
        ensures
            final(self).wf(),
            (final(self)@, r) == old(self)@.spec_zero_equal(),
            final(self)@.ran_from(old(self)@),
            final(self)@.steps_left == old(self)@.steps_left,
            final(self)@.calls.len() == old(self)@.calls.len(),
            !(r matches Err(Error::PendingCallAgain)),
    {
        self.give1(Word::data(0))?;
        self.equal()
    }

    /// `0>`: puts 0 on the stack, then does `>`.
    pub fn zero_greater(&mut self) -> (r: Result<(), Error>)
        requires
            old(self).wf(),
        ensures
            final(self).wf(),
            (final(self)@, r) == old(self)@.spec_zero_greater(),
            final(self)@.ran_from(old(self)@),
            final(self)@.steps_left == old(self)@.steps_left,
            final(self)@.calls.len() == old(self)@.calls.len(),
            !(r matches Err(Error::PendingCallAgain)),
    {
        self.give1(Word::data(0))?;
        self.greater()
    }

    /// `0<`: puts 0 on the stack, then does `<`.
    pub fn zero_less(&mut self) -> (r: Result<(), Error>)
        requires
            old(self).wf(),
        ensures
            final(self).wf(),
            (final(self)@, r) == old(self)@.spec_zero_less(),
            final(self)@.ran_from(old(self)@),
            final(self)@.steps_left == old(self)@.steps_left,
            final(self)@.calls.len() == old(self)@.calls.len(),
            !(r matches Err(Error::PendingCallAgain)),
    {
        self.give1(Word::data(0))?;
        self.less()
    }

    /// `cr`: writes a line feed.
    pub fn cr(&mut self) -> (r: Result<(), Error>)
        requires
            old(self).wf(),
        ensures
            final(self).wf(),
            (final(self)@, r) == old(self)@.spec_cr(),
            final(self)@.ran_from(old(self)@),
            final(self)@.steps_left == old(self)@.steps_left,
            final(self)@.calls.len() == old(self)@.calls.len(),
            !(r matches Err(Error::PendingCallAgain)),
    {
        self.put_byte(10)
    }

    /// `space`: writes a blank.
    pub fn space(&mut self) -> (r: Result<(), Error>)
        requires
            old(self).wf(),
        ensures
            final(self).wf(),
            (final(self)@, r) == old(self)@.spec_space(),
            final(self)@.ran_from(old(self)@),
            final(self)@.steps_left == old(self)@.steps_left,
            final(self)@.calls.len() == old(self)@.calls.len(),
            !(r matches Err(Error::PendingCallAgain)),
    {
        self.put_byte(32)
    }

    /// `emit`: takes the top cell and writes its low eight bits as one byte.
    pub fn emit(&mut self) -> (r: Result<(), Error>)
        requires
            old(self).wf(),
        ensures
            final(self).wf(),
            (final(self)@, r) == old(self)@.spec_emit(),
            final(self)@.ran_from(old(self)@),
            final(self)@.steps_left == old(self)@.steps_left,
            final(self)@.calls.len() == old(self)@.calls.len(),
            !(r matches Err(Error::PendingCallAgain)),
    {
        let a = self.take1()?;
        self.put_byte(
            #[verifier::truncate]
            (a.data as u8),
        )
    }

    /// `.`: takes the top cell and writes it in decimal, then a blank.
    pub fn pop_print(&mut self) -> (r: Result<(), Error>)
        requires
            old(self).wf(),
        ensures
            final(self).wf(),
            (final(self)@, r) == old(self)@.spec_pop_print(),
            final(self)@.ran_from(old(self)@),
            final(self)@.steps_left == old(self)@.steps_left,
            final(self)@.calls.len() == old(self)@.calls.len(),
            !(r matches Err(Error::PendingCallAgain)),
    {
        let a = self.take1()?;
        self.put_decimal(a.data as i64)
    }

    /// `u.`: takes the top cell and writes its bit pattern as an unsigned decimal, then a blank.
    pub fn unsigned_pop_print(&mut self) -> (r: Result<(), Error>)
        requires
            old(self).wf(),
        ensures
            final(self).wf(),
            (final(self)@, r) == old(self)@.spec_unsigned_pop_print(),
            final(self)@.ran_from(old(self)@),
            final(self)@.steps_left == old(self)@.steps_left,
            final(self)@.calls.len() == old(self)@.calls.len(),
            !(r matches Err(Error::PendingCallAgain)),
    {
        let a = self.take1()?;
        let u: i64 = if a.data >= 0 {
            a.data as i64
        } else {
            a.data as i64 + 0x1_0000_0000
        };
        self.put_decimal(u)
    }

    /// `d>r`: moves the top cell of the data stack to the return stack.
    pub fn data_to_return_stack(&mut self) -> (r: Result<(), Error>)
        requires
            old(self).wf(),
        ensures
            final(self).wf(),
            (final(self)@, r) == old(self)@.spec_data_to_return_stack(),
            final(self)@.ran_from(old(self)@),
            final(self)@.steps_left == old(self)@.steps_left,
            final(self)@.calls.len() == old(self)@.calls.len(),
            !(r matches Err(Error::PendingCallAgain)),
    {
        let a = self.take1()?;
        self.rgive1(a)
    }

    /// `2d>2r`: moves the top two cells of the data stack to the return stack; the one that was on top is on top.
    pub fn data2_to_return2_stack(&mut self) -> (r: Result<(), Error>)
        requires
            old(self).wf(),
        ensures
            final(self).wf(),
            (final(self)@, r) == old(self)@.spec_data2_to_return2_stack(),
            final(self)@.ran_from(old(self)@),
            final(self)@.steps_left == old(self)@.steps_left,
            final(self)@.calls.len() == old(self)@.calls.len(),
            !(r matches Err(Error::PendingCallAgain)),
    {
        let (a, b) = self.take2()?;
        self.rgive2(b, a)
    }

    /// `r>d`: moves the top cell of the return stack to the data stack.
    pub fn return_to_data_stack(&mut self) -> (r: Result<(), Error>)
        requires
            old(self).wf(),
        ensures
            final(self).wf(),
            (final(self)@, r) == old(self)@.spec_return_to_data_stack(),
            final(self)@.ran_from(old(self)@),
            final(self)@.steps_left == old(self)@.steps_left,
            final(self)@.calls.len() == old(self)@.calls.len(),
            !(r matches Err(Error::PendingCallAgain)),
    {
        let a = self.rtake1()?;
        self.give1(a)
    }

    /// `i`: the counter of the innermost loop: a copy of the top cell of the return stack.
    pub fn loop_i(&mut self) -> (r: Result<(), Error>)
        requires
            old(self).wf(),
        ensures
            final(self).wf(),
            (final(self)@, r) == old(self)@.spec_loop_i(),
            final(self)@.ran_from(old(self)@),
            final(self)@.steps_left == old(self)@.steps_left,
            final(self)@.calls.len() == old(self)@.calls.len(),
            !(r matches Err(Error::PendingCallAgain)),
    {
        match self.return_stack.try_peek_back_n(0) {
            Ok(a) => self.give1(a),
            Err(e) => Err(Error::Stack(e)),
        }
    }

    /// `i'`: the limit of the innermost loop: a copy of the second cell of the return stack.
    pub fn loop_itick(&mut self) -> (r: Result<(), Error>)
        requires
            old(self).wf(),
        ensures
            final(self).wf(),
            (final(self)@, r) == old(self)@.spec_loop_itick(),
            final(self)@.ran_from(old(self)@),
            final(self)@.steps_left == old(self)@.steps_left,
            final(self)@.calls.len() == old(self)@.calls.len(),
            !(r matches Err(Error::PendingCallAgain)),
    {
        match self.return_stack.try_peek_back_n(1) {
            Ok(a) => self.give1(a),
            Err(e) => Err(Error::Stack(e)),
        }
    }

    /// `j`: the counter of the loop around the innermost: a copy of the third cell of the return stack.
    pub fn loop_j(&mut self) -> (r: Result<(), Error>)
        requires
            old(self).wf(),
        ensures
            final(self).wf(),
            (final(self)@, r) == old(self)@.spec_loop_j(),
            final(self)@.ran_from(old(self)@),
            final(self)@.steps_left == old(self)@.steps_left,
            final(self)@.calls.len() == old(self)@.calls.len(),
            !(r matches Err(Error::PendingCallAgain)),
    {
        match self.return_stack.try_peek_back_n(2) {
            Ok(a) => self.give1(a),
            Err(e) => Err(Error::Stack(e)),
        }
    }

    /// `leave`: replaces the counter of the innermost loop by its limit less one, so that the loop ends after this round.
    pub fn loop_leave(&mut self) -> (r: Result<(), Error>)
        requires
            old(self).wf(),
        ensures
            final(self).wf(),
            (final(self)@, r) == old(self)@.spec_loop_leave(),
            final(self)@.ran_from(old(self)@),
            final(self)@.steps_left == old(self)@.steps_left,
            final(self)@.calls.len() == old(self)@.calls.len(),
            !(r matches Err(Error::PendingCallAgain)),
    {
        let _ = self.rtake1()?;
        match self.return_stack.try_peek() {
            Ok(a) => self.rgive1(Word::data(wrapping_sub(a.data, 1))),
            Err(e) => Err(Error::Stack(e)),
        }
    }

    /// `@`: takes an address and puts the cell that the arena holds there; `BadAddress` where the cell does not lie in the arena.
    pub fn var_load(&mut self) -> (r: Result<(), Error>)
        requires
            old(self).wf(),
        ensures
            final(self).wf(),
            (final(self)@, r) == old(self)@.spec_var_load(),
            final(self)@.ran_from(old(self)@),
            final(self)@.steps_left == old(self)@.steps_left,
            final(self)@.calls.len() == old(self)@.calls.len(),
            !(r matches Err(Error::PendingCallAgain)),
    {
        let a = self.take1()?;
        if a.data < 0 {
            return Err(Error::BadAddress);
        }
        match self.dict_alloc.read_word(a.data as usize) {
            Some(w) => self.give1(w),
            None => Err(Error::BadAddress),
        }
    }

    /// `!`: takes an address, then a cell, and stores the cell at the address; `BadAddress` where it does not lie in the arena.
    pub fn var_store(&mut self) -> (r: Result<(), Error>)
        requires
            old(self).wf(),
        ensures
            final(self).wf(),
            (final(self)@, r) == old(self)@.spec_var_store(),
            final(self)@.ran_from(old(self)@),
            final(self)@.steps_left == old(self)@.steps_left,
            final(self)@.calls.len() == old(self)@.calls.len(),
            !(r matches Err(Error::PendingCallAgain)),
    {
        let (a, b) = self.take2()?;
        if a.data < 0 {
            return Err(Error::BadAddress);
        }
        if self.dict_alloc.write_word(a.data as usize, b) {
            Ok(())
        } else {
            Err(Error::BadAddress)
        }
    }

}

/// `n` blanks.
pub open spec fn blanks(n: nat) -> Seq<u8> {
    Seq::new(n, |i: int| 32u8)
}

/// The address of cell `i` of the body of the word that `frame` executes.
pub open spec fn body_addr(frame: CallContext, i: int) -> int {
    frame.eh + ENTRY_SIZE + 4 * i
}

impl<T> ForthView<T> {
    /// `spaces`: takes a count and writes as many blanks, as far as they fit;
    /// `LoopCountIsNegative` for a count below 0.
    pub open spec fn spec_spaces(self) -> (ForthView<T>, Result<(), Error>) {
        let n = self.top(0).data;
        let room = self.output_cap - self.output.len();
        if self.data.len() < 1 {
            (self.taken(1), Err(Error::Stack(StackError::StackEmpty)))
        } else if n < 0 {
            (self.taken(1), Err(Error::LoopCountIsNegative))
        } else if n <= room {
            (ForthView { output: self.output + blanks(n as nat), ..self.taken(1) }, Ok(()))
        } else {
            (
                ForthView { output: self.output + blanks(room as nat), ..self.taken(1) },
                Err(Error::Output(OutputError::Full)),
            )
        }
    }

    /// The cell behind the one that `frame` stands at: the operand of the
    /// word that is being executed.
    pub open spec fn next_word(self, frame: CallContext) -> Result<Word, Error> {
        if frame.idx + 1 >= frame.len {
            Err(Error::BadCfaOffset)
        } else if !self.arena.holds(body_addr(frame, frame.idx + 1), 4) {
            Err(Error::BadAddress)
        } else {
            Ok(self.arena.read_word(body_addr(frame, frame.idx + 1)))
        }
    }

    /// The frame below the top of the call stack: the caller of the word that
    /// is being executed.
    pub open spec fn parent(self) -> CallContext {
        self.calls[self.calls.len() - 2]
    }

    pub open spec fn with_parent(self, frame: CallContext) -> ForthView<T> {
        ForthView { calls: self.calls.update(self.calls.len() - 2, frame), ..self }
    }

    /// Moving the caller's index by `offset` cells.
    pub open spec fn move_parent(self, offset: i32) -> (ForthView<T>, Result<(), Error>) {
        match self.parent().spec_offset(offset) {
            Some(idx) => (self.with_parent(CallContext { idx, ..self.parent() }), Ok(())),
            None => (self, Err(Error::BadCfaOffset)),
        }
    }

    /// Steps the caller over the operand cell.
    pub open spec fn spec_skip_literal(self) -> (ForthView<T>, Result<(), Error>) {
        if self.calls.len() < 2 {
            (self, Err(Error::Stack(StackError::StackEmpty)))
        } else {
            self.move_parent(1)
        }
    }

    /// `(jmp)`: moves the caller by as many cells as the operand says.
    pub open spec fn spec_jump(self) -> (ForthView<T>, Result<(), Error>) {
        if self.calls.len() < 2 {
            (self, Err(Error::Stack(StackError::StackEmpty)))
        } else {
            match self.next_word(self.parent()) {
                Err(e) => (self, Err(e)),
                Ok(w) => self.move_parent(w.data),
            }
        }
    }

    /// `(literal)`: steps the caller over the operand and puts the operand on
    /// the data stack.
    pub open spec fn spec_literal(self) -> (ForthView<T>, Result<(), Error>) {
        if self.calls.len() < 2 {
            (self, Err(Error::Stack(StackError::StackEmpty)))
        } else {
            match self.next_word(self.parent()) {
                Err(e) => (self, Err(e)),
                Ok(w) => if self.move_parent(1).1.is_err() {
                    self.move_parent(1)
                } else {
                    self.move_parent(1).0.give(seq![w])
                },
            }
        }
    }

    /// `(jump-zero)`: takes the top cell; jumps where it is 0, else steps
    /// over the operand.
    pub open spec fn spec_jump_if_zero(self) -> (ForthView<T>, Result<(), Error>) {
        if self.data.len() < 1 {
            (self.taken(1), Err(Error::Stack(StackError::StackEmpty)))
        } else if self.top(0).data == 0 {
            self.taken(1).spec_jump()
        } else {
            self.taken(1).spec_skip_literal()
        }
    }

    /// `(jmp-doloop)`: adds one to the counter on top of the return stack.
    /// Where it now differs from the limit below it, the loop goes on: the
    /// counter is put back and the jump is taken. Else counter and limit go,
    /// and the caller steps over the operand.
    pub open spec fn spec_jump_doloop(self) -> (ForthView<T>, Result<(), Error>) {
        let ctr = Word { data: wrap32(self.rtop(0).data + 1) };
        if self.ret.len() < 2 {
            (self.rtaken(1), Err(Error::Stack(StackError::StackEmpty)))
        } else if ctr != self.rtop(1) {
            self.rtaken(1).rgiven(seq![ctr]).spec_jump()
        } else {
            self.rtaken(2).spec_skip_literal()
        }
    }

    /// How many cells a string of `n` bytes takes, with the cell for its length.
    pub open spec fn str_cells(n: int) -> int {
        1 + (n + 3) / 4
    }

    /// `(write-str)`: the operand is the length of a string that follows it
    /// in the body; writes the string and steps the caller over both.
    pub open spec fn spec_write_str_lit(self) -> (ForthView<T>, Result<(), Error>) {
        let p = self.parent();
        if self.calls.len() < 2 {
            (self, Err(Error::Stack(StackError::StackEmpty)))
        } else {
            match self.next_word(p) {
                Err(e) => (self, Err(e)),
                Ok(w) => if w.data < 0 || w.data > u16::MAX {
                    (self, Err(Error::LiteralStringTooLong))
                } else if p.idx + 1 + Self::str_cells(w.data as int) > p.len {
                    (self, Err(Error::BadCfaOffset))
                } else if !self.arena.holds(body_addr(p, p.idx + 2), w.data as int) {
                    (self, Err(Error::BadAddress))
                } else if self.put(self.arena.bytes(body_addr(p, p.idx + 2), w.data as int)).1.is_err() {
                    self.put(self.arena.bytes(body_addr(p, p.idx + 2), w.data as int))
                } else {
                    self.put(self.arena.bytes(body_addr(p, p.idx + 2), w.data as int)).0.move_parent(
                        Self::str_cells(w.data as int) as i32,
                    )
                },
            }
        }
    }

    /// `(constant)`: puts the first cell of the body of the word that is
    /// being executed on the data stack.
    pub open spec fn spec_constant(self) -> (ForthView<T>, Result<(), Error>) {
        if self.calls.len() < 1 {
            (self, Err(Error::Stack(StackError::StackEmpty)))
        } else if !self.arena.holds(body_addr(self.calls.last(), 0), 4) {
            (self, Err(Error::BadAddress))
        } else {
            self.give(seq![self.arena.read_word(body_addr(self.calls.last(), 0))])
        }
    }

    /// `(variable)`: puts the address of the first cell of the body of the
    /// word that is being executed on the data stack.
    pub open spec fn spec_variable(self) -> (ForthView<T>, Result<(), Error>) {
        if self.calls.len() < 1 {
            (self, Err(Error::Stack(StackError::StackEmpty)))
        } else if body_addr(self.calls.last(), 0) > i32::MAX {
            (self, Err(Error::BadAddress))
        } else {
            self.give(seq![Word { data: body_addr(self.calls.last(), 0) as i32 }])
        }
    }

    /// `forget`: reads a name, gives up the newest word of that name and
    /// every word defined after it, and takes the arena back from that word's
    /// entry on.
    pub open spec fn spec_forget(self) -> (ForthView<T>, Result<(), Error>) {
        let s = ForthView { input: self.input.advanced(), ..self };
        match s.input.word() {
            None => (s, Err(Error::ForgetWithoutWordName)),
            Some(w) => match s.find_in_dict(NameView::of(w)) {
                None => if s.find_in_bis(NameView::of(w)).is_some() || s.find_in_async(
                    NameView::of(w),
                ).is_some() {
                    (s, Err(Error::CantForgetBuiltins))
                } else {
                    (s, Err(Error::ForgetNotInDict))
                },
                Some(addr) => (
                    ForthView {
                        tail: s.arena.raw_entry(addr as int).link,
                        arena: s.arena.rewound(addr as nat),
                        ..s
                    },
                    Ok(()),
                ),
            },
        }
    }
}

impl<T> Forth<T> {
    /// `spaces`: takes a count and writes as many blanks.
    pub fn spaces(&mut self) -> (r: Result<(), Error>)
        requires
            old(self).wf(),
        ensures
            final(self).wf(),
            (final(self)@, r) == old(self)@.spec_spaces(),
            final(self)@.ran_from(old(self)@),
            final(self)@.steps_left == old(self)@.steps_left,
            final(self)@.calls.len() == old(self)@.calls.len(),
            !(r matches Err(Error::PendingCallAgain)),
    {
        let num = self.take1()?;
        let num = num.data;
        if num < 0 {
            return Err(Error::LoopCountIsNegative);
        }
        let ghost base = self@;
        let mut i: i32 = 0;
        while i < num
            invariant
                self.wf(),
                0 <= i <= num,
                base == old(self)@.taken(1),
                old(self)@.data.len() >= 1,
                old(self)@.top(0).data == num,
                base.output.len() + i <= base.output_cap,
                self@ == (ForthView { output: base.output + blanks(i as nat), ..base }),
            decreases num - i,
        {
            match self.put_byte(32) {
                Ok(()) => {
                    assert(self@.output =~= base.output + blanks((i + 1) as nat));
                },
                Err(e) => {
                    assert(i == base.output_cap - base.output.len());
                    assert(self@.output =~= base.output + blanks(i as nat));
                    return Err(e);
                },
            }
            i += 1;
        }
        Ok(())
    }

    /// The caller's frame.
    pub fn parent_frame(&self) -> (r: Result<CallContext, Error>)
        requires
            self.wf(),
        ensures
            r == if self@.calls.len() >= 2 {
                Ok::<CallContext, Error>(self@.parent())
            } else {
                Err::<CallContext, Error>(Error::Stack(StackError::StackEmpty))
            },
    {
        match self.call_stack.try_peek_back_n(1) {
            Ok(f) => Ok(f),
            Err(e) => Err(Error::Stack(e)),
        }
    }

    /// Moves the caller's index by `offset` cells.
    pub fn move_parent(&mut self, offset: i32) -> (r: Result<(), Error>)
        requires
            old(self).wf(),
            old(self)@.calls.len() >= 2,
        ensures
            final(self).wf(),
            (final(self)@, r) == old(self)@.move_parent(offset),
    {
        let mut parent = match self.call_stack.try_peek_back_n(1) {
            Ok(f) => f,
            Err(e) => return Err(Error::Stack(e)),
        };
        parent.offset(offset)?;
        let _ = self.call_stack.overwrite_back_n(1, parent);
        Ok(())
    }

    /// The operand of the word that is being executed from `frame`.
    pub fn next_word(&self, frame: CallContext) -> (r: Result<Word, Error>)
        requires
            self.wf(),
        ensures
            r == self@.next_word(frame),
    {
        if frame.idx as u32 + 1 >= frame.len as u32 {
            return Err(Error::BadCfaOffset);
        }
        if frame.eh >= ARENA_LIMIT {
            return Err(Error::BadAddress);
        }
        let addr = frame.eh as usize + 20 + 4 * (frame.idx as usize + 1);
        match self.dict_alloc.read_word(addr) {
            Some(w) => Ok(w),
            None => Err(Error::BadAddress),
        }
    }

    /// Steps the caller over the operand cell.
    pub fn skip_literal(&mut self) -> (r: Result<(), Error>)
        requires
            old(self).wf(),
        ensures
            final(self).wf(),
            (final(self)@, r) == old(self)@.spec_skip_literal(),
            final(self)@.ran_from(old(self)@),
            final(self)@.steps_left == old(self)@.steps_left,
            final(self)@.calls.len() == old(self)@.calls.len(),
            !(r matches Err(Error::PendingCallAgain)),
    {
        let _ = self.parent_frame()?;
        self.move_parent(1)
    }

    /// `(jmp)`: moves the caller by as many cells as the operand says.
    pub fn jump(&mut self) -> (r: Result<(), Error>)
        requires
            old(self).wf(),
        ensures
            final(self).wf(),
            (final(self)@, r) == old(self)@.spec_jump(),
            final(self)@.ran_from(old(self)@),
            final(self)@.steps_left == old(self)@.steps_left,
            final(self)@.calls.len() == old(self)@.calls.len(),
            !(r matches Err(Error::PendingCallAgain)),
    {
        let parent = self.parent_frame()?;
        let offset = self.next_word(parent)?;
        self.move_parent(offset.data)
    }

    /// `(literal)` is used mid-interpret to put the NEXT word of the parent's
    /// CFA array into the stack as a value.
    pub fn literal(&mut self) -> (r: Result<(), Error>)
        requires
            old(self).wf(),
        ensures
            final(self).wf(),
            (final(self)@, r) == old(self)@.spec_literal(),
            final(self)@.ran_from(old(self)@),
            final(self)@.steps_left == old(self)@.steps_left,
            final(self)@.calls.len() == old(self)@.calls.len(),
            !(r matches Err(Error::PendingCallAgain)),
    {
        let parent = self.parent_frame()?;
        let literal = self.next_word(parent)?;
        self.move_parent(1)?;
        self.give1(literal)
    }

    /// `(jump-zero)`: takes the top cell; jumps where it is 0.
    pub fn jump_if_zero(&mut self) -> (r: Result<(), Error>)
        requires
            old(self).wf(),
        ensures
            final(self).wf(),
            (final(self)@, r) == old(self)@.spec_jump_if_zero(),
            final(self)@.ran_from(old(self)@),
            final(self)@.steps_left == old(self)@.steps_left,
            final(self)@.calls.len() == old(self)@.calls.len(),
            !(r matches Err(Error::PendingCallAgain)),
    {
        let val = self.take1()?;
        if val.data == 0 {
            self.jump()
        } else {
            self.skip_literal()
        }
    }

    /// `(jmp-doloop)`: counts the loop up and jumps back while it goes on.
    pub fn jump_doloop(&mut self) -> (r: Result<(), Error>)
        requires
            old(self).wf(),
        ensures
            final(self).wf(),
            (final(self)@, r) == old(self)@.spec_jump_doloop(),
            final(self)@.ran_from(old(self)@),
            final(self)@.steps_left == old(self)@.steps_left,
            final(self)@.calls.len() == old(self)@.calls.len(),
            !(r matches Err(Error::PendingCallAgain)),
    {
        let a = self.rtake1()?;
        let b = match self.return_stack.try_peek() {
            Ok(b) => b,
            Err(e) => return Err(Error::Stack(e)),
        };
        let ctr = Word::data(wrapping_add(a.data, 1));
        let do_jmp = ctr.data != b.data;
        if do_jmp {
            self.rgive1(ctr)?;
            self.jump()
        } else {
            let _ = self.rtake1()?;
            assert(self@.ret =~= old(self)@.rtaken(2).ret);
            self.skip_literal()
        }
    }

    /// `(write-str)`: writes the string that follows in the caller's body.
    pub fn write_str_lit(&mut self) -> (r: Result<(), Error>)
        requires
            old(self).wf(),
        ensures
            final(self).wf(),
            (final(self)@, r) == old(self)@.spec_write_str_lit(),
            final(self)@.ran_from(old(self)@),
            final(self)@.steps_left == old(self)@.steps_left,
            final(self)@.calls.len() == old(self)@.calls.len(),
            !(r matches Err(Error::PendingCallAgain)),
    {
        let parent = self.parent_frame()?;
        // The length in bytes is stored in the next word.
        let len = self.next_word(parent)?;
        if len.data < 0 || len.data > 0xFFFF {
            return Err(Error::LiteralStringTooLong);
        }
        let len_u16 = len.data as u16;
        // Now we need to figure out how many words our inline string takes up
        let len_words: u32 = 1 + (len_u16 as u32 + 3) / 4;
        if parent.idx as u32 + 1 + len_words > parent.len as u32 {
            return Err(Error::BadCfaOffset);
        }
        let start = parent.eh as usize + 20 + 4 * (parent.idx as usize + 2);
        match self.dict_alloc.bytes(start, len_u16 as usize) {
            None => {
                return Err(Error::BadAddress);
            },
            Some(text) => {
                match self.output.push_bstr(text) {
                    Ok(()) => {},
                    Err(e) => {
                        return Err(Error::Output(e));
                    },
                }
            },
        }
        self.move_parent(len_words as i32)
    }

    /// `(constant)`: puts the first cell of the body of the word that is
    /// being executed on the data stack.
    pub fn constant(&mut self) -> (r: Result<(), Error>)
        requires
            old(self).wf(),
        ensures
            final(self).wf(),
            (final(self)@, r) == old(self)@.spec_constant(),
            final(self)@.ran_from(old(self)@),
            final(self)@.steps_left == old(self)@.steps_left,
            final(self)@.calls.len() == old(self)@.calls.len(),
            !(r matches Err(Error::PendingCallAgain)),
    {
        let me = match self.call_stack.try_peek() {
            Ok(f) => f,
            Err(e) => return Err(Error::Stack(e)),
        };
        if me.eh >= ARENA_LIMIT {
            return Err(Error::BadAddress);
        }
        match self.dict_alloc.read_word(me.eh as usize + 20) {
            Some(val) => self.give1(val),
            None => Err(Error::BadAddress),
        }
    }

    /// `(variable)`: puts the address of the first cell of the body of the
    /// word that is being executed on the data stack.
    pub fn variable(&mut self) -> (r: Result<(), Error>)
        requires
            old(self).wf(),
        ensures
            final(self).wf(),
            (final(self)@, r) == old(self)@.spec_variable(),
            final(self)@.ran_from(old(self)@),
            final(self)@.steps_left == old(self)@.steps_left,
            final(self)@.calls.len() == old(self)@.calls.len(),
            !(r matches Err(Error::PendingCallAgain)),
    {
        let me = match self.call_stack.try_peek() {
            Ok(f) => f,
            Err(e) => return Err(Error::Stack(e)),
        };
        if me.eh > 0x7FFF_FFFF - 20 {
            return Err(Error::BadAddress);
        }
        self.give1(Word::ptr(me.eh + 20))
    }

    /// `forget`: reads a name and gives up the newest word of that name with
    /// every word defined after it.
    pub fn forget(&mut self) -> (r: Result<(), Error>)
        requires
            old(self).wf(),
        ensures
            final(self).wf(),
            (final(self)@, r) == old(self)@.spec_forget(),
            final(self)@.ran_from(old(self)@),
            final(self)@.steps_left == old(self)@.steps_left,
            final(self)@.calls.len() == old(self)@.calls.len(),
            !(r matches Err(Error::PendingCallAgain)),
    {
        self.input.advance();
        let word = match self.input.cur_word() {
            None => return Err(Error::ForgetWithoutWordName),
            Some(s) => s,
        };
        let word_tmp = FaStr::new(word);
        let defn = match self.find_in_dict(&word_tmp) {
            None => {
                if self.find_in_bis(&word_tmp).is_some() || self.find_in_async(&word_tmp).is_some() {
                    return Err(Error::CantForgetBuiltins);
                } else {
                    return Err(Error::ForgetNotInDict);
                }
            },
            Some(d) => d,
        };
        let link = match self.dict_alloc.entry_at::<T>(defn) {
            Some(de) => de.link,
            None => return Err(Error::InternalError),
        };
        if !self.dict_alloc.rewind(defn as usize) {
            return Err(Error::InternalError);
        }
        self.run_dict_tail = link;
        Ok(())
    }
}

/// What a cell of a body, or a frame, names.
#[derive(Clone, Copy, Debug, PartialEq, Eq, Structural)]
pub enum Target {
    /// A word that the machine runs: its routine and the length of its body.
    Word { func: WordFunc, len: u16 },
    /// A word that the host runs, by its index in the host's table.
    Async { index: u32 },
}

impl<T> ForthView<T> {
    /// `:` from the name on: the name is interned, room for the entry is
    /// taken, and the tokens up to `;` are compiled behind it.
    pub open spec fn spec_colon(self) -> (ForthView<T>, Result<(), Error>) {
        let s0 = self.advanced();
        let s1 = ForthView { mode: Mode::Compile, ..s0 };
        let name = s0.input.word().unwrap();
        let s2 = ForthView { arena: s1.arena.interned(name), ..s1 };
        let s3 = ForthView { arena: s2.arena.bumped(ENTRY_SIZE as nat, 4), ..s2 };
        if s0.input.word().is_none() {
            (s0, Err(Error::ColonCompileMissingName))
        } else if s1.arena.intern_result(name).is_err() {
            (s1, Err(Error::Bump(s1.arena.intern_result(name).unwrap_err())))
        } else if !s2.arena.bump_fits(ENTRY_SIZE as nat, 4) {
            (s3, Err(Error::Bump(BumpError::OutOfMemory)))
        } else {
            s3.colon_body(
                0,
                (s1.arena.cur as u32, len_hash_of(lower(name_prefix(name)))),
                s2.arena.bump_addr(4) as u32,
                self.mode,
            )
        }
    }

    /// The machine after the definition was closed: its entry stands at
    /// `base` and is the newest of the dictionary.
    pub open spec fn defined(self, len: u16, name: (u32, u32), base: u32, mode: Mode) -> ForthView<
        T,
    > {
        ForthView {
            arena: self.arena.store_entry(
                base as int,
                RawEntry {
                    name_addr: name.0,
                    len_hash: name.1,
                    kind: EntryKind::Dictionary.spec_code(),
                    len,
                    func: WordFunc::Interpret.spec_code(),
                    link: self.tail,
                },
            ),
            tail: base,
            mode,
            ..self
        }
    }

    /// Compiling the tokens of a definition of `len` cells so far, up to `;`.
    #[verifier::opaque]
    pub open spec fn colon_body(self, len: u16, name: (u32, u32), base: u32, mode: Mode) -> (
        ForthView<T>,
        Result<(), Error>,
    )
        decreases self.input.remaining(),
    {
        let one = self.munch_one(len);
        if one.0.input.remaining() < self.input.remaining() {
            Self::colon_of(one, name, base, mode, one.0.colon_body(one.1, name, base, mode))
        } else {
            Self::colon_of(one, name, base, mode, (one.0, Err(Error::InternalError)))
        }
    }

    /// Compiling the tokens of a definition, where `one` is what compiling
    /// the first gave and `rest` what compiling the others gives.
    pub open spec fn colon_of(
        one: (ForthView<T>, u16, Result<u16, Error>),
        name: (u32, u32),
        base: u32,
        mode: Mode,
        rest: (ForthView<T>, Result<(), Error>),
    ) -> (ForthView<T>, Result<(), Error>) {
        match one.2 {
            Err(e) => (one.0, Err(e)),
            Ok(n) => if n != 0 {
                rest
            } else if one.0.input.word().is_none() {
                (one.0, Err(Error::ColonCompileMissingSemicolon))
            } else if one.0.input.word().unwrap() == ";".spec_bytes() {
                (one.0.defined(one.1, name, base, mode), Ok(()))
            } else {
                rest
            },
        }
    }

    /// What the address `p` names: 0 nothing, an address from `BUILTIN_BASE`
    /// or `ASYNC_BASE` on a word of that table, any other the entry there.
    #[verifier::opaque]
    pub open spec fn resolve(self, p: u32) -> Result<Target, Error> {
        if p == 0 {
            Err(Error::NullPointerInCFA)
        } else if p >= ASYNC_BASE {
            if p - ASYNC_BASE < self.async_builtins.len() {
                Ok(Target::Async { index: (p - ASYNC_BASE) as u32 })
            } else {
                Err(Error::CFANotInDict)
            }
        } else if p >= BUILTIN_BASE {
            if p - BUILTIN_BASE < self.builtins.len() {
                Ok(
                    Target::Word {
                        func: self.builtins[p - BUILTIN_BASE].func,
                        len: self.builtins[p - BUILTIN_BASE].hdr.len,
                    },
                )
            } else {
                Err(Error::CFANotInDict)
            }
        } else if self.arena.entry_ok(p as int) {
            Ok(
                Target::Word {
                    func: WordFunc::spec_from_code(self.arena.raw_entry(p as int).func).unwrap(),
                    len: self.arena.raw_entry(p as int).len,
                },
            )
        } else {
            Err(Error::CFANotInDict)
        }
    }

    /// What the cell `w` names.
    pub open spec fn resolve_cell(self, w: Word) -> Result<Target, Error> {
        if w.data < 0 {
            Err(Error::CFANotInDict)
        } else {
            self.resolve(w.data as u32)
        }
    }

    /// Running the routine `func`, which is not the driver of compiled words.
    #[verifier::opaque]
    pub open spec fn run_plain(self, func: WordFunc) -> (ForthView<T>, Result<(), Error>) {
        match func {
            WordFunc::Add => self.spec_add(),
            WordFunc::Minus => self.spec_minus(),
            WordFunc::Div => self.spec_div(),
            WordFunc::Modu => self.spec_modu(),
            WordFunc::DivMod => self.spec_div_mod(),
            WordFunc::Mul => self.spec_mul(),
            WordFunc::Abs => self.spec_abs(),
            WordFunc::Negate => self.spec_negate(),
            WordFunc::Min => self.spec_min(),
            WordFunc::Max => self.spec_max(),
            WordFunc::StarSlash => self.spec_star_slash(),
            WordFunc::StarSlashMod => self.spec_star_slash_mod(),
            WordFunc::Invert => self.spec_invert(),
            WordFunc::And => self.spec_and(),
            WordFunc::Equal => self.spec_equal(),
            WordFunc::Greater => self.spec_greater(),
            WordFunc::Less => self.spec_less(),
            WordFunc::ZeroEqual => self.spec_zero_equal(),
            WordFunc::ZeroGreater => self.spec_zero_greater(),
            WordFunc::ZeroLess => self.spec_zero_less(),
            WordFunc::Swap => self.spec_swap(),
            WordFunc::Dup => self.spec_dup(),
            WordFunc::Over => self.spec_over(),
            WordFunc::Rot => self.spec_rot(),
            WordFunc::DsDrop => self.spec_ds_drop(),
            WordFunc::Swap2 => self.spec_swap_2(),
            WordFunc::Dup2 => self.spec_dup_2(),
            WordFunc::Over2 => self.spec_over_2(),
            WordFunc::DsDrop2 => self.spec_ds_drop_2(),
            WordFunc::Emit => self.spec_emit(),
            WordFunc::Cr => self.spec_cr(),
            WordFunc::Space => self.spec_space(),
            WordFunc::Spaces => self.spec_spaces(),
            WordFunc::PopPrint => self.spec_pop_print(),
            WordFunc::UnsignedPopPrint => self.spec_unsigned_pop_print(),
            WordFunc::Colon => self.spec_colon(),
            WordFunc::Forget => self.spec_forget(),
            WordFunc::DataToReturnStack => self.spec_data_to_return_stack(),
            WordFunc::Data2ToReturn2Stack => self.spec_data2_to_return2_stack(),
            WordFunc::ReturnToDataStack => self.spec_return_to_data_stack(),
            WordFunc::LoopI => self.spec_loop_i(),
            WordFunc::LoopItick => self.spec_loop_itick(),
            WordFunc::LoopJ => self.spec_loop_j(),
            WordFunc::LoopLeave => self.spec_loop_leave(),
            WordFunc::VarLoad => self.spec_var_load(),
            WordFunc::VarStore => self.spec_var_store(),
            WordFunc::WordAdd => self.spec_word_add(),
            WordFunc::ZeroConst => self.spec_zero_const(),
            WordFunc::OneConst => self.spec_one_const(),
            WordFunc::WriteStrLit => self.spec_write_str_lit(),
            WordFunc::JumpDoloop => self.spec_jump_doloop(),
            WordFunc::JumpIfZero => self.spec_jump_if_zero(),
            WordFunc::Jump => self.spec_jump(),
            WordFunc::Literal => self.spec_literal(),
            WordFunc::Constant => self.spec_constant(),
            WordFunc::Variable => self.spec_variable(),
            WordFunc::Interpret => (self, Err(Error::InternalError)),
        }
    }

    /// The frame for a call of the word at `eh`.
    pub open spec fn frame_for(eh: u32, target: Target) -> CallContext {
        CallContext {
            eh,
            idx: 0,
            len: match target {
                Target::Word { func, len } => len,
                Target::Async { index } => 0,
            },
        }
    }

    /// Putting a frame on the call stack.
    pub open spec fn call(self, frame: CallContext) -> (ForthView<T>, Result<(), Error>) {
        if self.calls.len() < self.calls_cap {
            (ForthView { calls: self.calls.push(frame), ..self }, Ok(()))
        } else {
            (self, Err(Error::Stack(StackError::StackFull)))
        }
    }

    /// The word on top of the call stack is done: its frame goes, and the
    /// caller, where it is above `base`, steps to its next cell.
    pub open spec fn finish(self, base: nat) -> (ForthView<T>, Result<(), Error>) {
        let s = ForthView { calls: self.calls.drop_last(), ..self };
        if self.calls.len() == 0 {
            (self, Err(Error::CallStackCorrupted))
        } else if s.calls.len() <= base {
            (s, Ok(()))
        } else {
            match s.calls.last().spec_offset(1) {
                Some(idx) => (
                    ForthView {
                        calls: s.calls.update(
                            s.calls.len() - 1,
                            CallContext { idx, ..s.calls.last() },
                        ),
                        ..s
                    },
                    Ok(()),
                ),
                None => (s, Err(Error::BadCfaOffset)),
            }
        }
    }

    /// One step of the word on top of the call stack. A compiled word calls
    /// the word that its next cell names, or is done behind its last cell.
    /// Any other word is run and is done. A word of the host cannot be run
    /// here and gives `PendingCallAgain`.
    #[verifier::opaque]
    pub open spec fn step(self, base: nat) -> (ForthView<T>, Result<(), Error>) {
        let top = self.calls.last();
        let cell = self.arena.read_word(body_addr(top, top.idx as int));
        if self.calls.len() == 0 {
            (self, Err(Error::CallStackCorrupted))
        } else {
            match self.resolve(top.eh) {
                Err(e) => (self, Err(e)),
                Ok(Target::Async { index }) => (self, Err(Error::PendingCallAgain)),
                Ok(Target::Word { func, len }) => if func != WordFunc::Interpret {
                    if self.run_plain(func).1.is_err() {
                        self.run_plain(func)
                    } else {
                        self.run_plain(func).0.finish(base)
                    }
                } else if top.idx >= top.len {
                    self.finish(base)
                } else if !self.arena.holds(body_addr(top, top.idx as int), 4) {
                    (self, Err(Error::BadAddress))
                } else {
                    match self.resolve_cell(cell) {
                        Err(e) => (self, Err(e)),
                        Ok(t) => self.call(Self::frame_for(cell.data as u32, t)),
                    }
                },
            }
        }
    }

    /// The call stack cut back to `base` frames.
    pub open spec fn unwound(self, base: nat) -> ForthView<T> {
        ForthView {
            calls: if self.calls.len() > base {
                self.calls.take(base as int)
            } else {
                self.calls
            },
            ..self
        }
    }

    pub open spec fn spent(self) -> ForthView<T> {
        ForthView { steps_left: (self.steps_left - 1) as u64, ..self }
    }

    /// Running the words on the call stack until it is back at `base` frames.
    /// Each step takes one from the steps that are left; with none left the
    /// run ends in `StepLimitReached`. An error cuts the call stack back to
    /// `base` frames.
    #[verifier::opaque]
    pub open spec fn run(self, base: nat) -> (ForthView<T>, Result<(), Error>)
        decreases self.steps_left,
    {
        if self.calls.len() <= base {
            (self, Ok(()))
        } else if self.steps_left == 0 {
            (self.unwound(base), Err(Error::StepLimitReached))
        } else {
            let (s, r) = self.spent().step(base);
            if r.is_err() {
                (s.unwound(base), r)
            } else if s.steps_left < self.steps_left {
                s.run(base)
            } else {
                (s.unwound(base), Err(Error::InternalError))
            }
        }
    }

    /// A compiled word calls the word that its next cell names: the frame of
    /// that word is put on the call stack.
    pub open spec fn fetch(self) -> (ForthView<T>, Result<(), Error>) {
        let top = self.calls.last();
        let cell = self.arena.read_word(body_addr(top, top.idx as int));
        if self.calls.len() == 0 {
            (self, Err(Error::CallStackCorrupted))
        } else if !self.arena.holds(body_addr(top, top.idx as int), 4) {
            (self, Err(Error::BadAddress))
        } else {
            match self.resolve_cell(cell) {
                Err(e) => (self, Err(e)),
                Ok(t) => self.call(Self::frame_for(cell.data as u32, t)),
            }
        }
    }

    /// Walking the body of the word whose frame is the one at `depth` on the
    /// call stack, and is the frame of the word at `eh`: while that frame is
    /// on top and stands before a cell, the word that the cell names is
    /// called; while other frames are above it, the machine steps; when the
    /// frame is on top and stands behind its last cell, the walk is over and
    /// the frame stays. An error cuts the call stack back to `depth` frames.
    #[verifier::opaque]
    pub open spec fn walk(self, depth: nat, eh: u32) -> (ForthView<T>, Result<(), Error>)
        decreases self.steps_left,
    {
        let top = self.calls.last();
        if depth == 0 || self.calls.len() < depth {
            (self, Err(Error::CallStackCorrupted))
        } else if self.calls.len() == depth && top.idx >= top.len {
            if top.eh == eh {
                (self, Ok(()))
            } else {
                (self, Err(Error::CallStackCorrupted))
            }
        } else if self.steps_left == 0 {
            (self.unwound(depth), Err(Error::StepLimitReached))
        } else {
            let (s, r) = if self.calls.len() == depth {
                self.spent().fetch()
            } else {
                self.spent().step((depth - 1) as nat)
            };
            if r.is_err() {
                (s.unwound(depth), r)
            } else if s.steps_left < self.steps_left {
                s.walk(depth, eh)
            } else {
                (s.unwound(depth), Err(Error::InternalError))
            }
        }
    }

    /// Running the word whose frame is on top of the call stack: its body is
    /// walked to the end, and its frame stays for the caller to take off.
    pub open spec fn spec_interpret(self) -> (ForthView<T>, Result<(), Error>) {
        if self.calls.len() == 0 {
            (self, Err(Error::Stack(StackError::StackEmpty)))
        } else {
            self.walk(self.calls.len(), self.calls.last().eh)
        }
    }

    /// What running a word leaves alone: the line is read further, never
    /// back, and the tokenizer takes lines as long as before; no step comes
    /// back; and the tables of words stay as they are.
    pub open spec fn ran_from(self, before: ForthView<T>) -> bool {
        &&& self.input.buf.len() == before.input.buf.len()
        &&& self.input.pos >= before.input.pos
        &&& self.input_cap == before.input_cap
        &&& self.steps_left <= before.steps_left
        &&& self.builtins == before.builtins
        &&& self.async_builtins == before.async_builtins
    }
}

impl<T> Forth<T> {
    /// `:`: reads a name and compiles the tokens up to `;` into a new word
    /// of that name.
    pub fn colon(&mut self) -> (r: Result<(), Error>)
        requires
            old(self).wf(),
        ensures
            final(self).wf(),
            (final(self)@, r) == old(self)@.spec_colon(),
            final(self)@.ran_from(old(self)@),
            final(self)@.steps_left == old(self)@.steps_left,
            final(self)@.calls.len() == old(self)@.calls.len(),
            !(r matches Err(Error::PendingCallAgain)),
            r.is_ok() ==> final(self)@.tail > 0 && final(self)@.find_in_dict(
                NameView::of(lower(name_prefix(old(self)@.advanced().input.word().unwrap()))),
            ) == Some(final(self)@.tail),
    {
        self.input.advance();
        let name = match self.input.cur_word() {
            Some(n) => n,
            None => return Err(Error::ColonCompileMissingName),
        };
        let old_mode = self.mode;
        self.mode = Mode::Compile;
        let ghost text = lower(name_prefix(name@));
        let name = match self.dict_alloc.bump_bytes(name, true) {
            Ok(n) => n,
            Err(e) => return Err(Error::Bump(e)),
        };
        // Allocate the dictionary entry; it is written once the definition
        // is known to be good.
        let dict_base = match self.dict_alloc.bump_layout(20, 4) {
            Ok(a) => a as u32,
            Err(e) => return Err(Error::Bump(e)),
        };
        let mut len = 0u16;
        let ghost start = self@;
        proof {
            start.lemma_compiled_refl();
            assert(start.arena.bytes(name.addr as int, text.len() as int) =~= text);
        }
        // Begin compiling until we hit the end of the line or a semicolon.
        loop
            invariant
                self.wf(),
                self@.compiled_from(start),
                start.arena.holds(dict_base as int, ENTRY_SIZE as int),
                dict_base + ENTRY_SIZE <= start.arena.cur,
                name.addr <= u32::MAX,
                text == lower(name_prefix(old(self)@.advanced().input.word().unwrap())),
                text.len() <= 31,
                start.arena.bytes(name.addr as int, text.len() as int) == text,
                name.len_hash@ == len_hash_of(text),
                start.arena.start <= name.addr,
                name.addr + text.len() <= dict_base,
                start.tail == old(self)@.tail,
                start.tail == 0 || start.tail + ENTRY_SIZE <= name.addr,
                start.input.buf.len() == old(self)@.input.buf.len(),
                start.input.pos >= old(self)@.input.pos,
                start.steps_left == old(self)@.steps_left,
                start.builtins == old(self)@.builtins,
                start.async_builtins == old(self)@.async_builtins,
                start.calls == old(self)@.calls,
                start.input_cap == old(self)@.input_cap,
                self@.steps_left == start.steps_left,
                self@.colon_body(len, (name.addr as u32, name.len_hash@), dict_base, old_mode)
                    == old(self)@.spec_colon(),
            decreases self@.input.remaining(),
        {
            let ghost before = self@;
            proof {
                reveal(ForthView::<_>::colon_body);
                before.lemma_compiled_bounds(start);
            }
            let one = self.munch_one(&mut len);
            proof {
                self@.lemma_compiled_bounds(before);
                self@.lemma_compiled_trans(before, start);
            }
            let munched = one?;
            if munched == 0 {
                match self.input.cur_word() {
                    Some(w) => {
                        if crate::fastr::bytes_eq(w, ";".as_bytes()) {
                            let link = self.run_dict_tail;
                            let ghost last = self@;
                            let written = self.dict_alloc.write_entry(
                                dict_base,
                                name,
                                EntryKind::Dictionary,
                                len,
                                WordFunc::Interpret,
                                link,
                            );
                            // Don't link until we know we have a "good" entry!
                            self.run_dict_tail = dict_base;
                            self.mode = old_mode;
                            proof {
                                let e = RawEntry {
                                    name_addr: name.addr as u32,
                                    len_hash: name.len_hash@,
                                    kind: EntryKind::Dictionary.spec_code(),
                                    len,
                                    func: WordFunc::Interpret.spec_code(),
                                    link,
                                };
                                last.lemma_compiled_bytes(
                                    start,
                                    name.addr as int,
                                    text.len() as int,
                                );
                                crate::dictionary::lemma_store_entry(
                                    last.arena,
                                    dict_base as int,
                                    e,
                                );
                                crate::dictionary::lemma_store_entry_keeps(
                                    last.arena,
                                    dict_base as int,
                                    e,
                                    name.addr as int,
                                    text.len() as int,
                                );
                                assert(name_prefix(text) =~= text);
                                crate::fastr::lemma_pack_fields(
                                    text.len() as u32,
                                    crate::fastr::fnv1a(text),
                                );
                                assert(self@.arena.entry_ok(dict_base as int));
                                assert(self@.arena.entry_named(dict_base as int, NameView::of(text)));
                            }
                            return Ok(());
                        }
                    },
                    None => {
                        return Err(Error::ColonCompileMissingSemicolon);
                    },
                }
            }
        }
    }

    /// What the address `p` names.
    pub fn resolve(&self, p: u32) -> (r: Result<Target, Error>)
        requires
            self.wf(),
        ensures
            r == self@.resolve(p),
            r matches Ok(Target::Async { index }) ==> index < self@.async_builtins.len(),
            !(r matches Err(Error::PendingCallAgain)),
    {
        proof {
            reveal(ForthView::<_>::resolve);
        }
        if p == 0 {
            Err(Error::NullPointerInCFA)
        } else if p >= ASYNC_BASE {
            if ((p - ASYNC_BASE) as usize) < self.async_builtins.len() {
                Ok(Target::Async { index: p - ASYNC_BASE })
            } else {
                Err(Error::CFANotInDict)
            }
        } else if p >= BUILTIN_BASE {
            let i = (p - BUILTIN_BASE) as usize;
            if i < self.builtins.len() {
                Ok(Target::Word { func: self.builtins[i].func, len: self.builtins[i].hdr.len })
            } else {
                Err(Error::CFANotInDict)
            }
        } else {
            match self.dict_alloc.entry_at::<T>(p) {
                Some(de) => Ok(Target::Word { func: de.func, len: de.len }),
                None => Err(Error::CFANotInDict),
            }
        }
    }

    /// Runs the routine `func`.
    pub fn run_plain(&mut self, func: WordFunc) -> (r: Result<(), Error>)
        requires
            old(self).wf(),
        ensures
            final(self).wf(),
            (final(self)@, r) == old(self)@.run_plain(func),
            final(self)@.ran_from(old(self)@),
            final(self)@.steps_left == old(self)@.steps_left,
            final(self)@.calls.len() == old(self)@.calls.len(),
            !(r matches Err(Error::PendingCallAgain)),
    {
        proof {
            reveal(ForthView::<_>::run_plain);
        }
        match func {
            WordFunc::Add => self.add(),
            WordFunc::Minus => self.minus(),
            WordFunc::Div => self.div(),
            WordFunc::Modu => self.modu(),
            WordFunc::DivMod => self.div_mod(),
            WordFunc::Mul => self.mul(),
            WordFunc::Abs => self.abs(),
            WordFunc::Negate => self.negate(),
            WordFunc::Min => self.min(),
            WordFunc::Max => self.max(),
            WordFunc::StarSlash => self.star_slash(),
            WordFunc::StarSlashMod => self.star_slash_mod(),
            WordFunc::Invert => self.invert(),
            WordFunc::And => self.and(),
            WordFunc::Equal => self.equal(),
            WordFunc::Greater => self.greater(),
            WordFunc::Less => self.less(),
            WordFunc::ZeroEqual => self.zero_equal(),
            WordFunc::ZeroGreater => self.zero_greater(),
            WordFunc::ZeroLess => self.zero_less(),
            WordFunc::Swap => self.swap(),
            WordFunc::Dup => self.dup(),
            WordFunc::Over => self.over(),
            WordFunc::Rot => self.rot(),
            WordFunc::DsDrop => self.ds_drop(),
            WordFunc::Swap2 => self.swap_2(),
            WordFunc::Dup2 => self.dup_2(),
            WordFunc::Over2 => self.over_2(),
            WordFunc::DsDrop2 => self.ds_drop_2(),
            WordFunc::Emit => self.emit(),
            WordFunc::Cr => self.cr(),
            WordFunc::Space => self.space(),
            WordFunc::Spaces => self.spaces(),
            WordFunc::PopPrint => self.pop_print(),
            WordFunc::UnsignedPopPrint => self.unsigned_pop_print(),
            WordFunc::Colon => self.colon(),
            WordFunc::Forget => self.forget(),
            WordFunc::DataToReturnStack => self.data_to_return_stack(),
            WordFunc::Data2ToReturn2Stack => self.data2_to_return2_stack(),
            WordFunc::ReturnToDataStack => self.return_to_data_stack(),
            WordFunc::LoopI => self.loop_i(),
            WordFunc::LoopItick => self.loop_itick(),
            WordFunc::LoopJ => self.loop_j(),
            WordFunc::LoopLeave => self.loop_leave(),
            WordFunc::VarLoad => self.var_load(),
            WordFunc::VarStore => self.var_store(),
            WordFunc::WordAdd => self.word_add(),
            WordFunc::ZeroConst => self.zero_const(),
            WordFunc::OneConst => self.one_const(),
            WordFunc::WriteStrLit => self.write_str_lit(),
            WordFunc::JumpDoloop => self.jump_doloop(),
            WordFunc::JumpIfZero => self.jump_if_zero(),
            WordFunc::Jump => self.jump(),
            WordFunc::Literal => self.literal(),
            WordFunc::Constant => self.constant(),
            WordFunc::Variable => self.variable(),
            WordFunc::Interpret => Err(Error::InternalError),
        }
    }

    /// Takes the frame of the word that is done off the call stack and
    /// steps its caller.
    pub fn finish(&mut self, base: usize) -> (r: Result<(), Error>)
        requires
            old(self).wf(),
        ensures
            final(self).wf(),
            (final(self)@, r) == old(self)@.finish(base as nat),
    {
        match self.call_stack.pop() {
            None => Err(Error::CallStackCorrupted),
            Some(_) => {
                if self.call_stack.depth() <= base {
                    return Ok(());
                }
                let mut parent = match self.call_stack.try_peek() {
                    Ok(f) => f,
                    Err(e) => return Err(Error::Stack(e)),
                };
                parent.offset(1)?;
                let _ = self.call_stack.overwrite_back_n(0, parent);
                Ok(())
            },
        }
    }

    /// One step of the word on top of the call stack.
    pub fn step(&mut self, base: usize) -> (r: Result<(), Error>)
        requires
            old(self).wf(),
        ensures
            final(self).wf(),
            (final(self)@, r) == old(self)@.step(base as nat),
            final(self)@.ran_from(old(self)@),
            final(self)@.steps_left == old(self)@.steps_left,
            final(self)@.calls.len() + 1 >= old(self)@.calls.len(),
            r matches Err(Error::PendingCallAgain) ==> old(self)@.calls.len() > 0 && (old(
                self)@.resolve(old(self)@.calls.last().eh) matches Ok(Target::Async { .. })),
    {
        proof {
            reveal(ForthView::<_>::step);
        }
        let top = match self.call_stack.try_peek() {
            Ok(t) => t,
            Err(_) => return Err(Error::CallStackCorrupted),
        };
        match self.resolve(top.eh)? {
            Target::Async { index } => Err(Error::PendingCallAgain),
            Target::Word { func, len } => {
                if func != WordFunc::Interpret {
                    self.run_plain(func)?;
                    self.finish(base)
                } else if top.idx >= top.len {
                    self.finish(base)
                } else {
                    if top.eh >= ARENA_LIMIT {
                        return Err(Error::BadAddress);
                    }
                    let addr = top.eh as usize + 20 + 4 * (top.idx as usize);
                    let cell = match self.dict_alloc.read_word(addr) {
                        Some(w) => w,
                        None => return Err(Error::BadAddress),
                    };
                    // Every cell that is reached here is the address of a
                    // word: the cells that are operands are stepped over by
                    // the words that take them.
                    if cell.data < 0 {
                        return Err(Error::CFANotInDict);
                    }
                    let target = self.resolve(cell.data as u32)?;
                    let len = match target {
                        Target::Word { func, len } => len,
                        Target::Async { index } => 0,
                    };
                    match self.call_stack.push(CallContext { eh: cell.data as u32, idx: 0, len }) {
                        Ok(()) => Ok(()),
                        Err(e) => Err(Error::Stack(e)),
                    }
                }
            },
        }
    }

    /// Cuts the call stack back to `base` frames.
    pub fn unwind(&mut self, base: usize)
        requires
            old(self).wf(),
        ensures
            final(self).wf(),
            final(self)@ == old(self)@.unwound(base as nat),
    {
        assert(old(self)@.calls.take(old(self)@.calls.len() as int) =~= old(self)@.calls);
        while self.call_stack.depth() > base
            invariant
                self.wf(),
                self@.calls.len() <= old(self)@.calls.len(),
                old(self)@.calls.len() >= base ==> self@.calls.len() >= base,
                old(self)@.calls.len() <= base ==> self@.calls.len() == old(self)@.calls.len(),
                self@ == (ForthView {
                    calls: old(self)@.calls.take(self@.calls.len() as int),
                    ..old(self)@
                }),
            decreases self@.calls.len(),
        {
            let ghost n = self@.calls.len();
            let _ = self.call_stack.pop();
            assert(self@.calls =~= old(self)@.calls.take(n - 1));
        }
        assert(old(self)@.calls.take(old(self)@.calls.len() as int) =~= old(self)@.calls);
    }

    /// Runs the words on the call stack until it is back at `base` frames.
    pub fn run(&mut self, base: usize) -> (r: Result<(), Error>)
        requires
            old(self).wf(),
        ensures
            final(self).wf(),
            (final(self)@, r) == old(self)@.run(base as nat),
            final(self)@.ran_from(old(self)@),
            final(self)@.calls.len() <= base,
    {
        loop
            invariant
                self.wf(),
                self@.run(base as nat) == old(self)@.run(base as nat),
                self@.ran_from(old(self)@),
            decreases self@.steps_left,
        {
            proof {
                reveal(ForthView::<_>::run);
            }
            if self.call_stack.depth() <= base {
                return Ok(());
            }
            if self.steps_left == 0 {
                self.unwind(base);
                return Err(Error::StepLimitReached);
            }
            self.steps_left = self.steps_left - 1;
            match self.step(base) {
                Ok(()) => {},
                Err(e) => {
                    self.unwind(base);
                    return Err(e);
                },
            }
        }
    }

    /// Puts the frame of the word that the next cell of the word on top of the
    /// call stack names on the call stack.
    pub fn fetch(&mut self) -> (r: Result<(), Error>)
        requires
            old(self).wf(),
        ensures
            final(self).wf(),
            (final(self)@, r) == old(self)@.fetch(),
            final(self)@.ran_from(old(self)@),
            final(self)@.steps_left == old(self)@.steps_left,
            final(self)@.calls.len() >= old(self)@.calls.len(),
            !(r matches Err(Error::PendingCallAgain)),
    {
        let top = match self.call_stack.try_peek() {
            Ok(t) => t,
            Err(_) => return Err(Error::CallStackCorrupted),
        };
        if top.eh >= ARENA_LIMIT {
            return Err(Error::BadAddress);
        }
        let addr = top.eh as usize + 20 + 4 * (top.idx as usize);
        let cell = match self.dict_alloc.read_word(addr) {
            Some(w) => w,
            None => return Err(Error::BadAddress),
        };
        if cell.data < 0 {
            return Err(Error::CFANotInDict);
        }
        let target = self.resolve(cell.data as u32)?;
        let len = match target {
            Target::Word { func, len } => len,
            Target::Async { index } => 0,
        };
        match self.call_stack.push(CallContext { eh: cell.data as u32, idx: 0, len }) {
            Ok(()) => Ok(()),
            Err(e) => Err(Error::Stack(e)),
        }
    }

    /// Interpret is the run-time target of the `:` (colon) word: it walks the
    /// body of the word whose frame is on top of the call stack, with every
    /// word that it calls, until the frame stands behind its last cell. The
    /// frame stays on the call stack, for the caller to take off; after an
    /// error, too, the call stack is as deep as it was.
    pub fn interpret(&mut self) -> (r: Result<(), Error>)
        requires
            old(self).wf(),
        ensures
            final(self).wf(),
            (final(self)@, r) == old(self)@.spec_interpret(),
            final(self)@.ran_from(old(self)@),
            final(self)@.calls.len() == old(self)@.calls.len(),
            r.is_ok() ==> final(self)@.calls.len() > 0 && final(self)@.calls.last().eh == old(
                self)@.calls.last().eh && final(self)@.calls.last().idx >= final(
                self)@.calls.last().len,
    {
        let depth = self.call_stack.depth();
        let me = match self.call_stack.try_peek() {
            Ok(t) => t,
            Err(e) => return Err(Error::Stack(e)),
        };
        loop
            invariant
                self.wf(),
                depth == old(self)@.calls.len(),
                depth > 0,
                me.eh == old(self)@.calls.last().eh,
                self@.calls.len() >= depth,
                self@.walk(depth as nat, me.eh) == old(self)@.walk(depth as nat, me.eh),
                self@.ran_from(old(self)@),
            decreases self@.steps_left,
        {
            proof {
                reveal(ForthView::<_>::walk);
            }
            let above = self.call_stack.depth() > depth;
            if !above {
                let top = match self.call_stack.try_peek() {
                    Ok(t) => t,
                    Err(_) => return Err(Error::CallStackCorrupted),
                };
                if top.idx >= top.len {
                    if top.eh == me.eh {
                        return Ok(());
                    } else {
                        return Err(Error::CallStackCorrupted);
                    }
                }
            }
            if self.steps_left == 0 {
                self.unwind(depth);
                return Err(Error::StepLimitReached);
            }
            self.steps_left = self.steps_left - 1;
            let stepped = if above {
                self.step(depth - 1)
            } else {
                self.fetch()
            };
            match stepped {
                Ok(()) => {},
                Err(e) => {
                    self.unwind(depth);
                    return Err(e);
                },
            }
        }
    }
}

} // verus!
