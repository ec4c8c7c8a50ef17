//! The machine with words that the host runs.

use crate::dictionary::{AsyncBuiltinEntry, BuiltinEntry};
use crate::fastr::FaStr;
use crate::input::WordStrBuf;
use crate::output::OutputBuf;
use crate::vm::builtins::Target;
use crate::vm::{Forth, ForthView, ASYNC_BASE, BUILTIN_BASE};
use crate::word::Word;
use crate::{Error, Lookup, WordFunc};
use vstd::prelude::*;
use vstd::string::StringSliceAdditionalSpecFns;

verus! {

/// What the machine found at the next token of the line.
#[derive(Clone, Copy, Debug, PartialEq, Eq, Structural)]
pub enum ProcessAction {
    /// The end of the line.
    Done,
    /// A token that is dealt with; the line goes on.
    Continue,
    /// A word whose frame is now on the call stack and waits to be run.
    Execute,
}

/// Whether words wait on the call stack.
#[derive(Clone, Copy, Debug, PartialEq, Eq, Structural)]
pub enum Step {
    Done,
    NotDone,
}

/// What the machine did in its turn, or asks of the host.
#[derive(Clone, Copy, Debug, PartialEq, Eq, Structural)]
pub enum Turn {
    /// No word waits on the call stack.
    Done,
    /// The word on top of the call stack is the word at index `index` of the
    /// host's table: the host is to attempt it, and to hand the result to
    /// `after_host`.
    Host { index: u32 },
    /// The word on top of the call stack took a step.
    Stepped,
}

/// The host's side of a machine with words that the host runs.
///
/// `dispatch_async` is one attempt at running the word `id`: `Ok` when the
/// word is done, `PendingCallAgain` when the same word is to be attempted
/// again, any other error to end the line. The host may use the machine as
/// it likes, but hands it back in order, with the line read no further back,
/// with a tokenizer of the same capacity, with the tables of words as they
/// were, and with no more steps left than it had.
pub trait DispatchAsync<T>: Sized {
    /// The table of the words that the host runs.
    fn async_builtins(&self) -> Vec<AsyncBuiltinEntry<T>>;

    fn dispatch_async(&self, id: &FaStr<'static>, forth: &mut Forth<T>) -> (r: Result<(), Error>)
        requires
            old(forth).wf(),
        ensures
            final(forth).wf(),
            final(forth)@.ran_from(old(forth)@),
    ;
}

impl<T> ForthView<T> {
    /// Putting the frame of the word at `eh` on the call stack.
    pub open spec fn enter(self, eh: u32) -> (ForthView<T>, Result<ProcessAction, Error>) {
        match self.resolve(eh) {
            Err(e) => (self, Err(e)),
            Ok(t) => (
                self.call(Self::frame_for(eh, t)).0,
                match self.call(Self::frame_for(eh, t)).1 {
                    Ok(()) => Ok(ProcessAction::Execute),
                    Err(e) => Err(e),
                },
            ),
        }
    }

    /// The result of a token after which the line goes on.
    pub open spec fn continued(r: (ForthView<T>, Result<(), Error>)) -> (
        ForthView<T>,
        Result<ProcessAction, Error>,
    ) {
        (
            r.0,
            match r.1 {
                Ok(()) => Ok(ProcessAction::Continue),
                Err(e) => Err(e),
            },
        )
    }

    /// Reading the next token of the line: the frame of a word is put on the
    /// call stack, a number on the data stack, a comment is passed over, a
    /// string literal is written; a token that only compiles is refused.
    pub open spec fn start_line(self) -> (ForthView<T>, Result<ProcessAction, Error>) {
        let s = self.advanced();
        if s.input.word().is_none() {
            (s, Ok(ProcessAction::Done))
        } else {
            match s.lookup(s.input.word().unwrap()) {
                Err(e) => (s, Err(e)),
                Ok(Lookup::Dict { de }) => s.enter(de),
                Ok(Lookup::Builtin { bi }) => s.enter((BUILTIN_BASE + bi) as u32),
                Ok(Lookup::Async { bi }) => s.enter((ASYNC_BASE + bi) as u32),
                Ok(Lookup::Literal { val }) => Self::continued(s.give(seq![Word { data: val }])),
                Ok(Lookup::LParen) => (s.munch_comment(), Ok(ProcessAction::Continue)),
                Ok(Lookup::LQuote) => if !s.input.literal_closed() {
                    (s, Err(Error::BadStrLiteral))
                } else {
                    Self::continued(
                        ForthView { input: s.input.advanced_str(), ..s }.put(
                            s.input.advanced_str().literal().unwrap(),
                        ),
                    )
                },
                Ok(_) => (s, Err(Error::InterpretingCompileOnlyWord)),
            }
        }
    }

    /// The turn of the machine: with no word on the call stack it is done;
    /// with no step left the line ends in `StepLimitReached`; else a step is
    /// spent, and either the word on top is the host's, or it takes its step.
    pub open spec fn turn(self) -> (ForthView<T>, Result<Turn, Error>) {
        if self.calls.len() == 0 {
            (self, Ok(Turn::Done))
        } else if self.steps_left == 0 {
            (self, Err(Error::StepLimitReached))
        } else {
            match self.resolve(self.calls.last().eh) {
                Ok(Target::Async { index }) => (self.spent(), Ok(Turn::Host { index })),
                _ => (
                    self.spent().step(0).0,
                    match self.spent().step(0).1 {
                        Ok(()) => Ok(Turn::Stepped),
                        Err(e) => Err(e),
                    },
                ),
            }
        }
    }

    /// What follows an attempt of the host at its word: a word that is done
    /// leaves the call stack; one that is pending stays, to be attempted
    /// again; any other error ends the line.
    pub open spec fn after_host(self, res: Result<(), Error>, base: nat) -> (
        ForthView<T>,
        Result<(), Error>,
    ) {
        match res {
            Ok(()) => self.finish(base),
            Err(Error::PendingCallAgain) => (self, Ok(())),
            Err(e) => (self, Err(e)),
        }
    }

    /// The machine `self` and the result `r` are what follows an attempt of
    /// the host at its word in the machine `before`: the host handed some
    /// machine back, in order, with some result, and the machine went on from
    /// there as `after_host` says.
    pub open spec fn attempted(self, before: ForthView<T>, r: Result<Step, Error>) -> bool {
        exists|handed: ForthView<T>, res: Result<(), Error>|
            #![trigger handed.after_host(res, 0)]
            handed.wf() && handed.ran_from(before) && self == handed.after_host(res, 0).0 && r
                == match handed.after_host(res, 0).1 {
                Ok(()) => Ok::<Step, Error>(Step::NotDone),
                Err(e) => Err::<Step, Error>(e),
            }
    }

    /// All three stacks empty.
    pub open spec fn cleared(self) -> ForthView<T> {
        ForthView { data: Seq::empty(), ret: Seq::empty(), calls: Seq::empty(), ..self }
    }

    /// The machine has no words that a host runs.
    pub open spec fn host_free(self) -> bool {
        self.async_builtins.len() == 0
    }

    /// Executing the tokens of the line in a machine without words of a host:
    /// after each word that is called, the machine runs until no word waits.
    #[verifier::opaque]
    pub open spec fn hostless_line(self) -> (ForthView<T>, Result<(), Error>)
        decreases self.input.remaining(),
    {
        let one = self.start_line();
        let more = one.0.input.remaining() < self.input.remaining();
        match one.1 {
            Err(e) => (one.0, Err(e)),
            Ok(ProcessAction::Done) => (
                one.0.put("ok.\n".spec_bytes()).0,
                one.0.put("ok.\n".spec_bytes()).1,
            ),
            Ok(ProcessAction::Continue) => if more {
                one.0.hostless_line()
            } else {
                (one.0, Err(Error::InternalError))
            },
            Ok(ProcessAction::Execute) => if one.0.run(0).1.is_err() {
                one.0.run(0)
            } else if more && one.0.run(0).0.input.remaining() < self.input.remaining() {
                one.0.run(0).0.hostless_line()
            } else {
                (one.0.run(0).0, Err(Error::InternalError))
            },
        }
    }

    /// Executing the line with a fresh budget of steps in a machine without
    /// words of a host; an error empties all three stacks.
    pub open spec fn spec_hostless_process_line(self) -> (ForthView<T>, Result<(), Error>) {
        let done = ForthView { steps_left: self.step_limit, ..self }.hostless_line();
        if done.1.is_err() {
            (done.0.cleared(), done.1)
        } else {
            done
        }
    }
}

impl<T> Forth<T> {
    /// Puts the frame of the word at `eh` on the call stack.
    pub fn enter(&mut self, eh: u32) -> (r: Result<ProcessAction, Error>)
        requires
            old(self).wf(),
        ensures
            final(self).wf(),
            (final(self)@, r) == old(self)@.enter(eh),
            !(r matches Err(Error::PendingCallAgain)),
    {
        let target = self.resolve(eh)?;
        let len = match target {
            Target::Word { func, len } => len,
            Target::Async { index } => 0,
        };
        match self.call_stack.push(crate::CallContext { eh, idx: 0, len }) {
            Ok(()) => Ok(ProcessAction::Execute),
            Err(e) => Err(Error::Stack(e)),
        }
    }

    /// Reads the next token of the line and says what is to be done.
    pub fn start_processing_line(&mut self) -> (r: Result<ProcessAction, Error>)
        requires
            old(self).wf(),
        ensures
            final(self).wf(),
            (final(self)@, r) == old(self)@.start_line(),
            final(self)@.ran_from(old(self)@),
            final(self)@.steps_left == old(self)@.steps_left,
            !(r matches Err(Error::PendingCallAgain)),
            r.is_ok() && r != Ok::<ProcessAction, Error>(ProcessAction::Done) ==> final(self)@.input.pos > old(self)@.input.pos,
            r != Ok::<ProcessAction, Error>(ProcessAction::Execute) ==> final(self)@.calls == old(self)@.calls,
    {
        self.input.advance();
        let word = match self.input.cur_word() {
            Some(w) => w,
            None => return Ok(ProcessAction::Done),
        };
        match self.lookup_bytes(word)? {
            Lookup::Dict { de } => self.enter(de),
            Lookup::Builtin { bi } => self.enter(BUILTIN_BASE + bi),
            Lookup::Async { bi } => self.enter(ASYNC_BASE + bi),
            Lookup::Literal { val } => {
                self.give1(Word::data(val))?;
                Ok(ProcessAction::Continue)
            },
            Lookup::LParen => {
                let mut unused: u16 = 0;
                let ghost before = self@;
                let _ = self.munch_comment(&mut unused);
                proof {
                    self@.lemma_compiled_bounds(before);
                }
                Ok(ProcessAction::Continue)
            },
            Lookup::Semicolon => Err(Error::InterpretingCompileOnlyWord),
            Lookup::If => Err(Error::InterpretingCompileOnlyWord),
            Lookup::Else => Err(Error::InterpretingCompileOnlyWord),
            Lookup::Then => Err(Error::InterpretingCompileOnlyWord),
            Lookup::Do => Err(Error::InterpretingCompileOnlyWord),
            Lookup::Loop => Err(Error::InterpretingCompileOnlyWord),
            Lookup::LQuote => {
                match self.input.advance_str() {
                    Ok(()) => {},
                    Err(_) => {
                        return Err(Error::BadStrLiteral);
                    },
                }
                match self.input.cur_str_literal() {
                    Some(lit) => match self.output.push_bstr(lit) {
                        Ok(()) => {},
                        Err(e) => {
                            return Err(Error::Output(e));
                        },
                    },
                    None => {},
                }
                Ok(ProcessAction::Continue)
            },
        }
    }

    /// The turn of the machine between two attempts of the host: says whether
    /// the line is done, which word the host is to attempt, or that a word
    /// took its step.
    pub fn turn(&mut self) -> (r: Result<Turn, Error>)
        requires
            old(self).wf(),
        ensures
            final(self).wf(),
            (final(self)@, r) == old(self)@.turn(),
            final(self)@.ran_from(old(self)@),
            r matches Ok(Turn::Host { index }) ==> index < final(self)@.async_builtins.len(),
            r matches Ok(t) && t != Turn::Done ==> final(self)@.steps_left < old(self)@.steps_left,
            !(r matches Err(Error::PendingCallAgain)),
    {
        let top = match self.call_stack.try_peek() {
            Ok(t) => t,
            Err(_) => return Ok(Turn::Done),
        };
        if self.steps_left == 0 {
            return Err(Error::StepLimitReached);
        }
        self.steps_left = self.steps_left - 1;
        proof {
            crate::vm::duality::lemma_resolve_same(self@, old(self)@, top.eh);
        }
        match self.resolve(top.eh) {
            Ok(Target::Async { index }) => Ok(Turn::Host { index }),
            _ => {
                self.step(0)?;
                Ok(Turn::Stepped)
            },
        }
    }

    /// The name of the word at index `index` of the host's table.
    pub fn host_name(&self, index: u32) -> (r: Option<FaStr<'static>>)
        ensures
            r.is_some() == (index < self@.async_builtins.len() && crate::fastr::len_field(
                self@.async_builtins[index as int].hdr.spec_len_hash(),
            ) <= self@.async_builtins[index as int].hdr.spec_name().len()),
            r matches Some(f) ==> f.spec_bytes() == self@.async_builtins[index as int].hdr.spec_name().take(
                crate::fastr::len_field(
                    self@.async_builtins[index as int].hdr.spec_len_hash(),
                ) as int,
            ) && f.spec_len_hash() == self@.async_builtins[index as int].hdr.spec_len_hash(),
    {
        if (index as usize) < self.async_builtins.len() {
            let hdr = &self.async_builtins[index as usize].hdr;
            FaStr::from_stored(hdr.name, hdr.len_hash)
        } else {
            None
        }
    }

    /// Takes up the machine after an attempt of the host at its word, with
    /// the result `res` of the attempt.
    pub fn after_host(&mut self, res: Result<(), Error>, base: usize) -> (r: Result<(), Error>)
        requires
            old(self).wf(),
        ensures
            final(self).wf(),
            (final(self)@, r) == old(self)@.after_host(res, base as nat),
            !(r matches Err(Error::PendingCallAgain)),
            final(self)@.ran_from(old(self)@),
            final(self)@.steps_left == old(self)@.steps_left,
    {
        match res {
            Ok(()) => self.finish(base),
            Err(Error::PendingCallAgain) => Ok(()),
            Err(e) => Err(e),
        }
    }

    /// Empties all three stacks.
    pub fn clear_stacks(&mut self)
        requires
            old(self).wf(),
        ensures
            final(self).wf(),
            final(self)@ == old(self)@.cleared(),
    {
        self.data_stack.clear();
        self.return_stack.clear();
        self.call_stack.clear();
    }
}

/// A Forth VM in which some builtin words are implemented by the host.
///
/// The machine hands a word of the host's table to the host's
/// `dispatch_async` and attempts it again for as long as it is pending.
/// Every other word behaves as in a `Forth`.
pub struct AsyncForth<T, A> {
    pub vm: Forth<T>,
    pub builtins: A,
}

impl<T, A: DispatchAsync<T>> AsyncForth<T, A> {
    pub open spec fn wf(&self) -> bool {
        self.vm.wf()
    }

    /// A machine as `Forth::new_async` makes it, with the host's table.
    pub fn new(
        dstack_buf: usize,
        rstack_buf: usize,
        cstack_buf: usize,
        dict_buf: (usize, usize),
        input: WordStrBuf,
        output: OutputBuf,
        host_ctxt: T,
        sync_builtins: Vec<BuiltinEntry<T>>,
        async_builtins: A,
    ) -> (r: Result<Self, Error>)
        requires
            input.wf(),
            output.wf(),
        ensures
            r matches Ok(a) ==> a.wf() && a.builtins == async_builtins && a.vm@ == Forth::<T>::initial(
                dstack_buf,
                rstack_buf,
                cstack_buf,
                dict_buf,
                input@,
                input.spec_capacity(),
                output@,
                output.spec_capacity(),
                host_ctxt,
                sync_builtins@,
                a.vm@.async_builtins,
            ),
            r matches Err(e) ==> e == Error::InternalError,
            r matches Ok(a) ==> Forth::<T>::new_ok(dict_buf, sync_builtins@, a.vm@.async_builtins),
            !Forth::<T>::new_ok(dict_buf, sync_builtins@, Seq::empty()) ==> r.is_err(),
    {
        let table = async_builtins.async_builtins();
        let vm = Forth::new_async(
            dstack_buf,
            rstack_buf,
            cstack_buf,
            dict_buf,
            input,
            output,
            host_ctxt,
            sync_builtins,
            table,
        )?;
        Ok(Self { vm, builtins: async_builtins })
    }

    pub fn output(&self) -> (r: &OutputBuf)
        ensures
            *r == self.vm.output,
    {
        &self.vm.output
    }

    pub fn output_mut(&mut self) -> (r: &mut OutputBuf)
        ensures
            *r == old(self).vm.output,
            final(self).builtins == old(self).builtins,
            final(self).vm == (Forth { output: *final(r), ..old(self).vm }),
    {
        &mut self.vm.output
    }

    pub fn input_mut(&mut self) -> (r: &mut WordStrBuf)
        ensures
            *r == old(self).vm.input,
            final(self).builtins == old(self).builtins,
            final(self).vm == (Forth { input: *final(r), ..old(self).vm }),
    {
        &mut self.vm.input
    }

    pub fn add_sync_builtin_static_name(&mut self, name: &'static str, bi: WordFunc) -> (r: Result<
        (),
        Error,
    >)
        requires
            old(self).wf(),
        ensures
            final(self).wf(),
            (final(self).vm@, r) == old(self).vm@.spec_add_builtin(name.spec_bytes(), bi, false),
    {
        self.vm.add_builtin_static_name(name, bi)
    }

    pub fn add_sync_builtin(&mut self, name: &str, bi: WordFunc) -> (r: Result<(), Error>)
        requires
            old(self).wf(),
        ensures
            final(self).wf(),
            (final(self).vm@, r) == old(self).vm@.spec_add_builtin(name.spec_bytes(), bi, true),
    {
        self.vm.add_builtin(name, bi)
    }

    /// Executes the line that the tokenizer holds. A word of the host is
    /// handed to the host, again and again while it is pending. On an error
    /// all three stacks are emptied.
    ///
    /// Where the line meets no word of the host, which is where
    /// `spec_hostless_process_line` does not end in `PendingCallAgain`, the
    /// outcome is the one that it gives. Whatever a host did: a line that
    /// succeeds has written `ok.` last; `PendingCallAgain` never is the
    /// error; after an error all three stacks are empty; after success the
    /// call stack is as empty as it was before; the line was read no further
    /// back; and the host is the one it was.
    pub fn process_line(&mut self) -> (r: Result<(), Error>)
        requires
            old(self).wf(),
        ensures
            final(self).wf(),
            final(self).builtins == old(self).builtins,
            old(self).vm@.spec_hostless_process_line().1 != Err::<(), Error>(
                Error::PendingCallAgain,
            ) ==> (final(self).vm@, r) == old(self).vm@.spec_hostless_process_line(),
            old(self).vm@.host_free() ==> (final(self).vm@, r) == old(
                self).vm@.spec_hostless_process_line(),
            r.is_ok() ==> exists|written: Seq<u8>| final(self).vm@.output == written
                + "ok.\n".spec_bytes(),
            !(r matches Err(Error::PendingCallAgain)),
            old(self).vm@.calls.len() == 0 ==> final(self).vm@.calls.len() == 0,
            r.is_err() ==> final(self).vm@.data.len() == 0 && final(self).vm@.ret.len() == 0
                && final(self).vm@.calls.len() == 0,
            final(self).vm@.input.buf.len() == old(self).vm@.input.buf.len(),
            final(self).vm@.input.pos >= old(self).vm@.input.pos,
            final(self).vm@.input_cap == old(self).vm@.input_cap,
    {
        self.vm.refill_steps();
        let done = self.line();
        match done {
            Ok(done) => Ok(done),
            Err(e) => {
                self.vm.clear_stacks();
                Err(e)
            },
        }
    }

    /// Executes the tokens of the line, one after the other.
    fn line(&mut self) -> (r: Result<(), Error>)
        requires
            old(self).wf(),
        ensures
            final(self).wf(),
            final(self).builtins == old(self).builtins,
            old(self).vm@.hostless_line().1 != Err::<(), Error>(Error::PendingCallAgain) || old(
                self).vm@.host_free() ==> r == old(self).vm@.hostless_line().1 && final(
                self).vm@.cleared() == old(self).vm@.hostless_line().0.cleared() && (r.is_ok()
                ==> final(self).vm@ == old(self).vm@.hostless_line().0),
            r.is_ok() ==> exists|written: Seq<u8>| final(self).vm@.output == written
                + "ok.\n".spec_bytes(),
            !(r matches Err(Error::PendingCallAgain)),
            r.is_ok() && old(self).vm@.calls.len() == 0 ==> final(self).vm@.calls.len() == 0,
            final(self).vm@.input.buf.len() == old(self).vm@.input.buf.len(),
            final(self).vm@.input.pos >= old(self).vm@.input.pos,
            final(self).vm@.input_cap == old(self).vm@.input_cap,
    {
        loop
            invariant
                self.wf(),
                self.builtins == old(self).builtins,
                self.vm@.input.buf.len() == old(self).vm@.input.buf.len(),
                self.vm@.input.pos >= old(self).vm@.input.pos,
                self.vm@.input_cap == old(self).vm@.input_cap,
                old(self).vm@.calls.len() == 0 ==> self.vm@.calls.len() == 0,
                old(self).vm@.host_free() ==> self.vm@.host_free(),
                old(self).vm@.hostless_line().1 != Err::<(), Error>(Error::PendingCallAgain)
                    || old(self).vm@.host_free() ==> self.vm@.hostless_line() == old(
                    self).vm@.hostless_line(),
            decreases self.vm@.input.remaining(),
        {
            proof {
                reveal(ForthView::<_>::hostless_line);
            }
            match self.vm.start_processing_line()? {
                ProcessAction::Done => {
                    let ghost before = self.vm@.output;
                    let said = self.vm.put_bytes("ok.\n".as_bytes());
                    proof {
                        if said.is_ok() {
                            assert(self.vm@.output == before + "ok.\n".spec_bytes());
                        }
                    }
                    return said;
                },
                ProcessAction::Continue => {},
                ProcessAction::Execute => {
                    self.settle()?;
                },
            }
        }
    }

    /// Runs the words on the call stack until none waits.
    fn settle(&mut self) -> (r: Result<(), Error>)
        requires
            old(self).wf(),
        ensures
            final(self).wf(),
            final(self).builtins == old(self).builtins,
            r.is_ok() ==> final(self).vm@.calls.len() == 0,
            final(self).vm@.ran_from(old(self).vm@),
            final(self).vm@.input_cap == old(self).vm@.input_cap,
            !(r matches Err(Error::PendingCallAgain)),
            old(self).vm@.run(0).1 != Err::<(), Error>(Error::PendingCallAgain) || old(
                self).vm@.host_free() ==> r == old(self).vm@.run(0).1 && final(self).vm@.unwound(
                0,
            ) == old(self).vm@.run(0).0,
    {
        loop
            invariant
                self.wf(),
                self.builtins == old(self).builtins,
                self.vm@.ran_from(old(self).vm@),
                self.vm@.input_cap == old(self).vm@.input_cap,
                old(self).vm@.run(0).1 != Err::<(), Error>(Error::PendingCallAgain) || old(
                    self).vm@.host_free() ==> self.vm@.run(0) == old(self).vm@.run(0),
            decreases self.vm@.steps_left,
        {
            proof {
                reveal(ForthView::<_>::run);
                reveal(ForthView::<_>::resolve);
                reveal(ForthView::<_>::step);
                assert(self.vm@.calls.take(0) =~= Seq::<crate::CallContext>::empty());
            }
            match self.async_pig()? {
                Step::Done => {
                    return Ok(());
                },
                Step::NotDone => {},
            }
        }
    }

    /// Single step execution: the turn of the machine, and where the word on
    /// top of the call stack is the host's, one attempt of the host at it,
    /// after which the machine goes on as `after_host` says. `Done` when no
    /// word waits.
    pub fn async_pig(&mut self) -> (r: Result<Step, Error>)
        requires
            old(self).wf(),
        ensures
            final(self).wf(),
            final(self).builtins == old(self).builtins,
            final(self).vm@.ran_from(old(self).vm@),
            final(self).vm@.input_cap == old(self).vm@.input_cap,
            !(r matches Err(Error::PendingCallAgain)),
            r == Ok::<Step, Error>(Step::NotDone) ==> final(self).vm@.steps_left < old(
                self).vm@.steps_left,
            !(old(self).vm@.turn().1 matches Ok(Turn::Host { .. })) ==> final(self).vm@ == old(
                self).vm@.turn().0 && r == match old(self).vm@.turn().1 {
                Ok(Turn::Done) => Ok::<Step, Error>(Step::Done),
                Ok(_) => Ok::<Step, Error>(Step::NotDone),
                Err(e) => Err::<Step, Error>(e),
            },
            old(self).vm@.turn().1 matches Ok(Turn::Host { .. }) ==> final(self).vm@.attempted(
                old(self).vm@.turn().0,
                r,
            ),
    {
        match self.vm.turn()? {
            Turn::Done => Ok(Step::Done),
            Turn::Stepped => Ok(Step::NotDone),
            Turn::Host { index } => {
                let name = match self.vm.host_name(index) {
                    Some(n) => n,
                    None => return Err(Error::InternalError),
                };
                let res = self.builtins.dispatch_async(&name, &mut self.vm);
                let ghost handed = self.vm@;
                let done = self.vm.after_host(res, 0);
                proof {
                    assert(self.vm@ == handed.after_host(res, 0).0);
                    assert(done == handed.after_host(res, 0).1);
                }
                match done {
                    Ok(()) => Ok(Step::NotDone),
                    Err(e) => Err(e),
                }
            },
        }
    }
}

} // verus!
