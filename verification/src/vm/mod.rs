//! The machine: its parts, the lookup of words, and the execution of a line.

use crate::dictionary::{
    is_ascii_bytes, lower, ArenaView, AsyncBuiltinEntry, BuiltinEntry, BumpError, DictionaryBump,
    EntryKind, NameRef, RawEntry, ENTRY_SIZE,
};
use crate::fastr::{len_hash_of, name_prefix};
use crate::vm::builtins::Target;
use crate::fastr::{FaStr, NameView, TmpFaStr};
use crate::input::{InputView, WordStrBuf};
use crate::number::{parse_i32, parse_num};
use crate::number::{decimal_signed, push_decimal};
use crate::output::{pushed, OutputBuf, OutputError};
use crate::stack::{Stack, StackError};
use crate::word::Word;
use crate::{CallContext, Error, Lookup, Mode, WordFunc};
use vstd::prelude::*;
use vstd::string::StringSliceAdditionalSpecFns;

pub mod appending;
pub mod async_vm;
pub mod builtins;
pub mod compiling;
pub mod duality;
pub mod laws;
pub mod lines;
pub mod munch;
pub mod table;

verus! {

/// The arena lies below this address.
pub const ARENA_LIMIT: u32 = 0x4000_0000;

/// The word at index `i` of the builtin table has the address `BUILTIN_BASE + i`.
pub const BUILTIN_BASE: u32 = 0x4000_0000;

/// The word at index `i` of the host's table has the address `ASYNC_BASE + i`.
pub const ASYNC_BASE: u32 = 0x6000_0000;

/// Neither table holds more words than this.
pub const TABLE_LIMIT: usize = 0x1000_0000;

/// The first entry of `table` from index `from` on that `name` names.
pub open spec fn first_builtin<T>(table: Seq<BuiltinEntry<T>>, name: NameView, from: int) -> Option<
    u32,
>
    decreases table.len() - from,
{
    if from < 0 || from >= table.len() {
        None
    } else if table[from].hdr.named(name) {
        Some(from as u32)
    } else {
        first_builtin(table, name, from + 1)
    }
}

/// The first entry of `table` from index `from` on that `name` names.
pub open spec fn first_async<T>(table: Seq<AsyncBuiltinEntry<T>>, name: NameView, from: int) -> Option<
    u32,
>
    decreases table.len() - from,
{
    if from < 0 || from >= table.len() {
        None
    } else if table[from].hdr.named(name) {
        Some(from as u32)
    } else {
        first_async(table, name, from + 1)
    }
}

/// The machine as a value.
pub struct ForthView<T> {
    pub mode: Mode,
    pub data: Seq<Word>,
    pub data_cap: nat,
    pub ret: Seq<Word>,
    pub ret_cap: nat,
    pub calls: Seq<CallContext>,
    pub calls_cap: nat,
    pub arena: ArenaView,
    /// Address of the newest entry of the dictionary, 0 for none.
    pub tail: u32,
    pub input: InputView,
    /// The longest line that the tokenizer takes.
    pub input_cap: nat,
    pub output: Seq<u8>,
    pub output_cap: nat,
    pub host: T,
    pub builtins: Seq<BuiltinEntry<T>>,
    pub async_builtins: Seq<AsyncBuiltinEntry<T>>,
    /// Interpreter steps that the current line may still take.
    pub steps_left: u64,
    pub step_limit: u64,
}

impl<T> ForthView<T> {
    pub open spec fn wf(self) -> bool {
        &&& self.data.len() <= self.data_cap
        &&& self.ret.len() <= self.ret_cap
        &&& self.calls.len() <= self.calls_cap
        &&& self.output.len() <= self.output_cap
        &&& self.arena.wf()
        &&& 1 <= self.arena.start
        &&& self.arena.end() <= ARENA_LIMIT
        &&& (self.tail == 0 || (self.arena.start <= self.tail && self.tail + ENTRY_SIZE
            <= self.arena.cur))
        &&& self.input.wf()
        &&& self.input.buf.len() <= self.input_cap
        &&& self.builtins.len() <= TABLE_LIMIT
        &&& self.async_builtins.len() <= TABLE_LIMIT
        &&& forall|i: int| 0 <= i < self.builtins.len() ==> (#[trigger] self.builtins[i]).hdr.wf()
        &&& forall|i: int|
            0 <= i < self.async_builtins.len() ==> (#[trigger] self.async_builtins[i]).hdr.wf()
    }

    /// The cell `n` places below the top of the data stack.
    pub open spec fn top(self, n: int) -> Word {
        self.data[self.data.len() - 1 - n]
    }

    /// The cell `n` places below the top of the return stack.
    pub open spec fn rtop(self, n: int) -> Word {
        self.ret[self.ret.len() - 1 - n]
    }

    /// After `k` cells were taken off the data stack one by one: where it
    /// held fewer, it is empty.
    pub open spec fn taken(self, k: nat) -> ForthView<T> {
        ForthView {
            data: if self.data.len() >= k {
                self.data.take(self.data.len() - k)
            } else {
                Seq::empty()
            },
            ..self
        }
    }

    /// After `outs` were put on the data stack one by one, as far as they fit.
    pub open spec fn given(self, outs: Seq<Word>) -> ForthView<T> {
        ForthView {
            data: self.data + (if self.data.len() + outs.len() <= self.data_cap {
                outs
            } else {
                outs.take(self.data_cap - self.data.len())
            }),
            ..self
        }
    }

    /// After `k` cells were taken off the return stack one by one.
    pub open spec fn rtaken(self, k: nat) -> ForthView<T> {
        ForthView {
            ret: if self.ret.len() >= k {
                self.ret.take(self.ret.len() - k)
            } else {
                Seq::empty()
            },
            ..self
        }
    }

    /// After `outs` were put on the return stack one by one, as far as they fit.
    pub open spec fn rgiven(self, outs: Seq<Word>) -> ForthView<T> {
        ForthView {
            ret: self.ret + (if self.ret.len() + outs.len() <= self.ret_cap {
                outs
            } else {
                outs.take(self.ret_cap - self.ret.len())
            }),
            ..self
        }
    }

    /// Putting `outs` on the data stack: `StackFull` where they do not all fit.
    pub open spec fn give(self, outs: Seq<Word>) -> (ForthView<T>, Result<(), Error>) {
        (
            self.given(outs),
            if self.data.len() + outs.len() <= self.data_cap {
                Ok(())
            } else {
                Err(Error::Stack(StackError::StackFull))
            },
        )
    }

    /// Putting `outs` on the return stack: `StackFull` where they do not all
    /// fit.
    pub open spec fn rgive(self, outs: Seq<Word>) -> (ForthView<T>, Result<(), Error>) {
        (
            self.rgiven(outs),
            if self.ret.len() + outs.len() <= self.ret_cap {
                Ok(())
            } else {
                Err(Error::Stack(StackError::StackFull))
            },
        )
    }

    /// A word that takes `k` cells off the data stack and then puts `outs`
    /// there: `StackEmpty` where it holds fewer than `k`.
    pub open spec fn take_give(self, k: nat, outs: Seq<Word>) -> (ForthView<T>, Result<(), Error>) {
        if self.data.len() < k {
            (self.taken(k), Err(Error::Stack(StackError::StackEmpty)))
        } else {
            self.taken(k).give(outs)
        }
    }

    /// A word that looks at the top `k` cells of the data stack and then puts
    /// `outs` there: `StackEmpty`, and nothing changed, where it holds fewer.
    pub open spec fn peek_give(self, k: nat, outs: Seq<Word>) -> (ForthView<T>, Result<(), Error>) {
        if self.data.len() < k {
            (self, Err(Error::Stack(StackError::StackEmpty)))
        } else {
            self.give(outs)
        }
    }

    /// A word that takes `k` cells off the data stack, gives up with `fail`
    /// where that is an error, and else puts `outs` there.
    pub open spec fn take_check_give(self, k: nat, fail: Option<Error>, outs: Seq<Word>) -> (
        ForthView<T>,
        Result<(), Error>,
    ) {
        if self.data.len() < k {
            (self.taken(k), Err(Error::Stack(StackError::StackEmpty)))
        } else if fail.is_some() {
            (self.taken(k), Err(fail.unwrap()))
        } else {
            self.taken(k).give(outs)
        }
    }

    /// Writing `bytes` to the output: all of them, or none and `Full`.
    pub open spec fn put(self, bytes: Seq<u8>) -> (ForthView<T>, Result<(), Error>) {
        (
            ForthView { output: pushed(self.output, self.output_cap, bytes), ..self },
            if self.output.len() + bytes.len() <= self.output_cap {
                Ok(())
            } else {
                Err(Error::Output(OutputError::Full))
            },
        )
    }

    /// After room for an entry was taken and the entry of the builtin `bi`
    /// written there, under the name stored at `name_addr`.
    pub open spec fn linked(self, name_addr: u32, len_hash: u32, bi: WordFunc) -> (
        ForthView<T>,
        Result<(), Error>,
    ) {
        if !self.arena.bump_fits(ENTRY_SIZE as nat, 4) {
            (
                ForthView { arena: self.arena.bumped(ENTRY_SIZE as nat, 4), ..self },
                Err(Error::Bump(BumpError::OutOfMemory)),
            )
        } else {
            (
                ForthView {
                    arena: self.arena.bumped(ENTRY_SIZE as nat, 4).store_entry(
                        self.arena.bump_addr(4) as int,
                        RawEntry {
                            name_addr,
                            len_hash,
                            kind: EntryKind::RuntimeBuiltin.spec_code(),
                            len: 0,
                            func: bi.spec_code(),
                            link: self.tail,
                        },
                    ),
                    tail: self.arena.bump_addr(4) as u32,
                    ..self
                },
                Ok(()),
            )
        }
    }

    /// The name as it is stored: its first 31 bytes at most, folded to lower
    /// case where `fold` says so.
    pub open spec fn stored_name(name: Seq<u8>, fold: bool) -> Seq<u8> {
        if fold {
            lower(name_prefix(name))
        } else {
            name_prefix(name)
        }
    }

    /// Adding the builtin `bi` to the dictionary under `name`: the name is
    /// stored at the cursor, the entry behind it, and the entry is the newest
    /// of the dictionary.
    pub open spec fn spec_add_builtin(self, name: Seq<u8>, bi: WordFunc, fold: bool) -> (
        ForthView<T>,
        Result<(), Error>,
    ) {
        let text = Self::stored_name(name, fold);
        if !is_ascii_bytes(name_prefix(name)) {
            (self, Err(Error::Bump(BumpError::CantAllocUtf8)))
        } else if text.len() == 0 || self.arena.cur + text.len() > self.arena.end() {
            (self, Err(Error::Bump(BumpError::OutOfMemory)))
        } else {
            ForthView {
                arena: self.arena.store(self.arena.cur as int, text).with_cur(
                    self.arena.cur + text.len(),
                ),
                ..self
            }.linked(self.arena.cur as u32, len_hash_of(text), bi)
        }
    }

    /// Calling the word at `eh` from the line: its frame is put on the call
    /// stack and the machine runs until the frame is gone.
    pub open spec fn call_word(self, eh: u32) -> (ForthView<T>, Result<(), Error>) {
        match self.resolve(eh) {
            Err(e) => (self, Err(e)),
            Ok(t) => if self.call(Self::frame_for(eh, t)).1.is_err() {
                self.call(Self::frame_for(eh, t))
            } else {
                self.call(Self::frame_for(eh, t)).0.run(self.calls.len())
            },
        }
    }

    /// Executing the next token of the line: a word is called, a number is
    /// put on the data stack, a comment is passed over, a string literal is
    /// written; a token that only compiles is refused. At the end of the
    /// line `ok.` is written and the result is `Ok(true)`.
    pub open spec fn word_run(self) -> (ForthView<T>, Result<bool, Error>) {
        let s = self.advanced();
        if s.input.word().is_none() {
            (
                s.put("ok.\n".spec_bytes()).0,
                if s.put("ok.\n".spec_bytes()).1.is_err() {
                    Err(Error::Output(OutputError::FormattingErr))
                } else {
                    Ok(true)
                },
            )
        } else {
            match s.lookup(s.input.word().unwrap()) {
                Err(e) => (s, Err(e)),
                Ok(Lookup::Dict { de }) => Self::went_on(s.call_word(de)),
                Ok(Lookup::Builtin { bi }) => Self::went_on(s.call_word((BUILTIN_BASE + bi) as u32)),
                Ok(Lookup::Async { bi }) => Self::went_on(s.call_word((ASYNC_BASE + bi) as u32)),
                Ok(Lookup::Literal { val }) => Self::went_on(s.give(seq![Word { data: val }])),
                Ok(Lookup::LParen) => (s.munch_comment(), Ok(false)),
                Ok(Lookup::LQuote) => if !s.input.literal_closed() {
                    (s, Err(Error::BadStrLiteral))
                } else {
                    Self::went_on(
                        ForthView { input: s.input.advanced_str(), ..s }.put(
                            s.input.advanced_str().literal().unwrap(),
                        ),
                    )
                },
                Ok(_) => (s, Err(Error::InterpretingCompileOnlyWord)),
            }
        }
    }

    /// The result of a token after which the line goes on.
    pub open spec fn went_on(r: (ForthView<T>, Result<(), Error>)) -> (
        ForthView<T>,
        Result<bool, Error>,
    ) {
        (
            r.0,
            match r.1 {
                Ok(()) => Ok(false),
                Err(e) => Err(e),
            },
        )
    }

    /// Executing the tokens of the line from where the tokenizer stands.
    #[verifier::opaque]
    pub open spec fn line_from(self) -> (ForthView<T>, Result<(), Error>)
        decreases self.input.remaining(),
    {
        let one = self.word_run();
        match one.1 {
            Err(e) => (one.0, Err(e)),
            Ok(done) => if done {
                (one.0, Ok(()))
            } else if one.0.input.remaining() < self.input.remaining() {
                one.0.line_from()
            } else {
                (one.0, Err(Error::InternalError))
            },
        }
    }

    /// Executing the line with a fresh budget of steps.
    pub open spec fn spec_process_line(self) -> (ForthView<T>, Result<(), Error>) {
        ForthView { steps_left: self.step_limit, ..self }.line_from()
    }

    /// The newest word of the dictionary that `name` names.
    pub open spec fn find_in_dict(self, name: NameView) -> Option<u32> {
        self.arena.find(self.tail as int, name)
    }

    /// The first word of the builtin table that `name` names.
    pub open spec fn find_in_bis(self, name: NameView) -> Option<u32> {
        first_builtin(self.builtins, name, 0)
    }

    /// The first word of the host's table that `name` names.
    pub open spec fn find_in_async(self, name: NameView) -> Option<u32> {
        first_async(self.async_builtins, name, 0)
    }

    /// The address of the word `word`: the dictionary is asked first, then the
    /// builtin table, then the host's table.
    pub open spec fn find_word(self, word: Seq<u8>) -> Option<u32> {
        let name = NameView::of(word);
        if self.find_in_dict(name).is_some() {
            self.find_in_dict(name)
        } else if self.find_in_bis(name).is_some() {
            Some((BUILTIN_BASE + self.find_in_bis(name).unwrap()) as u32)
        } else if self.find_in_async(name).is_some() {
            Some((ASYNC_BASE + self.find_in_async(name).unwrap()) as u32)
        } else {
            None
        }
    }

    /// What the token `word` is: a reserved token, else a word of the
    /// dictionary, of the builtin table or of the host's table, else a
    /// number.
    pub open spec fn lookup(self, word: Seq<u8>) -> Result<Lookup, Error> {
        let name = NameView::of(word);
        if word == ";".spec_bytes() {
            Ok(Lookup::Semicolon)
        } else if word == "if".spec_bytes() {
            Ok(Lookup::If)
        } else if word == "else".spec_bytes() {
            Ok(Lookup::Else)
        } else if word == "then".spec_bytes() {
            Ok(Lookup::Then)
        } else if word == "do".spec_bytes() {
            Ok(Lookup::Do)
        } else if word == "loop".spec_bytes() {
            Ok(Lookup::Loop)
        } else if word == "(".spec_bytes() {
            Ok(Lookup::LParen)
        } else if word == ".\"".spec_bytes() {
            Ok(Lookup::LQuote)
        } else if self.find_in_dict(name).is_some() {
            Ok(Lookup::Dict { de: self.find_in_dict(name).unwrap() })
        } else if self.find_in_bis(name).is_some() {
            Ok(Lookup::Builtin { bi: self.find_in_bis(name).unwrap() })
        } else if self.find_in_async(name).is_some() {
            Ok(Lookup::Async { bi: self.find_in_async(name).unwrap() })
        } else if parse_i32(word).is_some() {
            Ok(Lookup::Literal { val: parse_i32(word).unwrap() })
        } else {
            Err(Error::LookupFailed)
        }
    }
}

/// Forth is the "context" of the VM/interpreter: the stacks, the dictionary,
/// the tokenizer with the current line, the output, and the host's value.
pub struct Forth<T> {
    pub mode: Mode,
    pub data_stack: Stack<Word>,
    pub return_stack: Stack<Word>,
    pub call_stack: Stack<CallContext>,
    pub dict_alloc: DictionaryBump,
    pub run_dict_tail: u32,
    pub input: WordStrBuf,
    pub output: OutputBuf,
    pub host_ctxt: T,
    pub builtins: Vec<BuiltinEntry<T>>,
    pub async_builtins: Vec<AsyncBuiltinEntry<T>>,
    pub steps_left: u64,
    pub step_limit: u64,
}

impl<T> View for Forth<T> {
    type V = ForthView<T>;

    open spec fn view(&self) -> ForthView<T> {
        ForthView {
            mode: self.mode,
            data: self.data_stack@,
            data_cap: self.data_stack.spec_capacity(),
            ret: self.return_stack@,
            ret_cap: self.return_stack.spec_capacity(),
            calls: self.call_stack@,
            calls_cap: self.call_stack.spec_capacity(),
            arena: self.dict_alloc@,
            tail: self.run_dict_tail,
            input: self.input@,
            input_cap: self.input.spec_capacity(),
            output: self.output@,
            output_cap: self.output.spec_capacity(),
            host: self.host_ctxt,
            builtins: self.builtins@,
            async_builtins: self.async_builtins@,
            steps_left: self.steps_left,
            step_limit: self.step_limit,
        }
    }
}

/// True when the descriptor of every entry gives the length of its name.
fn table_wf<T>(table: &Vec<BuiltinEntry<T>>) -> (r: bool)
    ensures
        r == forall|i: int| 0 <= i < table@.len() ==> (#[trigger] table@[i]).hdr.wf(),
{
    let mut i: usize = 0;
    while i < table.len()
        invariant
            i <= table@.len(),
            forall|j: int| 0 <= j < i ==> (#[trigger] table@[j]).hdr.wf(),
        decreases table@.len() - i,
    {
        if table[i].hdr.name.len() != table[i].hdr.len_hash.len() {
            assert(!table@[i as int].hdr.wf());
            return false;
        }
        i += 1;
    }
    true
}

/// True when the descriptor of every entry gives the length of its name.
fn async_table_wf<T>(table: &Vec<AsyncBuiltinEntry<T>>) -> (r: bool)
    ensures
        r == forall|i: int| 0 <= i < table@.len() ==> (#[trigger] table@[i]).hdr.wf(),
{
    let mut i: usize = 0;
    while i < table.len()
        invariant
            i <= table@.len(),
            forall|j: int| 0 <= j < i ==> (#[trigger] table@[j]).hdr.wf(),
        decreases table@.len() - i,
    {
        if table[i].hdr.name.len() != table[i].hdr.len_hash.len() {
            assert(!table@[i as int].hdr.wf());
            return false;
        }
        i += 1;
    }
    true
}

impl<T> Forth<T> {
    /// The parts are in order and fit together.
    pub open spec fn wf(&self) -> bool {
        &&& self.data_stack.wf()
        &&& self.return_stack.wf()
        &&& self.call_stack.wf()
        &&& self.dict_alloc.wf()
        &&& self.input.wf()
        &&& self.output.wf()
        &&& self@.wf()
    }

    /// Can a machine be made over an arena of `size` bytes at `bottom` with
    /// these tables?
    pub open spec fn new_ok(
        dict_buf: (usize, usize),
        builtins: Seq<BuiltinEntry<T>>,
        async_builtins: Seq<AsyncBuiltinEntry<T>>,
    ) -> bool {
        &&& 1 <= dict_buf.0
        &&& dict_buf.0 + dict_buf.1 <= ARENA_LIMIT
        &&& builtins.len() <= TABLE_LIMIT
        &&& async_builtins.len() <= TABLE_LIMIT
        &&& forall|i: int| 0 <= i < builtins.len() ==> (#[trigger] builtins[i]).hdr.wf()
        &&& forall|i: int| 0 <= i < async_builtins.len() ==> (#[trigger] async_builtins[i]).hdr.wf()
    }

    /// A machine with empty stacks of the given capacities, an empty
    /// dictionary in a zeroed arena of `dict_buf.1` bytes whose first byte has
    /// the address `dict_buf.0`, and no limit on the steps of a line.
    /// `InternalError` where the arena would hold address 0 or reach beyond
    /// `ARENA_LIMIT`, or where the table is larger than `TABLE_LIMIT` or holds a
    /// malformed entry.
    pub fn new(
        dstack_buf: usize,
        rstack_buf: usize,
        cstack_buf: usize,
        dict_buf: (usize, usize),
        input: WordStrBuf,
        output: OutputBuf,
        host_ctxt: T,
        builtins: Vec<BuiltinEntry<T>>,
    ) -> (r: Result<Self, Error>)
        requires
            input.wf(),
            output.wf(),
        ensures
            r.is_ok() == Self::new_ok(dict_buf, builtins@, Seq::empty()),
            r matches Err(e) ==> e == Error::InternalError,
            r.is_ok() ==> r.unwrap().wf() && r.unwrap()@ == Self::initial(
                dstack_buf,
                rstack_buf,
                cstack_buf,
                dict_buf,
                input@,
                input.spec_capacity(),
                output@,
                output.spec_capacity(),
                host_ctxt,
                builtins@,
                Seq::empty(),
            ),
    {
        Self::new_async(
            dstack_buf,
            rstack_buf,
            cstack_buf,
            dict_buf,
            input,
            output,
            host_ctxt,
            builtins,
            Vec::new(),
        )
    }

    /// The machine that `new` and `new_async` make.
    pub open spec fn initial(
        dstack_buf: usize,
        rstack_buf: usize,
        cstack_buf: usize,
        dict_buf: (usize, usize),
        input: InputView,
        input_cap: nat,
        output: Seq<u8>,
        output_cap: nat,
        host_ctxt: T,
        builtins: Seq<BuiltinEntry<T>>,
        async_builtins: Seq<AsyncBuiltinEntry<T>>,
    ) -> ForthView<T> {
        ForthView {
            mode: Mode::Run,
            data: Seq::empty(),
            data_cap: dstack_buf as nat,
            ret: Seq::empty(),
            ret_cap: rstack_buf as nat,
            calls: Seq::empty(),
            calls_cap: cstack_buf as nat,
            arena: ArenaView {
                start: dict_buf.0 as nat,
                cur: dict_buf.0 as nat,
                mem: crate::dictionary::zeros(dict_buf.1 as nat),
            },
            tail: 0,
            input,
            input_cap,
            output,
            output_cap,
            host: host_ctxt,
            builtins,
            async_builtins,
            steps_left: u64::MAX,
            step_limit: u64::MAX,
        }
    }

    /// As `new`, with the table of the words that the host runs.
    pub fn new_async(
        dstack_buf: usize,
        rstack_buf: usize,
        cstack_buf: usize,
        dict_buf: (usize, usize),
        input: WordStrBuf,
        output: OutputBuf,
        host_ctxt: T,
        builtins: Vec<BuiltinEntry<T>>,
        async_builtins: Vec<AsyncBuiltinEntry<T>>,
    ) -> (r: Result<Self, Error>)
        requires
            input.wf(),
            output.wf(),
        ensures
            r.is_ok() == Self::new_ok(dict_buf, builtins@, async_builtins@),
            r matches Err(e) ==> e == Error::InternalError,
            r.is_ok() ==> r.unwrap().wf() && r.unwrap()@ == Self::initial(
                dstack_buf,
                rstack_buf,
                cstack_buf,
                dict_buf,
                input@,
                input.spec_capacity(),
                output@,
                output.spec_capacity(),
                host_ctxt,
                builtins@,
                async_builtins@,
            ),
    {
        if dict_buf.0 < 1 || dict_buf.0 > 0x4000_0000 || dict_buf.1 > 0x4000_0000 - dict_buf.0 {
            return Err(Error::InternalError);
        }
        if builtins.len() > TABLE_LIMIT || async_builtins.len() > TABLE_LIMIT {
            return Err(Error::InternalError);
        }
        if !table_wf(&builtins) || !async_table_wf(&async_builtins) {
            return Err(Error::InternalError);
        }
        Ok(
            Forth {
                mode: Mode::Run,
                data_stack: Stack::new(dstack_buf),
                return_stack: Stack::new(rstack_buf),
                call_stack: Stack::new(cstack_buf),
                dict_alloc: DictionaryBump::new(dict_buf.0, dict_buf.1),
                run_dict_tail: 0,
                input,
                output,
                host_ctxt,
                builtins,
                async_builtins,
                steps_left: u64::MAX,
                step_limit: u64::MAX,
            },
        )
    }

    /// Takes the top cell off the data stack.
    pub fn take1(&mut self) -> (r: Result<Word, Error>)
        requires
            old(self).wf(),
        ensures
            final(self).wf(),
            final(self)@ == old(self)@.taken(1),
            r == if old(self)@.data.len() >= 1 {
                Ok::<Word, Error>(old(self)@.top(0))
            } else {
                Err::<Word, Error>(Error::Stack(StackError::StackEmpty))
            },
    {
        match self.data_stack.try_pop() {
            Ok(a) => {
                assert(self.data_stack@ =~= old(self)@.taken(1).data);
                Ok(a)
            },
            Err(e) => {
                assert(self.data_stack@ =~= old(self)@.taken(1).data);
                Err(Error::Stack(e))
            },
        }
    }

    /// Takes the top two cells off the data stack: the top first.
    pub fn take2(&mut self) -> (r: Result<(Word, Word), Error>)
        requires
            old(self).wf(),
        ensures
            final(self).wf(),
            final(self)@ == old(self)@.taken(2),
            r == if old(self)@.data.len() >= 2 {
                Ok::<(Word, Word), Error>((old(self)@.top(0), old(self)@.top(1)))
            } else {
                Err::<(Word, Word), Error>(Error::Stack(StackError::StackEmpty))
            },
    {
        let a = self.take1()?;
        let b = self.take1()?;
        assert(self.data_stack@ =~= old(self)@.taken(2).data);
        Ok((a, b))
    }

    /// Takes the top three cells off the data stack: the top first.
    pub fn take3(&mut self) -> (r: Result<(Word, Word, Word), Error>)
        requires
            old(self).wf(),
        ensures
            final(self).wf(),
            final(self)@ == old(self)@.taken(3),
            r == if old(self)@.data.len() >= 3 {
                Ok::<(Word, Word, Word), Error>(
                    (old(self)@.top(0), old(self)@.top(1), old(self)@.top(2)),
                )
            } else {
                Err::<(Word, Word, Word), Error>(Error::Stack(StackError::StackEmpty))
            },
    {
        let (a, b) = self.take2()?;
        let c = self.take1()?;
        assert(self.data_stack@ =~= old(self)@.taken(3).data);
        Ok((a, b, c))
    }

    /// Takes the top four cells off the data stack: the top first.
    pub fn take4(&mut self) -> (r: Result<(Word, Word, Word, Word), Error>)
        requires
            old(self).wf(),
        ensures
            final(self).wf(),
            final(self)@ == old(self)@.taken(4),
            r == if old(self)@.data.len() >= 4 {
                Ok::<(Word, Word, Word, Word), Error>(
                    (old(self)@.top(0), old(self)@.top(1), old(self)@.top(2), old(self)@.top(3)),
                )
            } else {
                Err::<(Word, Word, Word, Word), Error>(Error::Stack(StackError::StackEmpty))
            },
    {
        let (a, b, c) = self.take3()?;
        let d = self.take1()?;
        assert(self.data_stack@ =~= old(self)@.taken(4).data);
        Ok((a, b, c, d))
    }

    /// Puts `outs` on the data stack one by one, until one does not fit.
    pub fn give(&mut self, outs: &[Word]) -> (r: Result<(), Error>)
        requires
            old(self).wf(),
        ensures
            final(self).wf(),
            (final(self)@, r) == old(self)@.give(outs@),
    {
        let mut i: usize = 0;
        while i < outs.len()
            invariant
                self.wf(),
                i <= outs@.len(),
                old(self)@.data.len() + i <= old(self)@.data_cap,
                self@ == (ForthView { data: old(self)@.data + outs@.take(i as int), ..old(self)@ }),
            decreases outs@.len() - i,
        {
            match self.data_stack.push(outs[i]) {
                Ok(()) => {
                    assert(self.data_stack@ =~= old(self)@.data + outs@.take(i + 1));
                },
                Err(e) => {
                    assert(self@.data =~= old(self)@.given(outs@).data);
                    return Err(Error::Stack(e));
                },
            }
            i += 1;
        }
        assert(outs@.take(outs@.len() as int) =~= outs@);
        Ok(())
    }

    /// Takes the top cell off the return stack.
    pub fn rtake1(&mut self) -> (r: Result<Word, Error>)
        requires
            old(self).wf(),
        ensures
            final(self).wf(),
            final(self)@ == old(self)@.rtaken(1),
            r == if old(self)@.ret.len() >= 1 {
                Ok::<Word, Error>(old(self)@.rtop(0))
            } else {
                Err::<Word, Error>(Error::Stack(StackError::StackEmpty))
            },
    {
        match self.return_stack.try_pop() {
            Ok(a) => {
                assert(self.return_stack@ =~= old(self)@.rtaken(1).ret);
                Ok(a)
            },
            Err(e) => {
                assert(self.return_stack@ =~= old(self)@.rtaken(1).ret);
                Err(Error::Stack(e))
            },
        }
    }

    /// Puts `outs` on the return stack one by one, until one does not fit.
    pub fn rgive(&mut self, outs: &[Word]) -> (r: Result<(), Error>)
        requires
            old(self).wf(),
        ensures
            final(self).wf(),
            (final(self)@, r) == old(self)@.rgive(outs@),
    {
        let mut i: usize = 0;
        while i < outs.len()
            invariant
                self.wf(),
                i <= outs@.len(),
                old(self)@.ret.len() + i <= old(self)@.ret_cap,
                self@ == (ForthView { ret: old(self)@.ret + outs@.take(i as int), ..old(self)@ }),
            decreases outs@.len() - i,
        {
            match self.return_stack.push(outs[i]) {
                Ok(()) => {
                    assert(self.return_stack@ =~= old(self)@.ret + outs@.take(i + 1));
                },
                Err(e) => {
                    assert(self@.ret =~= old(self)@.rgiven(outs@).ret);
                    return Err(Error::Stack(e));
                },
            }
            i += 1;
        }
        assert(outs@.take(outs@.len() as int) =~= outs@);
        Ok(())
    }

    /// Puts one cell on the data stack.
    pub fn give1(&mut self, a: Word) -> (r: Result<(), Error>)
        requires
            old(self).wf(),
        ensures
            final(self).wf(),
            (final(self)@, r) == old(self)@.give(seq![a]),
    {
        let outs = [a];
        assert(outs@ =~= seq![a]);
        self.give(&outs)
    }

    /// Puts two cells on the data stack, `a` first.
    pub fn give2(&mut self, a: Word, b: Word) -> (r: Result<(), Error>)
        requires
            old(self).wf(),
        ensures
            final(self).wf(),
            (final(self)@, r) == old(self)@.give(seq![a, b]),
    {
        let outs = [a, b];
        assert(outs@ =~= seq![a, b]);
        self.give(&outs)
    }

    /// Puts three cells on the data stack, `a` first.
    pub fn give3(&mut self, a: Word, b: Word, c: Word) -> (r: Result<(), Error>)
        requires
            old(self).wf(),
        ensures
            final(self).wf(),
            (final(self)@, r) == old(self)@.give(seq![a, b, c]),
    {
        let outs = [a, b, c];
        assert(outs@ =~= seq![a, b, c]);
        self.give(&outs)
    }

    /// Puts four cells on the data stack, `a` first.
    pub fn give4(&mut self, a: Word, b: Word, c: Word, d: Word) -> (r: Result<(), Error>)
        requires
            old(self).wf(),
        ensures
            final(self).wf(),
            (final(self)@, r) == old(self)@.give(seq![a, b, c, d]),
    {
        let outs = [a, b, c, d];
        assert(outs@ =~= seq![a, b, c, d]);
        self.give(&outs)
    }

    /// Puts one cell on the return stack.
    pub fn rgive1(&mut self, a: Word) -> (r: Result<(), Error>)
        requires
            old(self).wf(),
        ensures
            final(self).wf(),
            (final(self)@, r) == old(self)@.rgive(seq![a]),
    {
        let outs = [a];
        assert(outs@ =~= seq![a]);
        self.rgive(&outs)
    }

    /// Puts two cells on the return stack, `a` first.
    pub fn rgive2(&mut self, a: Word, b: Word) -> (r: Result<(), Error>)
        requires
            old(self).wf(),
        ensures
            final(self).wf(),
            (final(self)@, r) == old(self)@.rgive(seq![a, b]),
    {
        let outs = [a, b];
        assert(outs@ =~= seq![a, b]);
        self.rgive(&outs)
    }

    /// Writes one byte to the output.
    pub fn put_byte(&mut self, b: u8) -> (r: Result<(), Error>)
        requires
            old(self).wf(),
        ensures
            final(self).wf(),
            (final(self)@, r) == old(self)@.put(seq![b]),
    {
        match self.output.push_byte(b) {
            Ok(()) => Ok(()),
            Err(e) => Err(Error::Output(e)),
        }
    }

    /// Writes `bytes` to the output.
    pub fn put_bytes(&mut self, bytes: &[u8]) -> (r: Result<(), Error>)
        requires
            old(self).wf(),
        ensures
            final(self).wf(),
            (final(self)@, r) == old(self)@.put(bytes@),
    {
        match self.output.push_bstr(bytes) {
            Ok(()) => Ok(()),
            Err(e) => Err(Error::Output(e)),
        }
    }

    /// Writes `v` in decimal, then a blank.
    pub fn put_decimal(&mut self, v: i64) -> (r: Result<(), Error>)
        requires
            old(self).wf(),
        ensures
            final(self).wf(),
            (final(self)@, r) == old(self)@.put(decimal_signed(v as int).push(32u8)),
    {
        match push_decimal(&mut self.output, v, 32) {
            Ok(()) => Ok(()),
            Err(e) => Err(Error::Output(e)),
        }
    }

    /// Are the parts of the machine in order, and do they fit together? A
    /// host that has had the machine in its hands can ask before it goes on.
    pub fn is_wf(&self) -> (r: bool)
        ensures
            r == self.wf(),
    {
        if !(self.data_stack.is_wf() && self.return_stack.is_wf() && self.call_stack.is_wf()
            && self.dict_alloc.is_wf() && self.input.is_wf() && self.output.is_wf()) {
            return false;
        }
        let start = self.dict_alloc.start();
        let cur = self.dict_alloc.cur();
        let end = self.dict_alloc.end();
        let tail = self.run_dict_tail as usize;
        if start < 1 || end > 0x4000_0000 {
            return false;
        }
        if tail != 0 && (start > tail || cur < 20 || tail > cur - 20) {
            return false;
        }
        if self.builtins.len() > TABLE_LIMIT || self.async_builtins.len() > TABLE_LIMIT {
            return false;
        }
        table_wf(&self.builtins) && async_table_wf(&self.async_builtins)
    }

    /// Gives the machine the whole budget of steps, as at the start of a line.
    pub fn refill_steps(&mut self)
        requires
            old(self).wf(),
        ensures
            final(self).wf(),
            final(self)@ == (ForthView { steps_left: old(self)@.step_limit, ..old(self)@ }),
    {
        self.steps_left = self.step_limit;
    }

    /// Sets how many interpreter steps one line may take.
    pub fn set_step_limit(&mut self, limit: u64)
        requires
            old(self).wf(),
        ensures
            final(self).wf(),
            final(self)@ == (ForthView { step_limit: limit, ..old(self)@ }),
    {
        self.step_limit = limit;
    }

    /// Gives the host's value back and drops the machine.
    pub fn release(self) -> (r: T)
        ensures
            r == self@.host,
    {
        self.host_ctxt
    }

    pub fn parse_num(word: &[u8]) -> (r: Option<i32>)
        ensures
            r == parse_i32(word@),
    {
        parse_num(word)
    }

    /// The first word of the builtin table that `fastr` names, by its index.
    pub fn find_in_bis(&self, fastr: &FaStr<'_>) -> (r: Option<u32>)
        requires
            self.wf(),
        ensures
            r == self@.find_in_bis(fastr@),
            r.is_some() ==> r.unwrap() < self@.builtins.len(),
    {
        let mut i: usize = 0;
        while i < self.builtins.len()
            invariant
                self.wf(),
                i <= self.builtins@.len(),
                first_builtin(self.builtins@, fastr@, 0) == first_builtin(
                    self.builtins@,
                    fastr@,
                    i as int,
                ),
            decreases self.builtins@.len() - i,
        {
            let name = self.builtins[i].hdr.name();
            if name == *fastr {
                return Some(i as u32);
            }
            i += 1;
        }
        None
    }

    /// The first word of the host's table that `fastr` names, by its index.
    pub fn find_in_async(&self, fastr: &FaStr<'_>) -> (r: Option<u32>)
        requires
            self.wf(),
        ensures
            r == self@.find_in_async(fastr@),
            r.is_some() ==> r.unwrap() < self@.async_builtins.len(),
    {
        let mut i: usize = 0;
        while i < self.async_builtins.len()
            invariant
                self.wf(),
                i <= self.async_builtins@.len(),
                first_async(self.async_builtins@, fastr@, 0) == first_async(
                    self.async_builtins@,
                    fastr@,
                    i as int,
                ),
            decreases self.async_builtins@.len() - i,
        {
            let name = self.async_builtins[i].hdr.name();
            if name == *fastr {
                return Some(i as u32);
            }
            i += 1;
        }
        None
    }

    /// The newest word of the dictionary that `fastr` names, by the address
    /// of its entry.
    pub fn find_in_dict(&self, fastr: &FaStr<'_>) -> (r: Option<u32>)
        requires
            self.wf(),
        ensures
            r == self@.find_in_dict(fastr@),
            r.is_some() ==> self@.arena.entry_ok(r.unwrap() as int) && r.unwrap() + ENTRY_SIZE
                <= self@.arena.cur && r.unwrap() > 0,
    {
        let mut optr: u32 = self.run_dict_tail;
        while optr != 0
            invariant
                self.wf(),
                optr == 0 || optr + ENTRY_SIZE <= self@.arena.cur,
                self@.arena.find(self@.tail as int, fastr@) == self@.arena.find(
                    optr as int,
                    fastr@,
                ),
            decreases optr,
        {
            let link = match self.dict_alloc.entry_at::<T>(optr) {
                None => {
                    return None;
                },
                Some(de) => de.link,
            };
            match self.dict_alloc.name_at(optr) {
                None => {
                    return None;
                },
                Some(name) => {
                    if name == *fastr {
                        return Some(optr);
                    }
                },
            }
            optr = link;
        }
        None
    }

    /// The address of the word `word`.
    pub fn find_word(&self, word: &str) -> (r: Option<u32>)
        requires
            self.wf(),
        ensures
            r == self@.find_word(word.spec_bytes()),
            r.is_some() ==> 0 < r.unwrap() <= i32::MAX,
    {
        let tmp = TmpFaStr::new_from(word);
        let fastr = tmp.deref();
        match self.find_in_dict(fastr) {
            Some(de) => Some(de),
            None => match self.find_in_bis(fastr) {
                Some(bi) => Some(BUILTIN_BASE + bi),
                None => match self.find_in_async(fastr) {
                    Some(bi) => Some(ASYNC_BASE + bi),
                    None => None,
                },
            },
        }
    }

    /// What the token `word` is.
    pub fn lookup(&self, word: &str) -> (r: Result<Lookup, Error>)
        requires
            self.wf(),
        ensures
            r == self@.lookup(word.spec_bytes()),
    {
        self.lookup_bytes(word.as_bytes())
    }

    /// What the token `word` is.
    pub fn lookup_bytes(&self, word: &[u8]) -> (r: Result<Lookup, Error>)
        requires
            self.wf(),
        ensures
            r == self@.lookup(word@),
            r matches Ok(Lookup::Dict { de }) ==> 0 < de && de + ENTRY_SIZE <= self@.arena.cur,
            r matches Ok(Lookup::Builtin { bi }) ==> bi < self@.builtins.len(),
            r matches Ok(Lookup::Async { bi }) ==> bi < self@.async_builtins.len(),
    {
        if crate::fastr::bytes_eq(word, ";".as_bytes()) {
            Ok(Lookup::Semicolon)
        } else if crate::fastr::bytes_eq(word, "if".as_bytes()) {
            Ok(Lookup::If)
        } else if crate::fastr::bytes_eq(word, "else".as_bytes()) {
            Ok(Lookup::Else)
        } else if crate::fastr::bytes_eq(word, "then".as_bytes()) {
            Ok(Lookup::Then)
        } else if crate::fastr::bytes_eq(word, "do".as_bytes()) {
            Ok(Lookup::Do)
        } else if crate::fastr::bytes_eq(word, "loop".as_bytes()) {
            Ok(Lookup::Loop)
        } else if crate::fastr::bytes_eq(word, "(".as_bytes()) {
            Ok(Lookup::LParen)
        } else if crate::fastr::bytes_eq(word, ".\"".as_bytes()) {
            Ok(Lookup::LQuote)
        } else {
            let fastr = FaStr::new(word);
            if let Some(entry) = self.find_in_dict(&fastr) {
                Ok(Lookup::Dict { de: entry })
            } else if let Some(bis) = self.find_in_bis(&fastr) {
                Ok(Lookup::Builtin { bi: bis })
            } else if let Some(bis) = self.find_in_async(&fastr) {
                Ok(Lookup::Async { bi: bis })
            } else if let Some(val) = parse_num(word) {
                Ok(Lookup::Literal { val })
            } else {
                Err(Error::LookupFailed)
            }
        }
    }

    /// Adds a builtin to the dictionary under `name`, taken as it is.
    pub fn add_builtin_static_name(&mut self, name: &'static str, bi: WordFunc) -> (r: Result<
        (),
        Error,
    >)
        requires
            old(self).wf(),
        ensures
            final(self).wf(),
            (final(self)@, r) == old(self)@.spec_add_builtin(name.spec_bytes(), bi, false),
    {
        let name = match self.dict_alloc.bump_bytes(name.as_bytes(), false) {
            Ok(n) => n,
            Err(e) => return Err(Error::Bump(e)),
        };
        self.add_bi_fastr(name, bi)
    }

    /// Adds a builtin to the dictionary under `name`, folded to lower case.
    pub fn add_builtin(&mut self, name: &str, bi: WordFunc) -> (r: Result<(), Error>)
        requires
            old(self).wf(),
        ensures
            final(self).wf(),
            (final(self)@, r) == old(self)@.spec_add_builtin(name.spec_bytes(), bi, true),
    {
        let name = match self.dict_alloc.bump_bytes(name.as_bytes(), true) {
            Ok(n) => n,
            Err(e) => return Err(Error::Bump(e)),
        };
        self.add_bi_fastr(name, bi)
    }

    /// Allocates an entry for the builtin `bi` under the stored name `name`
    /// and makes it the newest of the dictionary.
    pub fn add_bi_fastr(&mut self, name: NameRef, bi: WordFunc) -> (r: Result<(), Error>)
        requires
            old(self).wf(),
            name.addr <= u32::MAX,
        ensures
            final(self).wf(),
            (final(self)@, r) == old(self)@.linked(name.addr as u32, name.len_hash@, bi),
    {
        // Allocate and initialize the dictionary entry
        let dict_base = match self.dict_alloc.bump_layout(20, 4) {
            Ok(a) => a as u32,
            Err(e) => return Err(Error::Bump(e)),
        };
        let link = self.run_dict_tail;
        let written = self.dict_alloc.write_entry(
            dict_base,
            name,
            EntryKind::RuntimeBuiltin,
            0,
            bi,
            link,
        );
        self.run_dict_tail = dict_base;
        Ok(())
    }

    /// Puts a frame for the word at `eh` on the call stack and runs it.
    pub fn call_word(&mut self, eh: u32) -> (r: Result<(), Error>)
        requires
            old(self).wf(),
        ensures
            final(self).wf(),
            (final(self)@, r) == old(self)@.call_word(eh),
            final(self)@.ran_from(old(self)@),
            final(self)@.calls.len() <= old(self)@.calls.len(),
    {
        let target = self.resolve(eh)?;
        let len = match target {
            Target::Word { func, len } => len,
            Target::Async { index } => 0,
        };
        let base = self.call_stack.depth();
        match self.call_stack.push(CallContext { eh, idx: 0, len }) {
            Ok(()) => {},
            Err(e) => {
                return Err(Error::Stack(e));
            },
        }
        self.run(base)
    }

    /// Executes the next token of the line. `Ok(true)` at the end of the
    /// line, after `ok.` was written.
    pub fn word_run(&mut self) -> (r: Result<bool, Error>)
        requires
            old(self).wf(),
        ensures
            final(self).wf(),
            (final(self)@, r) == old(self)@.word_run(),
            final(self)@.ran_from(old(self)@),
            final(self)@.calls.len() <= old(self)@.calls.len(),
            r == Ok::<bool, Error>(false) ==> final(self)@.input.pos > old(self)@.input.pos,
    {
        self.input.advance();
        let word = match self.input.cur_word() {
            Some(w) => w,
            None => {
                return match self.output.push_str("ok.\n") {
                    Ok(()) => Ok(true),
                    Err(_) => Err(Error::Output(OutputError::FormattingErr)),
                };
            },
        };
        match self.lookup_bytes(word)? {
            Lookup::Dict { de } => {
                self.call_word(de)?;
            },
            Lookup::Builtin { bi } => {
                self.call_word(BUILTIN_BASE + bi)?;
            },
            Lookup::Async { bi } => {
                self.call_word(ASYNC_BASE + bi)?;
            },
            Lookup::Literal { val } => {
                self.give1(Word::data(val))?;
            },
            Lookup::LParen => {
                let mut unused: u16 = 0;
                let ghost before = self@;
                let _ = self.munch_comment(&mut unused);
                proof {
                    self@.lemma_compiled_bounds(before);
                }
            },
            Lookup::Semicolon => return Err(Error::InterpretingCompileOnlyWord),
            Lookup::If => return Err(Error::InterpretingCompileOnlyWord),
            Lookup::Else => return Err(Error::InterpretingCompileOnlyWord),
            Lookup::Then => return Err(Error::InterpretingCompileOnlyWord),
            Lookup::Do => return Err(Error::InterpretingCompileOnlyWord),
            Lookup::Loop => return Err(Error::InterpretingCompileOnlyWord),
            Lookup::LQuote => {
                match self.input.advance_str() {
                    Ok(()) => {},
                    Err(_) => {
                        return Err(Error::BadStrLiteral);
                    },
                }
                match self.input.cur_str_literal() {
                    Some(lit) => match self.output.push_bstr(lit) {
                        Ok(()) => {},
                        Err(e) => {
                            return Err(Error::Output(e));
                        },
                    },
                    None => {},
                }
            },
        }
        Ok(false)
    }

    /// Executes the line that the tokenizer holds, from where it stands, and
    /// writes `ok.` when the end of the line is reached. The line may take
    /// as many interpreter steps as the step limit says. An error ends the
    /// line where it came about.
    pub fn process_line(&mut self) -> (r: Result<(), Error>)
        requires
            old(self).wf(),
        ensures
            final(self).wf(),
            (final(self)@, r) == old(self)@.spec_process_line(),
            final(self)@.calls.len() <= old(self)@.calls.len(),
            old(self)@.calls.len() == 0 ==> final(self)@.calls.len() == 0,
            final(self)@.input.pos >= old(self)@.input.pos,
            final(self)@.input.buf.len() == old(self)@.input.buf.len(),
            final(self).input.spec_capacity() == old(self).input.spec_capacity(),
    {
        self.steps_left = self.step_limit;
        let ghost start = self@;
        loop
            invariant
                self.wf(),
                start == (ForthView { steps_left: old(self)@.step_limit, ..old(self)@ }),
                self@.line_from() == start.line_from(),
                self@.calls.len() <= start.calls.len(),
                self@.input.buf.len() == start.input.buf.len(),
                self@.input.pos >= start.input.pos,
                self@.input_cap == start.input_cap,
            decreases self@.input.remaining(),
        {
            proof {
                reveal(ForthView::<_>::line_from);
            }
            if self.word_run()? {
                return Ok(());
            }
        }
    }
}

} // verus!
