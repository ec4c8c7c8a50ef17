//! An embeddable Forth virtual machine with bounded memory.
//!
//! The machine owns three bounded stacks, a bump-allocated dictionary arena, a
//! line tokenizer and an output buffer. Every cell is 32 bits wide; addresses
//! are cell values, so compiled code, names and variables all live in one
//! address space that the machine checks on every access.

use vstd::prelude::*;

pub mod word;
pub mod stack;
pub mod fastr;
pub mod dictionary;
pub mod input;
pub mod output;
pub mod number;
pub mod vm;

use crate::dictionary::BumpError;
use crate::output::OutputError;
use crate::stack::StackError;

verus! {

/// Whether the machine executes words or compiles them into a definition.
#[derive(Clone, Copy, Debug, PartialEq, Eq, Structural)]
pub enum Mode {
    Run,
    Compile,
}

/// Everything that can end a line early.
#[derive(Clone, Copy, Debug, PartialEq, Eq, Structural)]
pub enum Error {
    Stack(StackError),
    Bump(BumpError),
    Output(OutputError),
    /// A word the compiler relies on is missing from the builtin table.
    WordNotInDict,
    ColonCompileMissingName,
    ColonCompileMissingSemicolon,
    /// The token is neither a known word nor a number.
    LookupFailed,
    ElseBeforeIf,
    ThenBeforeIf,
    IfWithoutThen,
    DuplicateElse,
    IfElseWithoutThen,
    CallStackCorrupted,
    InterpretingCompileOnlyWord,
    /// A frame's index would leave the range of a 16-bit cell count, or an
    /// inline operand lies outside the body.
    BadCfaOffset,
    LoopBeforeDo,
    DoWithoutLoop,
    LoopCountIsNegative,
    LQuoteMissingRQuote,
    LiteralStringTooLong,
    NullPointerInCFA,
    /// A cell that should name a word does not.
    CFANotInDict,
    BadStrLiteral,
    ForgetWithoutWordName,
    ForgetNotInDict,
    CantForgetBuiltins,
    InternalError,
    BadWordOffset,
    /// A cell was read or written through an address outside the arena.
    BadAddress,
    DivideByZero,
    /// The line used up its budget of interpreter steps.
    StepLimitReached,
    /// The host's word has not finished; the same word is to be called again.
    PendingCallAgain,
}

/// The routine behind a word.
#[derive(Clone, Copy, Debug, PartialEq, Eq, Structural)]
pub enum WordFunc {
    Add,
    Minus,
    Div,
    Modu,
    DivMod,
    Mul,
    Abs,
    Negate,
    Min,
    Max,
    StarSlash,
    StarSlashMod,
    Invert,
    And,
    Equal,
    Greater,
    Less,
    ZeroEqual,
    ZeroGreater,
    ZeroLess,
    Swap,
    Dup,
    Over,
    Rot,
    DsDrop,
    Swap2,
    Dup2,
    Over2,
    DsDrop2,
    Emit,
    Cr,
    Space,
    Spaces,
    PopPrint,
    UnsignedPopPrint,
    Colon,
    Forget,
    DataToReturnStack,
    Data2ToReturn2Stack,
    ReturnToDataStack,
    LoopI,
    LoopItick,
    LoopJ,
    LoopLeave,
    VarLoad,
    VarStore,
    WordAdd,
    ZeroConst,
    OneConst,
    WriteStrLit,
    JumpDoloop,
    JumpIfZero,
    Jump,
    Literal,
    Constant,
    Variable,
    Interpret,
}

impl WordFunc {
    /// The number that stands for the routine in a dictionary entry.
    pub open spec fn spec_code(self) -> u32 {
        match self {
            WordFunc::Add => 1,
            WordFunc::Minus => 2,
            WordFunc::Div => 3,
            WordFunc::Modu => 4,
            WordFunc::DivMod => 5,
            WordFunc::Mul => 6,
            WordFunc::Abs => 7,
            WordFunc::Negate => 8,
            WordFunc::Min => 9,
            WordFunc::Max => 10,
            WordFunc::StarSlash => 11,
            WordFunc::StarSlashMod => 12,
            WordFunc::Invert => 13,
            WordFunc::And => 14,
            WordFunc::Equal => 15,
            WordFunc::Greater => 16,
            WordFunc::Less => 17,
            WordFunc::ZeroEqual => 18,
            WordFunc::ZeroGreater => 19,
            WordFunc::ZeroLess => 20,
            WordFunc::Swap => 21,
            WordFunc::Dup => 22,
            WordFunc::Over => 23,
            WordFunc::Rot => 24,
            WordFunc::DsDrop => 25,
            WordFunc::Swap2 => 26,
            WordFunc::Dup2 => 27,
            WordFunc::Over2 => 28,
            WordFunc::DsDrop2 => 29,
            WordFunc::Emit => 30,
            WordFunc::Cr => 31,
            WordFunc::Space => 32,
            WordFunc::Spaces => 33,
            WordFunc::PopPrint => 34,
            WordFunc::UnsignedPopPrint => 35,
            WordFunc::Colon => 36,
            WordFunc::Forget => 37,
            WordFunc::DataToReturnStack => 38,
            WordFunc::Data2ToReturn2Stack => 39,
            WordFunc::ReturnToDataStack => 40,
            WordFunc::LoopI => 41,
            WordFunc::LoopItick => 42,
            WordFunc::LoopJ => 43,
            WordFunc::LoopLeave => 44,
            WordFunc::VarLoad => 45,
            WordFunc::VarStore => 46,
            WordFunc::WordAdd => 47,
            WordFunc::ZeroConst => 48,
            WordFunc::OneConst => 49,
            WordFunc::WriteStrLit => 50,
            WordFunc::JumpDoloop => 51,
            WordFunc::JumpIfZero => 52,
            WordFunc::Jump => 53,
            WordFunc::Literal => 54,
            WordFunc::Constant => 55,
            WordFunc::Variable => 56,
            WordFunc::Interpret => 57,
        }
    }

    /// The routine that `code` stands for.
    pub open spec fn spec_from_code(code: u32) -> Option<WordFunc> {
        if code == 1 {
            Some(WordFunc::Add)
        } else if code == 2 {
            Some(WordFunc::Minus)
        } else if code == 3 {
            Some(WordFunc::Div)
        } else if code == 4 {
            Some(WordFunc::Modu)
        } else if code == 5 {
            Some(WordFunc::DivMod)
        } else if code == 6 {
            Some(WordFunc::Mul)
        } else if code == 7 {
            Some(WordFunc::Abs)
        } else if code == 8 {
            Some(WordFunc::Negate)
        } else if code == 9 {
            Some(WordFunc::Min)
        } else if code == 10 {
            Some(WordFunc::Max)
        } else if code == 11 {
            Some(WordFunc::StarSlash)
        } else if code == 12 {
            Some(WordFunc::StarSlashMod)
        } else if code == 13 {
            Some(WordFunc::Invert)
        } else if code == 14 {
            Some(WordFunc::And)
        } else if code == 15 {
            Some(WordFunc::Equal)
        } else if code == 16 {
            Some(WordFunc::Greater)
        } else if code == 17 {
            Some(WordFunc::Less)
        } else if code == 18 {
            Some(WordFunc::ZeroEqual)
        } else if code == 19 {
            Some(WordFunc::ZeroGreater)
        } else if code == 20 {
            Some(WordFunc::ZeroLess)
        } else if code == 21 {
            Some(WordFunc::Swap)
        } else if code == 22 {
            Some(WordFunc::Dup)
        } else if code == 23 {
            Some(WordFunc::Over)
        } else if code == 24 {
            Some(WordFunc::Rot)
        } else if code == 25 {
            Some(WordFunc::DsDrop)
        } else if code == 26 {
            Some(WordFunc::Swap2)
        } else if code == 27 {
            Some(WordFunc::Dup2)
        } else if code == 28 {
            Some(WordFunc::Over2)
        } else if code == 29 {
            Some(WordFunc::DsDrop2)
        } else if code == 30 {
            Some(WordFunc::Emit)
        } else if code == 31 {
            Some(WordFunc::Cr)
        } else if code == 32 {
            Some(WordFunc::Space)
        } else if code == 33 {
            Some(WordFunc::Spaces)
        } else if code == 34 {
            Some(WordFunc::PopPrint)
        } else if code == 35 {
            Some(WordFunc::UnsignedPopPrint)
        } else if code == 36 {
            Some(WordFunc::Colon)
        } else if code == 37 {
            Some(WordFunc::Forget)
        } else if code == 38 {
            Some(WordFunc::DataToReturnStack)
        } else if code == 39 {
            Some(WordFunc::Data2ToReturn2Stack)
        } else if code == 40 {
            Some(WordFunc::ReturnToDataStack)
        } else if code == 41 {
            Some(WordFunc::LoopI)
        } else if code == 42 {
            Some(WordFunc::LoopItick)
        } else if code == 43 {
            Some(WordFunc::LoopJ)
        } else if code == 44 {
            Some(WordFunc::LoopLeave)
        } else if code == 45 {
            Some(WordFunc::VarLoad)
        } else if code == 46 {
            Some(WordFunc::VarStore)
        } else if code == 47 {
            Some(WordFunc::WordAdd)
        } else if code == 48 {
            Some(WordFunc::ZeroConst)
        } else if code == 49 {
            Some(WordFunc::OneConst)
        } else if code == 50 {
            Some(WordFunc::WriteStrLit)
        } else if code == 51 {
            Some(WordFunc::JumpDoloop)
        } else if code == 52 {
            Some(WordFunc::JumpIfZero)
        } else if code == 53 {
            Some(WordFunc::Jump)
        } else if code == 54 {
            Some(WordFunc::Literal)
        } else if code == 55 {
            Some(WordFunc::Constant)
        } else if code == 56 {
            Some(WordFunc::Variable)
        } else if code == 57 {
            Some(WordFunc::Interpret)
        } else {
            None
        }
    }

    #[verifier::when_used_as_spec(spec_code)]
    pub fn code(self) -> (c: u32)
        ensures
            c == self.spec_code(),
            WordFunc::spec_from_code(c) == Some(self),
    {
        match self {
            WordFunc::Add => 1,
            WordFunc::Minus => 2,
            WordFunc::Div => 3,
            WordFunc::Modu => 4,
            WordFunc::DivMod => 5,
            WordFunc::Mul => 6,
            WordFunc::Abs => 7,
            WordFunc::Negate => 8,
            WordFunc::Min => 9,
            WordFunc::Max => 10,
            WordFunc::StarSlash => 11,
            WordFunc::StarSlashMod => 12,
            WordFunc::Invert => 13,
            WordFunc::And => 14,
            WordFunc::Equal => 15,
            WordFunc::Greater => 16,
            WordFunc::Less => 17,
            WordFunc::ZeroEqual => 18,
            WordFunc::ZeroGreater => 19,
            WordFunc::ZeroLess => 20,
            WordFunc::Swap => 21,
            WordFunc::Dup => 22,
            WordFunc::Over => 23,
            WordFunc::Rot => 24,
            WordFunc::DsDrop => 25,
            WordFunc::Swap2 => 26,
            WordFunc::Dup2 => 27,
            WordFunc::Over2 => 28,
            WordFunc::DsDrop2 => 29,
            WordFunc::Emit => 30,
            WordFunc::Cr => 31,
            WordFunc::Space => 32,
            WordFunc::Spaces => 33,
            WordFunc::PopPrint => 34,
            WordFunc::UnsignedPopPrint => 35,
            WordFunc::Colon => 36,
            WordFunc::Forget => 37,
            WordFunc::DataToReturnStack => 38,
            WordFunc::Data2ToReturn2Stack => 39,
            WordFunc::ReturnToDataStack => 40,
            WordFunc::LoopI => 41,
            WordFunc::LoopItick => 42,
            WordFunc::LoopJ => 43,
            WordFunc::LoopLeave => 44,
            WordFunc::VarLoad => 45,
            WordFunc::VarStore => 46,
            WordFunc::WordAdd => 47,
            WordFunc::ZeroConst => 48,
            WordFunc::OneConst => 49,
            WordFunc::WriteStrLit => 50,
            WordFunc::JumpDoloop => 51,
            WordFunc::JumpIfZero => 52,
            WordFunc::Jump => 53,
            WordFunc::Literal => 54,
            WordFunc::Constant => 55,
            WordFunc::Variable => 56,
            WordFunc::Interpret => 57,
        }
    }

    #[verifier::when_used_as_spec(spec_from_code)]
    pub fn from_code(code: u32) -> (r: Option<WordFunc>)
        ensures
            r == WordFunc::spec_from_code(code),
            r.is_some() ==> r.unwrap().spec_code() == code,
    {
        if code == 1 {
            Some(WordFunc::Add)
        } else if code == 2 {
            Some(WordFunc::Minus)
        } else if code == 3 {
            Some(WordFunc::Div)
        } else if code == 4 {
            Some(WordFunc::Modu)
        } else if code == 5 {
            Some(WordFunc::DivMod)
        } else if code == 6 {
            Some(WordFunc::Mul)
        } else if code == 7 {
            Some(WordFunc::Abs)
        } else if code == 8 {
            Some(WordFunc::Negate)
        } else if code == 9 {
            Some(WordFunc::Min)
        } else if code == 10 {
            Some(WordFunc::Max)
        } else if code == 11 {
            Some(WordFunc::StarSlash)
        } else if code == 12 {
            Some(WordFunc::StarSlashMod)
        } else if code == 13 {
            Some(WordFunc::Invert)
        } else if code == 14 {
            Some(WordFunc::And)
        } else if code == 15 {
            Some(WordFunc::Equal)
        } else if code == 16 {
            Some(WordFunc::Greater)
        } else if code == 17 {
            Some(WordFunc::Less)
        } else if code == 18 {
            Some(WordFunc::ZeroEqual)
        } else if code == 19 {
            Some(WordFunc::ZeroGreater)
        } else if code == 20 {
            Some(WordFunc::ZeroLess)
        } else if code == 21 {
            Some(WordFunc::Swap)
        } else if code == 22 {
            Some(WordFunc::Dup)
        } else if code == 23 {
            Some(WordFunc::Over)
        } else if code == 24 {
            Some(WordFunc::Rot)
        } else if code == 25 {
            Some(WordFunc::DsDrop)
        } else if code == 26 {
            Some(WordFunc::Swap2)
        } else if code == 27 {
            Some(WordFunc::Dup2)
        } else if code == 28 {
            Some(WordFunc::Over2)
        } else if code == 29 {
            Some(WordFunc::DsDrop2)
        } else if code == 30 {
            Some(WordFunc::Emit)
        } else if code == 31 {
            Some(WordFunc::Cr)
        } else if code == 32 {
            Some(WordFunc::Space)
        } else if code == 33 {
            Some(WordFunc::Spaces)
        } else if code == 34 {
            Some(WordFunc::PopPrint)
        } else if code == 35 {
            Some(WordFunc::UnsignedPopPrint)
        } else if code == 36 {
            Some(WordFunc::Colon)
        } else if code == 37 {
            Some(WordFunc::Forget)
        } else if code == 38 {
            Some(WordFunc::DataToReturnStack)
        } else if code == 39 {
            Some(WordFunc::Data2ToReturn2Stack)
        } else if code == 40 {
            Some(WordFunc::ReturnToDataStack)
        } else if code == 41 {
            Some(WordFunc::LoopI)
        } else if code == 42 {
            Some(WordFunc::LoopItick)
        } else if code == 43 {
            Some(WordFunc::LoopJ)
        } else if code == 44 {
            Some(WordFunc::LoopLeave)
        } else if code == 45 {
            Some(WordFunc::VarLoad)
        } else if code == 46 {
            Some(WordFunc::VarStore)
        } else if code == 47 {
            Some(WordFunc::WordAdd)
        } else if code == 48 {
            Some(WordFunc::ZeroConst)
        } else if code == 49 {
            Some(WordFunc::OneConst)
        } else if code == 50 {
            Some(WordFunc::WriteStrLit)
        } else if code == 51 {
            Some(WordFunc::JumpDoloop)
        } else if code == 52 {
            Some(WordFunc::JumpIfZero)
        } else if code == 53 {
            Some(WordFunc::Jump)
        } else if code == 54 {
            Some(WordFunc::Literal)
        } else if code == 55 {
            Some(WordFunc::Constant)
        } else if code == 56 {
            Some(WordFunc::Variable)
        } else if code == 57 {
            Some(WordFunc::Interpret)
        } else {
            None
        }
    }
}

/// One frame of the call stack: the word being executed, the index of the
/// cell of its body that is executed next, and the length of that body.
#[derive(Clone, Copy, Debug, PartialEq, Eq, Structural)]
pub struct CallContext {
    pub eh: u32,
    pub idx: u16,
    pub len: u16,
}

impl CallContext {
    /// The index after moving by `offset` cells, where it is a 16-bit count.
    pub open spec fn spec_offset(self, offset: i32) -> Option<u16> {
        if 0 <= self.idx + offset <= u16::MAX {
            Some((self.idx + offset) as u16)
        } else {
            None
        }
    }

    /// Moves the index by `offset` cells; `BadCfaOffset`, and no move, where
    /// the result is no 16-bit count.
    pub fn offset(&mut self, offset: i32) -> (r: Result<(), Error>)
        ensures
            match old(self).spec_offset(offset) {
                Some(idx) => r == Ok::<(), Error>(()) && *final(self) == (CallContext {
                    idx,
                    ..*old(self)
                }),
                None => r == Err::<(), Error>(Error::BadCfaOffset) && *final(self) == *old(self),
            },
    {
        let moved: i64 = self.idx as i64 + offset as i64;
        if 0 <= moved && moved <= 0xFFFF {
            self.idx = moved as u16;
            Ok(())
        } else {
            Err(Error::BadCfaOffset)
        }
    }
}

/// What a token turned out to be.
#[derive(Clone, Copy, Debug, PartialEq, Eq, Structural)]
pub enum Lookup {
    /// A word of the dictionary, by the address of its entry.
    Dict { de: u32 },
    /// A word of the builtin table, by its index.
    Builtin { bi: u32 },
    /// A word the host runs, by its index in the host's table.
    Async { bi: u32 },
    Literal { val: i32 },
    LParen,
    Semicolon,
    If,
    Else,
    Then,
    Do,
    Loop,
    LQuote,
}

} // verus!
