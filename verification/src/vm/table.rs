//! The table of the words that the machine brings along.

use crate::dictionary::{BuiltinEntry, EntryKind};
use crate::fastr::{len_hash_of, name_prefix};
use crate::vm::Forth;
use crate::WordFunc;
use vstd::prelude::*;
use vstd::string::StringSliceAdditionalSpecFns;

verus! {

/// How many words the full table holds.
pub const FULL_BUILTINS_LEN: usize = 56;

/// The name of the word at index `i` of the full table.
pub open spec fn full_name(i: int) -> Seq<u8> {
    if i == 0 {
        "+".spec_bytes()
    } else if i == 1 {
        "-".spec_bytes()
    } else if i == 2 {
        "/".spec_bytes()
    } else if i == 3 {
        "mod".spec_bytes()
    } else if i == 4 {
        "/mod".spec_bytes()
    } else if i == 5 {
        "*".spec_bytes()
    } else if i == 6 {
        "abs".spec_bytes()
    } else if i == 7 {
        "negate".spec_bytes()
    } else if i == 8 {
        "min".spec_bytes()
    } else if i == 9 {
        "max".spec_bytes()
    } else if i == 10 {
        "*/".spec_bytes()
    } else if i == 11 {
        "*/mod".spec_bytes()
    } else if i == 12 {
        "not".spec_bytes()
    } else if i == 13 {
        "and".spec_bytes()
    } else if i == 14 {
        "=".spec_bytes()
    } else if i == 15 {
        ">".spec_bytes()
    } else if i == 16 {
        "<".spec_bytes()
    } else if i == 17 {
        "0=".spec_bytes()
    } else if i == 18 {
        "0>".spec_bytes()
    } else if i == 19 {
        "0<".spec_bytes()
    } else if i == 20 {
        "swap".spec_bytes()
    } else if i == 21 {
        "dup".spec_bytes()
    } else if i == 22 {
        "over".spec_bytes()
    } else if i == 23 {
        "rot".spec_bytes()
    } else if i == 24 {
        "drop".spec_bytes()
    } else if i == 25 {
        "2swap".spec_bytes()
    } else if i == 26 {
        "2dup".spec_bytes()
    } else if i == 27 {
        "2over".spec_bytes()
    } else if i == 28 {
        "2drop".spec_bytes()
    } else if i == 29 {
        "emit".spec_bytes()
    } else if i == 30 {
        "cr".spec_bytes()
    } else if i == 31 {
        "space".spec_bytes()
    } else if i == 32 {
        "spaces".spec_bytes()
    } else if i == 33 {
        ".".spec_bytes()
    } else if i == 34 {
        "u.".spec_bytes()
    } else if i == 35 {
        ":".spec_bytes()
    } else if i == 36 {
        "forget".spec_bytes()
    } else if i == 37 {
        "d>r".spec_bytes()
    } else if i == 38 {
        "2d>2r".spec_bytes()
    } else if i == 39 {
        "r>d".spec_bytes()
    } else if i == 40 {
        "i".spec_bytes()
    } else if i == 41 {
        "i'".spec_bytes()
    } else if i == 42 {
        "j".spec_bytes()
    } else if i == 43 {
        "leave".spec_bytes()
    } else if i == 44 {
        "@".spec_bytes()
    } else if i == 45 {
        "!".spec_bytes()
    } else if i == 46 {
        "w+".spec_bytes()
    } else if i == 47 {
        "0".spec_bytes()
    } else if i == 48 {
        "1".spec_bytes()
    } else if i == 49 {
        "(write-str)".spec_bytes()
    } else if i == 50 {
        "(jmp-doloop)".spec_bytes()
    } else if i == 51 {
        "(jump-zero)".spec_bytes()
    } else if i == 52 {
        "(jmp)".spec_bytes()
    } else if i == 53 {
        "(literal)".spec_bytes()
    } else if i == 54 {
        "(constant)".spec_bytes()
    } else {
        "(variable)".spec_bytes()
    }
}

/// The routine of the word at index `i` of the full table.
pub open spec fn full_func(i: int) -> WordFunc {
    if i == 0 {
        WordFunc::Add
    } else if i == 1 {
        WordFunc::Minus
    } else if i == 2 {
        WordFunc::Div
    } else if i == 3 {
        WordFunc::Modu
    } else if i == 4 {
        WordFunc::DivMod
    } else if i == 5 {
        WordFunc::Mul
    } else if i == 6 {
        WordFunc::Abs
    } else if i == 7 {
        WordFunc::Negate
    } else if i == 8 {
        WordFunc::Min
    } else if i == 9 {
        WordFunc::Max
    } else if i == 10 {
        WordFunc::StarSlash
    } else if i == 11 {
        WordFunc::StarSlashMod
    } else if i == 12 {
        WordFunc::Invert
    } else if i == 13 {
        WordFunc::And
    } else if i == 14 {
        WordFunc::Equal
    } else if i == 15 {
        WordFunc::Greater
    } else if i == 16 {
        WordFunc::Less
    } else if i == 17 {
        WordFunc::ZeroEqual
    } else if i == 18 {
        WordFunc::ZeroGreater
    } else if i == 19 {
        WordFunc::ZeroLess
    } else if i == 20 {
        WordFunc::Swap
    } else if i == 21 {
        WordFunc::Dup
    } else if i == 22 {
        WordFunc::Over
    } else if i == 23 {
        WordFunc::Rot
    } else if i == 24 {
        WordFunc::DsDrop
    } else if i == 25 {
        WordFunc::Swap2
    } else if i == 26 {
        WordFunc::Dup2
    } else if i == 27 {
        WordFunc::Over2
    } else if i == 28 {
        WordFunc::DsDrop2
    } else if i == 29 {
        WordFunc::Emit
    } else if i == 30 {
        WordFunc::Cr
    } else if i == 31 {
        WordFunc::Space
    } else if i == 32 {
        WordFunc::Spaces
    } else if i == 33 {
        WordFunc::PopPrint
    } else if i == 34 {
        WordFunc::UnsignedPopPrint
    } else if i == 35 {
        WordFunc::Colon
    } else if i == 36 {
        WordFunc::Forget
    } else if i == 37 {
        WordFunc::DataToReturnStack
    } else if i == 38 {
        WordFunc::Data2ToReturn2Stack
    } else if i == 39 {
        WordFunc::ReturnToDataStack
    } else if i == 40 {
        WordFunc::LoopI
    } else if i == 41 {
        WordFunc::LoopItick
    } else if i == 42 {
        WordFunc::LoopJ
    } else if i == 43 {
        WordFunc::LoopLeave
    } else if i == 44 {
        WordFunc::VarLoad
    } else if i == 45 {
        WordFunc::VarStore
    } else if i == 46 {
        WordFunc::WordAdd
    } else if i == 47 {
        WordFunc::ZeroConst
    } else if i == 48 {
        WordFunc::OneConst
    } else if i == 49 {
        WordFunc::WriteStrLit
    } else if i == 50 {
        WordFunc::JumpDoloop
    } else if i == 51 {
        WordFunc::JumpIfZero
    } else if i == 52 {
        WordFunc::Jump
    } else if i == 53 {
        WordFunc::Literal
    } else if i == 54 {
        WordFunc::Constant
    } else {
        WordFunc::Variable
    }
}

/// The entry `e` is the one that the full table holds at index `i`.
pub open spec fn full_entry<T>(e: BuiltinEntry<T>, i: int) -> bool {
    &&& e.hdr.wf()
    &&& e.hdr.spec_name() == name_prefix(full_name(i))
    &&& e.hdr.spec_len_hash() == len_hash_of(full_name(i))
    &&& e.hdr.kind == EntryKind::StaticBuiltin
    &&& e.hdr.len == 0
    &&& e.func == full_func(i)
}

/// The table `t` is the first `n` entries of the full table.
pub open spec fn full_upto<T>(t: Seq<BuiltinEntry<T>>, n: int) -> bool {
    t.len() == n && forall|i: int| 0 <= i < n ==> full_entry(#[trigger] t[i], i)
}

fn push_entry<T>(table: &mut Vec<BuiltinEntry<T>>, name: &'static str, func: WordFunc, Ghost(i): Ghost<int>)
    requires
        full_upto(old(table)@, i),
        name.spec_bytes() == full_name(i),
        func == full_func(i),
    ensures
        full_upto(final(table)@, i + 1),
{
    table.push(BuiltinEntry::new(name, func));
}

impl<T> Forth<T> {
    /// The table of every word that the machine brings along.
    pub fn full_builtins() -> (table: Vec<BuiltinEntry<T>>)
        ensures
            full_upto(table@, FULL_BUILTINS_LEN as int),
    {
        let mut table: Vec<BuiltinEntry<T>> = Vec::new();
        //
        // Math operations
        //
        push_entry(&mut table, "+", WordFunc::Add, Ghost(0));
        push_entry(&mut table, "-", WordFunc::Minus, Ghost(1));
        push_entry(&mut table, "/", WordFunc::Div, Ghost(2));
        push_entry(&mut table, "mod", WordFunc::Modu, Ghost(3));
        push_entry(&mut table, "/mod", WordFunc::DivMod, Ghost(4));
        push_entry(&mut table, "*", WordFunc::Mul, Ghost(5));
        push_entry(&mut table, "abs", WordFunc::Abs, Ghost(6));
        push_entry(&mut table, "negate", WordFunc::Negate, Ghost(7));
        push_entry(&mut table, "min", WordFunc::Min, Ghost(8));
        push_entry(&mut table, "max", WordFunc::Max, Ghost(9));
        //
        // Double intermediate math operations
        //
        push_entry(&mut table, "*/", WordFunc::StarSlash, Ghost(10));
        push_entry(&mut table, "*/mod", WordFunc::StarSlashMod, Ghost(11));
        //
        // Logic operations
        //
        push_entry(&mut table, "not", WordFunc::Invert, Ghost(12));
        push_entry(&mut table, "and", WordFunc::And, Ghost(13));
        push_entry(&mut table, "=", WordFunc::Equal, Ghost(14));
        push_entry(&mut table, ">", WordFunc::Greater, Ghost(15));
        push_entry(&mut table, "<", WordFunc::Less, Ghost(16));
        push_entry(&mut table, "0=", WordFunc::ZeroEqual, Ghost(17));
        push_entry(&mut table, "0>", WordFunc::ZeroGreater, Ghost(18));
        push_entry(&mut table, "0<", WordFunc::ZeroLess, Ghost(19));
        //
        // Stack operations
        //
        push_entry(&mut table, "swap", WordFunc::Swap, Ghost(20));
        push_entry(&mut table, "dup", WordFunc::Dup, Ghost(21));
        push_entry(&mut table, "over", WordFunc::Over, Ghost(22));
        push_entry(&mut table, "rot", WordFunc::Rot, Ghost(23));
        push_entry(&mut table, "drop", WordFunc::DsDrop, Ghost(24));
        //
        // Double operations
        //
        push_entry(&mut table, "2swap", WordFunc::Swap2, Ghost(25));
        push_entry(&mut table, "2dup", WordFunc::Dup2, Ghost(26));
        push_entry(&mut table, "2over", WordFunc::Over2, Ghost(27));
        push_entry(&mut table, "2drop", WordFunc::DsDrop2, Ghost(28));
        //
        // String/Output operations
        //
        push_entry(&mut table, "emit", WordFunc::Emit, Ghost(29));
        push_entry(&mut table, "cr", WordFunc::Cr, Ghost(30));
        push_entry(&mut table, "space", WordFunc::Space, Ghost(31));
        push_entry(&mut table, "spaces", WordFunc::Spaces, Ghost(32));
        push_entry(&mut table, ".", WordFunc::PopPrint, Ghost(33));
        push_entry(&mut table, "u.", WordFunc::UnsignedPopPrint, Ghost(34));
        //
        // Define/forget
        //
        push_entry(&mut table, ":", WordFunc::Colon, Ghost(35));
        push_entry(&mut table, "forget", WordFunc::Forget, Ghost(36));
        //
        // Stack/Retstack operations
        //
        push_entry(&mut table, "d>r", WordFunc::DataToReturnStack, Ghost(37));
        push_entry(&mut table, "2d>2r", WordFunc::Data2ToReturn2Stack, Ghost(38));
        push_entry(&mut table, "r>d", WordFunc::ReturnToDataStack, Ghost(39));
        //
        // Loop operations
        //
        push_entry(&mut table, "i", WordFunc::LoopI, Ghost(40));
        push_entry(&mut table, "i'", WordFunc::LoopItick, Ghost(41));
        push_entry(&mut table, "j", WordFunc::LoopJ, Ghost(42));
        push_entry(&mut table, "leave", WordFunc::LoopLeave, Ghost(43));
        //
        // Memory operations
        //
        push_entry(&mut table, "@", WordFunc::VarLoad, Ghost(44));
        push_entry(&mut table, "!", WordFunc::VarStore, Ghost(45));
        push_entry(&mut table, "w+", WordFunc::WordAdd, Ghost(46));
        //
        // Constants
        //
        push_entry(&mut table, "0", WordFunc::ZeroConst, Ghost(47));
        push_entry(&mut table, "1", WordFunc::OneConst, Ghost(48));
        //
        // Words that compiled code relies on
        //
        push_entry(&mut table, "(write-str)", WordFunc::WriteStrLit, Ghost(49));
        push_entry(&mut table, "(jmp-doloop)", WordFunc::JumpDoloop, Ghost(50));
        push_entry(&mut table, "(jump-zero)", WordFunc::JumpIfZero, Ghost(51));
        push_entry(&mut table, "(jmp)", WordFunc::Jump, Ghost(52));
        push_entry(&mut table, "(literal)", WordFunc::Literal, Ghost(53));
        push_entry(&mut table, "(constant)", WordFunc::Constant, Ghost(54));
        push_entry(&mut table, "(variable)", WordFunc::Variable, Ghost(55));
        table
    }
}

} // verus!
