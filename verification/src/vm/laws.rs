//! Laws of the dictionary: what is forgotten is gone, and what is added is
//! found.

use crate::dictionary::{
    lemma_find_on_chain, lemma_same_chain, lemma_store_entry, lower, same_below, ArenaView,
    EntryKind, RawEntry, ENTRY_SIZE,
};
use crate::fastr::{lemma_pack_fields, len_hash_of, name_prefix, NameView};
use crate::vm::ForthView;
use crate::{Lookup, WordFunc};
use vstd::prelude::*;
use vstd::string::StringSliceAdditionalSpecFns;

verus! {

/// The tokens that a lookup never takes for the name of a word.
pub open spec fn reserved(word: Seq<u8>) -> bool {
    word == ";".spec_bytes() || word == "if".spec_bytes() || word == "else".spec_bytes() || word
        == "then".spec_bytes() || word == "do".spec_bytes() || word == "loop".spec_bytes() || word
        == "(".spec_bytes() || word == ".\"".spec_bytes()
}

/// On a chain, every entry stands below the one before it: from an entry
/// `x` of the chain on, the chain is the chain from `x`, and what stands
/// before `x` on the chain stands above `x` in the arena.
pub proof fn lemma_chain_from(a: ArenaView, tail: int, x: int)
    requires
        a.end() <= u32::MAX,
        a.chain(tail).contains(x),
    ensures
        forall|y: int|
            a.chain(tail).contains(y) ==> y > x || y == x || a.chain(
                a.raw_entry(x).link as int,
            ).contains(y),
        a.entry_ok(x),
    decreases tail,
{
    let c = a.chain(tail);
    if tail > 0 && a.entry_ok(tail) {
        let link = a.raw_entry(tail).link as int;
        let rest = a.chain(link);
        lemma_find_on_chain(a, link, NameView { bytes: Seq::empty(), len_hash: 0 });
        assert forall|y: int| c.contains(y) implies y == tail || rest.contains(y) by {
            let i = choose|i: int| 0 <= i < c.len() && c[i] == y;
            if i > 0 {
                assert(rest[i - 1] == y);
            }
        }
        if x != tail {
            assert(rest.contains(x));
            lemma_chain_from(a, link, x);
        }
    }
}

/// After a word was forgotten, the cursor stands where its entry stood; the
/// words that are left are those that were defined before it, unchanged;
/// every one of them lies below the cursor, and the forgotten word and every
/// word defined after it lie at or beyond the cursor, where no lookup finds
/// them.
pub proof fn lemma_forget_lifo<T>(s: ForthView<T>, name: NameView)
    requires
        s.wf(),
        s.spec_forget().1.is_ok(),
    ensures
        ({
            let t = s.spec_forget().0;
            let word = s.advanced().input.word().unwrap();
            let gone = s.find_in_dict(NameView::of(word)).unwrap() as int;
            &&& t.arena.cur == gone
            &&& s.arena.chain(s.tail as int).contains(gone)
            &&& t.arena.chain(t.tail as int) == s.arena.chain(s.arena.raw_entry(gone).link as int)
            &&& forall|y: int|
                s.arena.chain(s.tail as int).contains(y) ==> y >= t.arena.cur || t.arena.chain(
                    t.tail as int,
                ).contains(y)
            &&& forall|y: int| #[trigger]
                t.arena.chain(t.tail as int).contains(y) ==> y + ENTRY_SIZE <= t.arena.cur
            &&& t.find_in_dict(name) matches Some(x) ==> x + ENTRY_SIZE <= t.arena.cur
            &&& t.find_in_dict(name) == s.arena.find(s.arena.raw_entry(gone).link as int, name)
        }),
{
    let t = s.spec_forget().0;
    let word = s.advanced().input.word().unwrap();
    let gone = s.find_in_dict(NameView::of(word)).unwrap() as int;
    let link = s.arena.raw_entry(gone).link as int;
    lemma_find_on_chain(s.arena, s.tail as int, NameView::of(word));
    lemma_chain_from(s.arena, s.tail as int, gone);
    assert(same_below(t.arena, s.arena, gone));
    lemma_same_chain(t.arena, s.arena, gone, link, name);
    lemma_find_on_chain(s.arena, link, name);
    lemma_find_on_chain(t.arena, link, name);
    assert forall|y: int| #[trigger]
        t.arena.chain(t.tail as int).contains(y) implies y + ENTRY_SIZE <= t.arena.cur by {
        let c = s.arena.chain(link);
        let i = choose|i: int| 0 <= i < c.len() && c[i] == y;
        assert(0 < c[i] <= link);
    }
}

/// A word that was added under a name is found under that name folded to
/// lower case, and is the word that a line gets for it, unless the folded
/// name is a reserved token.
pub proof fn lemma_added_is_found<T>(s: ForthView<T>, name: Seq<u8>, bi: WordFunc)
    requires
        s.wf(),
        s.spec_add_builtin(name, bi, true).1.is_ok(),
    ensures
        ({
            let t = s.spec_add_builtin(name, bi, true).0;
            let folded = lower(name_prefix(name));
            &&& t.tail > 0
            &&& t.find_in_dict(NameView::of(folded)) == Some(t.tail)
            &&& t.find_word(folded) == Some(t.tail)
            &&& !reserved(folded) ==> t.lookup(folded) == Ok::<Lookup, crate::Error>(
                Lookup::Dict { de: t.tail },
            )
            &&& t.resolve(t.tail) == Ok::<crate::vm::builtins::Target, crate::Error>(
                crate::vm::builtins::Target::Word { func: bi, len: 0 },
            )
        }),
{
    reveal(ForthView::<_>::resolve);
    let t = s.spec_add_builtin(name, bi, true).0;
    let text = lower(name_prefix(name));
    let a0 = s.arena;
    let a1 = a0.store(a0.cur as int, text).with_cur(a0.cur + text.len());
    let base = a1.bump_addr(4) as int;
    let a2 = a1.bumped(ENTRY_SIZE as nat, 4);
    let e = RawEntry {
        name_addr: a0.cur as u32,
        len_hash: len_hash_of(text),
        kind: EntryKind::RuntimeBuiltin.spec_code(),
        len: 0,
        func: bi.spec_code(),
        link: s.tail,
    };
    let a3 = a2.store_entry(base, e);
    assert(t.arena == a3);
    assert(t.tail == base);
    lemma_store_entry(a2, base, e);
    crate::dictionary::lemma_store_entry_keeps(a2, base, e, a0.cur as int, text.len() as int);
    assert(name_prefix(text) =~= text);
    lemma_pack_fields(text.len() as u32, crate::fastr::fnv1a(text));
    assert(a2.bytes(a0.cur as int, text.len() as int) =~= text);
    assert(WordFunc::spec_from_code(bi.spec_code()) == Some(bi));
    assert(a3.entry_ok(base));
    assert(a3.entry_named(base, NameView::of(text)));
}

} // verus!
