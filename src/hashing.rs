//! Hashing of metric identities with the Fx hasher.
//!
//! An Fx hasher holds one word of state. A word write adds the word to the
//! state and multiplies by a constant, wrapping; a byte write first compresses
//! the bytes to one word; `finish` rotates the state. The model below is that of
//! a 64-bit target.

use vstd::prelude::*;
use rustc_hash::FxHasher;
use std::hash::Hasher;

verus! {

/// One write fed to a hasher: the bytes of a text, or a 64-bit word.
pub enum HashWord {
    Text(Seq<char>),
    Word(u64),
}

#[verifier::external_type_specification]
#[verifier::external_body]
pub struct ExFxHasher(FxHasher);

/// The word of state that a hasher holds.
pub uninterp spec fn fx_state(h: FxHasher) -> u64;

/// The word that the bytes of a text are compressed to before they are mixed
/// into the state.
pub uninterp spec fn fx_text_word(s: Seq<char>) -> u64;

/// The multiplier of the Fx hasher.
pub const FX_K: u64 = 0xf1357aea2e62a9c5;

/// The state after a word is mixed into `state`: added, then multiplied by
/// the multiplier, both wrapping.
#[verifier::opaque]
pub open spec fn fx_mix(state: u64, word: u64) -> u64 {
    ((((state as int + word as int) % 0x1_0000_0000_0000_0000int) * FX_K as int) % 0x1_0000_0000_0000_0000int) as u64
}

/// What `finish` returns on a state: the state rotated left by 26 bits.
pub open spec fn fx_out(state: u64) -> u64 {
    (state << 26u64) | (state >> 38u64)
}

/// The word that one write mixes into the state.
pub open spec fn word_of(w: HashWord) -> u64 {
    match w {
        HashWord::Text(t) => fx_text_word(t),
        HashWord::Word(x) => x,
    }
}

/// The state of a fresh hasher after the given writes.
pub open spec fn fx_run(ws: Seq<HashWord>) -> u64
    decreases ws.len(),
{
    if ws.len() == 0 {
        0
    } else {
        fx_mix(fx_run(ws.drop_last()), word_of(ws.last()))
    }
}

/// Relies on `FxHasher::default`: a hasher whose state is zero.
#[verifier::external_body]
pub(crate) fn fx_start() -> (r: FxHasher)
    ensures
        fx_state(r) == 0,
{
    FxHasher::default()
}

/// Relies on `<FxHasher as Hasher>::write`: the bytes of `s` are compressed to
/// one word, which is mixed into the state.
#[verifier::external_body]
pub(crate) fn fx_write_text(h: &mut FxHasher, s: &str)
    ensures
        fx_state(*final(h)) == fx_mix(fx_state(*old(h)), fx_text_word(s@)),
{
    h.write(s.as_bytes())
}

/// Relies on `<FxHasher as Hasher>::write_u64`: the word is mixed into the state.
#[verifier::external_body]
pub(crate) fn fx_write_word(h: &mut FxHasher, x: u64)
    ensures
        fx_state(*final(h)) == fx_mix(fx_state(*old(h)), x),
{
    h.write_u64(x)
}

/// Relies on `<FxHasher as Hasher>::finish`: the state, rotated.
#[verifier::external_body]
pub(crate) fn fx_finish(h: &FxHasher) -> (r: u64)
    ensures
        r == fx_out(fx_state(*h)),
{
    h.finish()
}

/// The writes that hash the labels of an identity, slot by slot: a present
/// label feeds its name, then its surrogate; an absent one feeds nothing.
pub open spec fn label_writes(labels: Seq<Option<(Seq<char>, u64)>>) -> Seq<HashWord>
    decreases labels.len(),
{
    if labels.len() == 0 {
        Seq::<HashWord>::empty()
    } else {
        let prev = label_writes(labels.drop_last());
        match labels.last() {
            Some((n, s)) => prev.push(HashWord::Text(n)).push(HashWord::Word(s)),
            None => prev,
        }
    }
}

/// The writes that hash an identity: its key, then its labels.
pub open spec fn id_writes(key: Seq<char>, labels: Seq<Option<(Seq<char>, u64)>>) -> Seq<HashWord> {
    seq![HashWord::Text(key)] + label_writes(labels)
}

/// The hash of an identity.
pub open spec fn id_hash(key: Seq<char>, labels: Seq<Option<(Seq<char>, u64)>>) -> u64 {
    fx_out(fx_run(id_writes(key, labels)))
}

} // verus!
