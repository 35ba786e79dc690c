//! Chord descriptors: texts such as `M-S-j`, made of modifier tokens and a
//! final key name, joined by `-`. The modifier tokens are `C`, `A`, `S` and
//! `M`; a text with any other token before its key name is no chord.

use crate::keys::{modifier_mask, parse_modifier, Modifier};
use crate::text::{fields, split, Separator};
use vstd::prelude::*;

verus! {

/// The key name of a descriptor: its last field.
pub open spec fn key_name(descriptor: Seq<char>) -> Seq<char> {
    fields(descriptor, Separator::Char('-')).last()
}

/// The modifier tokens of a descriptor: its fields before the last.
pub open spec fn modifier_tokens(descriptor: Seq<char>) -> Seq<Seq<char>> {
    fields(descriptor, Separator::Char('-')).drop_last()
}

/// Whether every one of `tokens` names a modifier.
pub open spec fn name_modifiers(tokens: Seq<Seq<char>>) -> bool {
    forall|i: int| 0 <= i < tokens.len() ==> Modifier::from_token(#[trigger] tokens[i]) is Some
}

/// The mask of a list of modifier tokens: the bits of all the modifiers that
/// they name. There is none where a token names no modifier.
pub open spec fn mask_of(tokens: Seq<Seq<char>>) -> Option<u16>
    decreases tokens.len(),
{
    if tokens.len() == 0 {
        Some(0)
    } else {
        match (mask_of(tokens.drop_last()), Modifier::from_token(tokens.last())) {
            (Some(mask), Some(modifier)) => Some(mask | modifier.mask()),
            _ => None,
        }
    }
}

/// The modifier mask of a descriptor, if each of its modifier tokens names a
/// modifier.
pub open spec fn chord_mask(descriptor: Seq<char>) -> Option<u16> {
    mask_of(modifier_tokens(descriptor))
}

/// A list of tokens has a mask exactly where every token names a modifier.
pub proof fn lemma_mask_of_named_modifiers(tokens: Seq<Seq<char>>)
    ensures
        mask_of(tokens) is Some <==> name_modifiers(tokens),
    decreases tokens.len(),
{
    if tokens.len() > 0 {
        let init = tokens.drop_last();
        lemma_mask_of_named_modifiers(init);
        if name_modifiers(tokens) {
            assert forall|i: int| 0 <= i < init.len() implies Modifier::from_token(
                #[trigger] init[i],
            ) is Some by {
                assert(init[i] == tokens[i]);
            }
            assert(Modifier::from_token(tokens[tokens.len() - 1]) is Some);
        }
        if mask_of(tokens) is Some {
            assert forall|i: int| 0 <= i < tokens.len() implies Modifier::from_token(
                #[trigger] tokens[i],
            ) is Some by {
                if i < init.len() {
                    assert(init[i] == tokens[i]);
                }
            }
        }
    }
}

/// A descriptor taken apart.
#[derive(Debug, PartialEq, Eq)]
pub struct Chord {
    /// The modifiers that the descriptor names, one bit each.
    pub mask: u16,
    /// The name of the key.
    pub key: String,
}

/// Takes a descriptor apart. There is no chord where one of the modifier
/// tokens names no modifier.
pub fn parse_chord(descriptor: &str) -> (chord: Option<Chord>)
    ensures
        match chord {
            Some(c) => chord_mask(descriptor@) == Some(c.mask) && c.key@ == key_name(descriptor@),
            None => chord_mask(descriptor@) is None,
        },
{
    let mut parts = split(descriptor, Separator::Char('-'));
    let ghost all = parts.deep_view();
    assert(all.len() >= 1);
    let key = parts.pop().unwrap();
    assert(parts.deep_view() == all.drop_last());
    let mut mask: Option<u16> = Some(0);
    let mut i: usize = 0;
    while i < parts.len()
        invariant
            i <= parts.len(),
            mask == mask_of(parts.deep_view().take(i as int)),
        decreases parts.len() - i,
    {
        assert(parts.deep_view().take(i + 1).drop_last() == parts.deep_view().take(i as int));
        mask = match (mask, parse_modifier(parts[i].as_str())) {
            (Some(bits), Some(modifier)) => Some(bits | modifier_mask(modifier)),
            _ => None,
        };
        i += 1;
    }
    assert(parts.deep_view().take(i as int) == parts.deep_view());
    match mask {
        Some(mask) => Some(Chord { mask, key }),
        None => None,
    }
}

} // verus!
