//! Keys: the modifier keys of a chord, the code of a chord, and the map from
//! key names to hardware key codes that the keyboard reports.

use vstd::prelude::*;

verus! {

/// A modifier key.
#[derive(Clone, Copy, Debug, PartialEq, Eq, Structural)]
pub enum Modifier {
    /// Control, written `C`.
    Ctrl,
    /// Alt, written `A`.
    Alt,
    /// Shift, written `S`.
    Shift,
    /// Meta, also called super, written `M`.
    Meta,
}

impl Modifier {
    /// The modifier that `token` names, if it names one.
    pub open spec fn from_token(token: Seq<char>) -> Option<Modifier> {
        if token == seq!['C'] {
            Some(Modifier::Ctrl)
        } else if token == seq!['A'] {
            Some(Modifier::Alt)
        } else if token == seq!['S'] {
            Some(Modifier::Shift)
        } else if token == seq!['M'] {
            Some(Modifier::Meta)
        } else {
            None
        }
    }

    /// The bit that stands for the modifier in a key mask.
    pub open spec fn mask(self) -> u16 {
        match self {
            Modifier::Shift => 1,
            Modifier::Ctrl => 4,
            Modifier::Alt => 8,
            Modifier::Meta => 64,
        }
    }
}

/// The modifier that `token` names, by penrose's
/// `ModifierKey::try_from(&str)`.
///
/// Trusted, not proved: penrose yields `Ctrl`, `Alt`, `Shift` and `Meta` for
/// the one-letter tokens `C`, `A`, `S` and `M`, and an error, which is `None`
/// here, for every other token.
#[verifier::external_body]
pub(crate) fn parse_modifier(token: &str) -> (modifier: Option<Modifier>)
    ensures
        modifier == Modifier::from_token(token@),
{
    match penrose::core::bindings::ModifierKey::try_from(token) {
        Ok(penrose::core::bindings::ModifierKey::Ctrl) => Some(Modifier::Ctrl),
        Ok(penrose::core::bindings::ModifierKey::Alt) => Some(Modifier::Alt),
        Ok(penrose::core::bindings::ModifierKey::Shift) => Some(Modifier::Shift),
        Ok(penrose::core::bindings::ModifierKey::Meta) => Some(Modifier::Meta),
        Err(_) => None,
    }
}

/// The mask bit of `modifier`, by penrose's `u16::from(ModifierKey)`.
///
/// Trusted, not proved: penrose yields bit 0 for `Shift`, bit 2 for `Ctrl`,
/// bit 3 for `Alt` and bit 6 for `Meta`.
#[verifier::external_body]
pub(crate) fn modifier_mask(modifier: Modifier) -> (mask: u16)
    ensures
        mask == modifier.mask(),
{
    u16::from(
        match modifier {
            Modifier::Ctrl => penrose::core::bindings::ModifierKey::Ctrl,
            Modifier::Alt => penrose::core::bindings::ModifierKey::Alt,
            Modifier::Shift => penrose::core::bindings::ModifierKey::Shift,
            Modifier::Meta => penrose::core::bindings::ModifierKey::Meta,
        },
    )
}

/// The code of a chord: the modifiers held and the key pressed.
#[derive(Clone, Copy, Debug, PartialEq, Eq, Hash, Structural)]
pub struct KeyCode {
    /// The modifiers held, one bit each.
    pub mask: u16,
    /// The hardware code of the key.
    pub code: u8,
}

/// One name of a key, with the key's hardware code.
#[derive(Debug)]
pub struct KeyName {
    pub name: String,
    pub code: u8,
}

impl DeepView for KeyName {
    type V = (Seq<char>, u8);

    open spec fn deep_view(&self) -> (Seq<char>, u8) {
        (self.name@, self.code)
    }
}

/// The map that a list of named codes stands for. Where a name occurs more
/// than once, its last code counts.
pub open spec fn codes_of(names: Seq<(Seq<char>, u8)>) -> Map<Seq<char>, u8>
    decreases names.len(),
{
    if names.len() == 0 {
        Map::empty()
    } else {
        codes_of(names.drop_last()).insert(names.last().0, names.last().1)
    }
}

/// The keyboard mapping: the hardware code of every key name that the
/// keyboard knows.
#[derive(Debug)]
pub struct KeyMap {
    names: Vec<KeyName>,
}

impl View for KeyMap {
    type V = Map<Seq<char>, u8>;

    closed spec fn view(&self) -> Map<Seq<char>, u8> {
        codes_of(self.names.deep_view())
    }
}

impl KeyMap {
    /// The mapping that knows no key.
    pub fn new() -> (codes: Self)
        ensures
            codes@ == Map::<Seq<char>, u8>::empty(),
    {
        KeyMap { names: Vec::new() }
    }

    /// Gives the key `name` the hardware code `code`, in place of the one it
    /// may have had.
    pub fn insert(&mut self, name: &str, code: u8)
        ensures
            final(self)@ == old(self)@.insert(name@, code),
    {
        let ghost before = self.names.deep_view();
        self.names.push(KeyName { name: name.to_owned(), code });
        assert(self.names.deep_view() == before.push((name@, code)));
        assert(before.push((name@, code)).drop_last() == before);
    }

    /// The hardware code of the key `name`, if the keyboard knows it.
    pub fn get(&self, name: &str) -> (code: Option<u8>)
        ensures
            code == (if self@.contains_key(name@) {
                Some(self@[name@])
            } else {
                None
            }),
    {
        let wanted = name.to_owned();
        let ghost all = self.names.deep_view();
        let mut i: usize = self.names.len();
        assert(all.take(i as int) == all);
        while i > 0
            invariant
                i <= self.names.len(),
                all == self.names.deep_view(),
                wanted@ == name@,
                codes_of(all).contains_key(name@) == codes_of(all.take(i as int)).contains_key(
                    name@,
                ),
                codes_of(all).contains_key(name@) ==> codes_of(all)[name@] == codes_of(
                    all.take(i as int),
                )[name@],
            decreases i,
        {
            i -= 1;
            assert(all.take(i + 1).drop_last() == all.take(i as int));
            if self.names[i].name == wanted {
                return Some(self.names[i].code);
            }
        }
        None
    }
}

} // verus!
