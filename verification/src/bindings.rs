//! The key-binding registry: a table from chord codes to actions in which no
//! code is bound twice, filled from chord descriptors.

use crate::chord::{
    chord_mask, key_name, lemma_mask_of_named_modifiers, modifier_tokens, name_modifiers,
    parse_chord,
};
use crate::keys::{KeyCode, KeyMap};
use vstd::prelude::*;

verus! {

/// A change of the window manager's own state.
#[derive(Clone, Debug, PartialEq, Eq)]
pub enum Transition {
    FocusDown,
    FocusUp,
    SwapDown,
    SwapUp,
    KillFocused,
    NextLayout,
    /// Show the workspace with this tag.
    FocusTag(String),
    /// Move the focused window to the workspace with this tag.
    MoveFocusedToTag(String),
    /// Change the number of windows in the main area by this much.
    IncMain(i8),
    ExpandMain,
    ShrinkMain,
}

/// A `Transition` as mathematical values.
pub enum TransitionView {
    FocusDown,
    FocusUp,
    SwapDown,
    SwapUp,
    KillFocused,
    NextLayout,
    FocusTag(Seq<char>),
    MoveFocusedToTag(Seq<char>),
    IncMain(i8),
    ExpandMain,
    ShrinkMain,
}

impl View for Transition {
    type V = TransitionView;

    open spec fn view(&self) -> TransitionView {
        match self {
            Transition::FocusDown => TransitionView::FocusDown,
            Transition::FocusUp => TransitionView::FocusUp,
            Transition::SwapDown => TransitionView::SwapDown,
            Transition::SwapUp => TransitionView::SwapUp,
            Transition::KillFocused => TransitionView::KillFocused,
            Transition::NextLayout => TransitionView::NextLayout,
            Transition::FocusTag(tag) => TransitionView::FocusTag(tag@),
            Transition::MoveFocusedToTag(tag) => TransitionView::MoveFocusedToTag(tag@),
            Transition::IncMain(by) => TransitionView::IncMain(*by),
            Transition::ExpandMain => TransitionView::ExpandMain,
            Transition::ShrinkMain => TransitionView::ShrinkMain,
        }
    }
}

/// What a key binding does.
#[derive(Clone, Debug, PartialEq, Eq)]
pub enum Action {
    /// Start this command.
    Spawn(String),
    /// Change the window manager's state.
    Transition(Transition),
    /// End the session.
    Exit,
}

/// An `Action` as mathematical values.
pub enum ActionView {
    Spawn(Seq<char>),
    Transition(TransitionView),
    Exit,
}

impl View for Action {
    type V = ActionView;

    open spec fn view(&self) -> ActionView {
        match self {
            Action::Spawn(command) => ActionView::Spawn(command@),
            Action::Transition(transition) => ActionView::Transition(transition@),
            Action::Exit => ActionView::Exit,
        }
    }
}

impl DeepView for Action {
    type V = ActionView;

    open spec fn deep_view(&self) -> ActionView {
        self@
    }
}

/// Why a descriptor was not registered. Each error holds the descriptor.
#[derive(Clone, Debug, PartialEq, Eq)]
pub enum BindingError {
    /// The descriptor stands for no key of the keyboard: the keyboard does
    /// not know its key name, or one of its modifier tokens names no
    /// modifier.
    UnknownKey(String),
    /// The descriptor's code is bound already.
    DuplicateBinding(String),
}

/// A `BindingError` as mathematical values.
pub enum BindingErrorView {
    UnknownKey(Seq<char>),
    DuplicateBinding(Seq<char>),
}

impl DeepView for BindingError {
    type V = BindingErrorView;

    open spec fn deep_view(&self) -> BindingErrorView {
        self@
    }
}

impl View for BindingError {
    type V = BindingErrorView;

    open spec fn view(&self) -> BindingErrorView {
        match self {
            BindingError::UnknownKey(descriptor) => BindingErrorView::UnknownKey(descriptor@),
            BindingError::DuplicateBinding(descriptor) => BindingErrorView::DuplicateBinding(
                descriptor@,
            ),
        }
    }
}

/// One entry of a binding table.
#[derive(Clone, Debug, PartialEq, Eq)]
pub struct Binding {
    pub code: KeyCode,
    pub action: Action,
}

impl DeepView for Binding {
    type V = (KeyCode, ActionView);

    open spec fn deep_view(&self) -> (KeyCode, ActionView) {
        (self.code, self.action@)
    }
}

/// The map that a list of bindings stands for.
pub open spec fn table_of(bindings: Seq<(KeyCode, ActionView)>) -> Map<KeyCode, ActionView>
    decreases bindings.len(),
{
    if bindings.len() == 0 {
        Map::empty()
    } else {
        table_of(bindings.drop_last()).insert(bindings.last().0, bindings.last().1)
    }
}

/// No code occurs twice in `bindings`.
pub open spec fn distinct_codes(bindings: Seq<(KeyCode, ActionView)>) -> bool {
    forall|i: int, j: int| 0 <= i < j < bindings.len() ==> bindings[i].0 != bindings[j].0
}

/// The table of a list of bindings binds the codes of the list and no others.
pub proof fn lemma_table_codes(bindings: Seq<(KeyCode, ActionView)>, code: KeyCode)
    ensures
        table_of(bindings).contains_key(code) <==> exists|i: int|
            0 <= i < bindings.len() && bindings[i].0 == code,
    decreases bindings.len(),
{
    if bindings.len() > 0 {
        let init = bindings.drop_last();
        lemma_table_codes(init, code);
        if table_of(bindings).contains_key(code) && bindings.last().0 != code {
            let i = choose|i: int| 0 <= i < init.len() && init[i].0 == code;
            assert(bindings[i].0 == code);
        }
        if exists|i: int| 0 <= i < bindings.len() && bindings[i].0 == code {
            let i = choose|i: int| 0 <= i < bindings.len() && bindings[i].0 == code;
            if i < init.len() {
                assert(init[i].0 == code);
            }
        }
    }
}

/// Where no code occurs twice, the table binds each code of the list to the
/// action that stands with it, and has as many entries as the list.
pub proof fn lemma_table_entries(bindings: Seq<(KeyCode, ActionView)>)
    requires
        distinct_codes(bindings),
    ensures
        table_of(bindings).dom().finite(),
        table_of(bindings).dom().len() == bindings.len(),
        forall|i: int|
            0 <= i < bindings.len() ==> table_of(bindings).contains_key(#[trigger] bindings[i].0)
                && table_of(bindings)[bindings[i].0] == bindings[i].1,
    decreases bindings.len(),
{
    if bindings.len() > 0 {
        let init = bindings.drop_last();
        let last = bindings.last();
        assert forall|i: int, j: int| 0 <= i < j < init.len() implies init[i].0 != init[j].0 by {
            assert(bindings[i].0 != bindings[j].0);
        }
        lemma_table_entries(init);
        lemma_table_codes(init, last.0);
        assert(!table_of(init).contains_key(last.0)) by {
            if table_of(init).contains_key(last.0) {
                let i = choose|i: int| 0 <= i < init.len() && init[i].0 == last.0;
                assert(bindings[i].0 == bindings[bindings.len() - 1].0);
            }
        }
        assert forall|i: int| 0 <= i < bindings.len() implies table_of(bindings).contains_key(
            #[trigger] bindings[i].0,
        ) && table_of(bindings)[bindings[i].0] == bindings[i].1 by {
            if i < init.len() {
                assert(init[i] == bindings[i]);
            }
        }
    }
}

/// The binding table: the action of every code that is bound. No code is
/// bound twice.
#[derive(Debug)]
pub struct BindingTable {
    bindings: Vec<Binding>,
}

impl View for BindingTable {
    type V = Map<KeyCode, ActionView>;

    closed spec fn view(&self) -> Map<KeyCode, ActionView> {
        table_of(self.bindings.deep_view())
    }
}

impl BindingTable {
    #[verifier::type_invariant]
    spec fn well_formed(self) -> bool {
        distinct_codes(self.bindings.deep_view())
    }

    /// The table that binds no code.
    pub fn new() -> (table: Self)
        ensures
            table@ == Map::<KeyCode, ActionView>::empty(),
    {
        let table = BindingTable { bindings: Vec::new() };
        table
    }

    /// The number of codes bound.
    pub fn len(&self) -> (n: usize)
        ensures
            self@.dom().finite(),
            n == self@.dom().len(),
    {
        proof {
            use_type_invariant(self);
            lemma_table_entries(self.bindings.deep_view());
        }
        self.bindings.len()
    }

    /// Whether no code is bound.
    pub fn is_empty(&self) -> (b: bool)
        ensures
            b == (self@ == Map::<KeyCode, ActionView>::empty()),
    {
        proof {
            use_type_invariant(self);
            lemma_table_entries(self.bindings.deep_view());
        }
        self.bindings.len() == 0
    }

    /// Where `code` stands among the bindings, if it is bound.
    fn position(&self, code: KeyCode) -> (at: Option<usize>)
        ensures
            match at {
                Some(i) => i < self.bindings.len() && self.bindings[i as int].code == code
                    && self@.contains_key(code) && self@[code] == self.bindings[i as int].action@,
                None => !self@.contains_key(code),
            },
    {
        let ghost all = self.bindings.deep_view();
        proof {
            use_type_invariant(self);
            lemma_table_entries(all);
            lemma_table_codes(all, code);
        }
        let mut i: usize = 0;
        while i < self.bindings.len()
            invariant
                i <= self.bindings.len(),
                all == self.bindings.deep_view(),
                forall|j: int| 0 <= j < i ==> all[j].0 != code,
                forall|j: int|
                    0 <= j < all.len() ==> table_of(all).contains_key(#[trigger] all[j].0)
                        && table_of(all)[all[j].0] == all[j].1,
            decreases self.bindings.len() - i,
        {
            if self.bindings[i].code == code {
                assert(all[i as int].0 == code);
                return Some(i);
            }
            i += 1;
        }
        None
    }

    /// Whether `code` is bound.
    pub fn contains(&self, code: KeyCode) -> (b: bool)
        ensures
            b == self@.contains_key(code),
    {
        self.position(code).is_some()
    }

    /// The action that `code` is bound to, if it is bound.
    pub fn get(&self, code: KeyCode) -> (action: Option<&Action>)
        ensures
            match action {
                Some(a) => self@.contains_key(code) && self@[code] == a@,
                None => !self@.contains_key(code),
            },
    {
        match self.position(code) {
            Some(i) => Some(&self.bindings[i].action),
            None => None,
        }
    }

    /// Binds `code` to `action` where `code` is not bound yet, and says
    /// whether it did. A code that is bound keeps its action.
    pub fn insert(&mut self, code: KeyCode, action: Action) -> (bound: bool)
        ensures
            bound == !old(self)@.contains_key(code),
            final(self)@ == (if bound {
                old(self)@.insert(code, action@)
            } else {
                old(self)@
            }),
    {
        if self.position(code).is_some() {
            return false;
        }
        let ghost before = self.bindings.deep_view();
        proof {
            use_type_invariant(&*self);
            lemma_table_codes(before, code);
        }
        let mut bindings: Vec<Binding> = Vec::new();
        std::mem::swap(&mut bindings, &mut self.bindings);
        bindings.push(Binding { code, action });
        proof {
            let after = bindings.deep_view();
            assert(after.drop_last() == before);
            assert forall|i: int, j: int| 0 <= i < j < after.len() implies after[i].0
                != after[j].0 by {
                if j < before.len() {
                    assert(before[i].0 != before[j].0);
                } else {
                    assert(before[i].0 != code);
                }
            }
        }
        self.bindings = bindings;
        true
    }

    /// The bindings of the table, one for each code bound, in the order in
    /// which they were made.
    pub fn into_bindings(self) -> (bindings: Vec<Binding>)
        ensures
            distinct_codes(bindings.deep_view()),
            table_of(bindings.deep_view()) == self@,
    {
        proof {
            use_type_invariant(&self);
        }
        self.bindings
    }
}

/// The code that a descriptor stands for on a keyboard with the mapping
/// `codes`: the mask of its modifier tokens with the hardware code of its
/// key name. It stands for none where one of its modifier tokens names no
/// modifier, or where the keyboard does not know the key name.
pub open spec fn resolve(codes: Map<Seq<char>, u8>, descriptor: Seq<char>) -> Option<KeyCode> {
    match chord_mask(descriptor) {
        Some(mask) => if codes.contains_key(key_name(descriptor)) {
            Some(KeyCode { mask, code: codes[key_name(descriptor)] })
        } else {
            None
        },
        None => None,
    }
}

/// What registering `descriptor` with `action` makes of `table`: the table
/// with one more entry, where the descriptor stands for a code that is not
/// bound yet, and else the reason why the table stays as it is.
pub open spec fn registered(
    codes: Map<Seq<char>, u8>,
    table: Map<KeyCode, ActionView>,
    descriptor: Seq<char>,
    action: ActionView,
) -> Result<Map<KeyCode, ActionView>, BindingErrorView> {
    match resolve(codes, descriptor) {
        None => Err(BindingErrorView::UnknownKey(descriptor)),
        Some(code) => if table.contains_key(code) {
            Err(BindingErrorView::DuplicateBinding(descriptor))
        } else {
            Ok(table.insert(code, action))
        },
    }
}

/// What registering each of `wanted` in turn makes of `table`: the table
/// with an entry for each descriptor that was registered, and the reasons
/// why the others were not, in their order.
pub open spec fn registered_all(
    codes: Map<Seq<char>, u8>,
    table: Map<KeyCode, ActionView>,
    wanted: Seq<(Seq<char>, ActionView)>,
) -> (Map<KeyCode, ActionView>, Seq<BindingErrorView>)
    decreases wanted.len(),
{
    if wanted.len() == 0 {
        (table, Seq::empty())
    } else {
        let (so_far, errors) = registered_all(codes, table, wanted.drop_last());
        match registered(codes, so_far, wanted.last().0, wanted.last().1) {
            Ok(after) => (after, errors),
            Err(e) => (so_far, errors.push(e)),
        }
    }
}

/// The registry: it turns descriptors into codes by the keyboard mapping
/// that it was made with, and enters them into a binding table.
#[derive(Debug)]
pub struct KeyBindingRegistry {
    codes: KeyMap,
}

impl KeyBindingRegistry {
    /// The keyboard mapping of the registry.
    pub closed spec fn codes(&self) -> Map<Seq<char>, u8> {
        self.codes@
    }

    /// A registry for the keyboard mapping `codes`.
    pub fn new(codes: KeyMap) -> (registry: Self)
        ensures
            registry.codes() == codes@,
    {
        KeyBindingRegistry { codes }
    }

    /// The code that `descriptor` stands for, if its modifier tokens name
    /// modifiers and the keyboard knows its key name.
    pub fn resolve(&self, descriptor: &str) -> (code: Option<KeyCode>)
        ensures
            code == resolve(self.codes(), descriptor@),
    {
        match parse_chord(descriptor) {
            Some(chord) => match self.codes.get(chord.key.as_str()) {
                Some(code) => Some(KeyCode { mask: chord.mask, code }),
                None => None,
            },
            None => None,
        }
    }

    /// Binds the code of `descriptor` to `action` in `table`. It fails, and
    /// leaves the table as it is, where the descriptor stands for no code or
    /// the code is bound already.
    pub fn register(&self, descriptor: &str, action: Action, table: &mut BindingTable) -> (result:
        Result<(), BindingError>)
        ensures
            match result {
                Ok(_) => registered(self.codes(), old(table)@, descriptor@, action@) == Ok::<
                    Map<KeyCode, ActionView>,
                    BindingErrorView,
                >(final(table)@),
                Err(e) => registered(self.codes(), old(table)@, descriptor@, action@) == Err::<
                    Map<KeyCode, ActionView>,
                    BindingErrorView,
                >(e@) && final(table)@ == old(table)@,
            },
    {
        match self.resolve(descriptor) {
            None => Err(BindingError::UnknownKey(descriptor.to_owned())),
            Some(code) => if table.insert(code, action) {
                Ok(())
            } else {
                Err(BindingError::DuplicateBinding(descriptor.to_owned()))
            },
        }
    }

    /// Registers each descriptor of `wanted` with its action, in order, and
    /// hands back the errors of those that were not registered. A session
    /// starts only where there is none.
    pub fn register_all(&self, wanted: Vec<(String, Action)>, table: &mut BindingTable) -> (errors:
        Vec<BindingError>)
        ensures
            (final(table)@, errors.deep_view()) == registered_all(
                self.codes(),
                old(table)@,
                wanted.deep_view(),
            ),
    {
        let mut errors: Vec<BindingError> = Vec::new();
        let ghost all = wanted.deep_view();
        let ghost start = table@;
        for entry in it: wanted
            invariant
                it.seq().len() == all.len(),
                forall|k: int| 0 <= k < all.len() ==> all[k] == (it.seq()[k].0@, it.seq()[k].1@),
                (table@, errors.deep_view()) == registered_all(
                    self.codes(),
                    start,
                    all.take(it.index() as int),
                ),
        {
            assert(all.take(it.index() + 1).drop_last() == all.take(it.index() as int));
            let (descriptor, action) = entry;
            match self.register(descriptor.as_str(), action, table) {
                Ok(_) => {},
                Err(e) => {
                    errors.push(e);
                },
            }
        }
        proof {
            assert(all.take(all.len() as int) == all);
        }
        errors
    }
}

/// A descriptor whose modifier tokens all name modifiers, whose key name
/// the keyboard knows, and whose code is not bound yet, is registered: the
/// table gains exactly one entry, under the code that the mapping gives, and
/// every other entry stays as it was.
pub proof fn lemma_known_key_is_registered(
    codes: Map<Seq<char>, u8>,
    table: Map<KeyCode, ActionView>,
    descriptor: Seq<char>,
    action: ActionView,
)
    requires
        table.dom().finite(),
        name_modifiers(modifier_tokens(descriptor)),
        codes.contains_key(key_name(descriptor)),
        !table.contains_key(resolve(codes, descriptor).unwrap()),
    ensures
        ({
            let code = resolve(codes, descriptor).unwrap();
            let after = table.insert(code, action);
            &&& code.code == codes[key_name(descriptor)]
            &&& registered(codes, table, descriptor, action) == Ok::<
                Map<KeyCode, ActionView>,
                BindingErrorView,
            >(after)
            &&& after.dom().len() == table.dom().len() + 1
            &&& after.remove(code) == table
        }),
{
    lemma_mask_of_named_modifiers(modifier_tokens(descriptor));
}

/// A descriptor with a modifier token that names no modifier is rejected,
/// whatever the keyboard knows and the table holds: it is never registered
/// under the code of another chord.
pub proof fn lemma_unknown_modifier_is_rejected(
    codes: Map<Seq<char>, u8>,
    table: Map<KeyCode, ActionView>,
    descriptor: Seq<char>,
    action: ActionView,
)
    requires
        !name_modifiers(modifier_tokens(descriptor)),
    ensures
        resolve(codes, descriptor) is None,
        registered(codes, table, descriptor, action) == Err::<
            Map<KeyCode, ActionView>,
            BindingErrorView,
        >(BindingErrorView::UnknownKey(descriptor)),
{
    lemma_mask_of_named_modifiers(modifier_tokens(descriptor));
}

/// A descriptor whose key name the keyboard does not know is rejected as an
/// unknown key, whatever the table holds.
pub proof fn lemma_unknown_key_is_rejected(
    codes: Map<Seq<char>, u8>,
    table: Map<KeyCode, ActionView>,
    descriptor: Seq<char>,
    action: ActionView,
)
    requires
        !codes.contains_key(key_name(descriptor)),
    ensures
        registered(codes, table, descriptor, action) == Err::<
            Map<KeyCode, ActionView>,
            BindingErrorView,
        >(BindingErrorView::UnknownKey(descriptor)),
{
}

/// Of two descriptors that stand for the same code, the first to be
/// registered wins: the second is rejected as a duplicate, and the code
/// stays bound to the first action.
pub proof fn lemma_first_registration_wins(
    codes: Map<Seq<char>, u8>,
    table: Map<KeyCode, ActionView>,
    first: Seq<char>,
    first_action: ActionView,
    second: Seq<char>,
    second_action: ActionView,
)
    requires
        resolve(codes, first) is Some,
        resolve(codes, second) == resolve(codes, first),
        !table.contains_key(resolve(codes, first).unwrap()),
    ensures
        ({
            let code = resolve(codes, first).unwrap();
            let after = table.insert(code, first_action);
            &&& registered(codes, table, first, first_action) == Ok::<
                Map<KeyCode, ActionView>,
                BindingErrorView,
            >(after)
            &&& registered(codes, after, second, second_action) == Err::<
                Map<KeyCode, ActionView>,
                BindingErrorView,
            >(BindingErrorView::DuplicateBinding(second))
            &&& after[code] == first_action
        }),
{
}

/// An entry, once made, is never altered: whatever is registered later, a
/// code that is bound stays bound to the same action.
pub proof fn lemma_entries_are_never_altered(
    codes: Map<Seq<char>, u8>,
    table: Map<KeyCode, ActionView>,
    wanted: Seq<(Seq<char>, ActionView)>,
    code: KeyCode,
)
    requires
        table.contains_key(code),
    ensures
        registered_all(codes, table, wanted).0.contains_key(code),
        registered_all(codes, table, wanted).0[code] == table[code],
    decreases wanted.len(),
{
    if wanted.len() > 0 {
        lemma_entries_are_never_altered(codes, table, wanted.drop_last(), code);
    }
}

} // verus!
