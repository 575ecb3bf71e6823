//! The keymap store the engine resolves keys against: per key code, the
//! configured action and the mutable per-key state slot.
//!
//! A key that no layer configures behaves as a simple pass-through of its own
//! code, so a lookup succeeds for every key code the dispatcher is handed.

use vstd::prelude::*;
use vstd::pervasive::VecAdditionalExecFns;

use crate::keys::{EventTime, KeyCode};

verus! {

/// The logical output of an action: emit this key code on the output device.
#[derive(Clone, Copy, PartialEq, Eq, Structural, Debug)]
pub struct Effect(pub KeyCode);

/// What a key is configured to do: act as one effect, or disambiguate
/// between a tap effect and a hold effect.
#[derive(Clone, Copy, PartialEq, Eq, Structural, Debug)]
pub enum Action {
    Simple(Effect),
    TapHold(Effect, Effect),
}

/// The press timestamp remembered while a tap-hold key waits for a decision.
#[derive(Clone, Copy, PartialEq, Eq, Structural, Debug)]
pub struct TapHoldWaiting {
    pub timestamp: EventTime,
}

/// The per-key tap-hold automaton value.
#[derive(Clone, Copy, PartialEq, Eq, Structural, Debug)]
pub enum TapHoldState {
    ThIdle,
    ThWaiting(TapHoldWaiting),
    ThHolding,
}

/// The state slot of one key: simple keys carry no state of their own,
/// tap-hold keys carry the automaton value.
#[derive(Clone, Copy, PartialEq, Eq, Structural, Debug)]
pub enum KeyState {
    KsClick,
    KsTapHold(TapHoldState),
}

/// One resolved keymap record: the key, its action, its state slot.
#[derive(Clone, Copy, PartialEq, Eq, Structural, Debug)]
pub struct MergedKey {
    pub code: KeyCode,
    pub action: Action,
    pub state: KeyState,
}

/// Layered configuration: each layer lists `(key, action)` pairs; a later
/// entry for the same key overrides an earlier one.
pub type Layers = Vec<Vec<(KeyCode, Action)>>;

/// The state slot a freshly configured action starts in.
pub open spec fn initial_state(a: Action) -> KeyState {
    match a {
        Action::Simple(_) => KeyState::KsClick,
        Action::TapHold(_, _) => KeyState::KsTapHold(TapHoldState::ThIdle),
    }
}

/// The record an unconfigured key resolves to: pass its own code through.
pub open spec fn default_entry(c: KeyCode) -> MergedKey {
    MergedKey { code: c, action: Action::Simple(Effect(c)), state: KeyState::KsClick }
}

/// The record a configured key starts from.
pub open spec fn initial_entry(c: KeyCode, a: Action) -> MergedKey {
    MergedKey { code: c, action: a, state: initial_state(a) }
}

/// The same record with its state slot reset to the initial one.
pub open spec fn reset_entry(e: MergedKey) -> MergedKey {
    MergedKey { state: initial_state(e.action), ..e }
}

/// A state value fits an action: simple keys are stateless, tap-hold keys
/// carry a tap-hold automaton value.
pub open spec fn state_kind_ok(a: Action, st: KeyState) -> bool {
    match a {
        Action::Simple(_) => st is KsClick,
        Action::TapHold(_, _) => st is KsTapHold,
    }
}

/// No two records of the store speak of the same key.
pub open spec fn unique_codes(s: Seq<MergedKey>) -> bool {
    forall|i: int, j: int| 0 <= i < j < s.len() ==> s[i].code != s[j].code
}

/// The first record with the given code, if any.
pub open spec fn find_entry(s: Seq<MergedKey>, c: KeyCode) -> Option<MergedKey>
    decreases s.len(),
{
    if s.len() == 0 {
        None
    } else if s[0].code == c {
        Some(s[0])
    } else {
        find_entry(s.drop_first(), c)
    }
}

/// A found record carries the code it was found under and sits in the store;
/// a miss means no record carries the code.
pub proof fn lemma_find_entry_props(s: Seq<MergedKey>, c: KeyCode)
    ensures
        match find_entry(s, c) {
            Some(e) => e.code == c && exists|i: int| 0 <= i < s.len() && s[i] == e,
            None => forall|i: int| 0 <= i < s.len() ==> s[i].code != c,
        },
    decreases s.len(),
{
    if s.len() > 0 && s[0].code != c {
        lemma_find_entry_props(s.drop_first(), c);
        match find_entry(s.drop_first(), c) {
            Some(e) => {
                let i = choose|i: int| 0 <= i < s.drop_first().len() && s.drop_first()[i] == e;
                assert(s[i + 1] == e);
            },
            None => {
                assert forall|i: int| 0 <= i < s.len() implies s[i].code != c by {
                    if i > 0 {
                        assert(s.drop_first()[i - 1] == s[i]);
                    }
                }
            },
        }
    }
}

/// Overwriting the record at a code changes the lookup of that code alone.
pub proof fn lemma_find_entry_update(s: Seq<MergedKey>, i: int, e2: MergedKey, c: KeyCode)
    requires
        0 <= i < s.len(),
        e2.code == s[i].code,
        unique_codes(s),
    ensures
        find_entry(s.update(i, e2), c) == (if c == e2.code {
            Some(e2)
        } else {
            find_entry(s, c)
        }),
    decreases s.len(),
{
    let s2 = s.update(i, e2);
    if i == 0 {
        if c != e2.code {
            assert(s2.drop_first() =~= s.drop_first());
        }
    } else {
        assert(s2.drop_first() =~= s.drop_first().update(i - 1, e2));
        assert(s[0] == s2[0]);
        if s[0].code == c {
            if c == e2.code {
                assert(s[0].code == s[i].code);
                assert(false);
            }
        } else {
            lemma_find_entry_update(s.drop_first(), i - 1, e2, c);
        }
    }
}

/// Appending a record for a new code changes the lookup of that code alone.
pub proof fn lemma_find_entry_push(s: Seq<MergedKey>, e: MergedKey, c: KeyCode)
    ensures
        find_entry(s.push(e), c) == (match find_entry(s, c) {
            Some(x) => Some(x),
            None => if e.code == c {
                Some(e)
            } else {
                None::<MergedKey>
            },
        }),
    decreases s.len(),
{
    if s.len() == 0 {
        assert(s.push(e)[0] == e);
        if e.code == c {
            assert(find_entry(s.push(e), c) == Some(e));
        } else {
            assert(s.push(e).drop_first() =~= Seq::<MergedKey>::empty());
            assert(find_entry(s.push(e), c) == find_entry(Seq::<MergedKey>::empty(), c));
            assert(find_entry(Seq::<MergedKey>::empty(), c) is None);
            assert(find_entry(s, c) is None);
        }
    } else {
        assert(s.push(e)[0] == s[0]);
        if s[0].code == c {
            assert(find_entry(s.push(e), c) == Some(s[0]));
            assert(find_entry(s, c) == Some(s[0]));
        } else {
            assert(s.push(e).drop_first() =~= s.drop_first().push(e));
            lemma_find_entry_push(s.drop_first(), e, c);
        }
    }
}

/// Resetting every state slot maps each lookup result through `reset_entry`.
pub proof fn lemma_find_entry_reset(s1: Seq<MergedKey>, s2: Seq<MergedKey>, c: KeyCode)
    requires
        s1.len() == s2.len(),
        forall|j: int| 0 <= j < s1.len() ==> s2[j] == reset_entry(s1[j]),
    ensures
        find_entry(s2, c) == (match find_entry(s1, c) {
            Some(e) => Some(reset_entry(e)),
            None => None::<MergedKey>,
        }),
    decreases s1.len(),
{
    if s1.len() > 0 {
        assert(s2[0] == reset_entry(s1[0]));
        if s1[0].code != c {
            assert forall|j: int| 0 <= j < s1.drop_first().len() implies s2.drop_first()[j]
                == reset_entry(s1.drop_first()[j]) by {
                assert(s1.drop_first()[j] == s1[j + 1]);
                assert(s2.drop_first()[j] == s2[j + 1]);
            }
            lemma_find_entry_reset(s1.drop_first(), s2.drop_first(), c);
        }
    }
}

/// All configured entries of all layers, in configuration order.
pub open spec fn flat_layers(layers: Seq<Vec<(KeyCode, Action)>>) -> Seq<(KeyCode, Action)>
    decreases layers.len(),
{
    if layers.len() == 0 {
        Seq::empty()
    } else {
        flat_layers(layers.drop_last()) + layers.last()@
    }
}

/// The action configured for a key: the last entry for it wins.
pub open spec fn configured_action(entries: Seq<(KeyCode, Action)>, c: KeyCode) -> Option<Action>
    decreases entries.len(),
{
    if entries.len() == 0 {
        None
    } else if entries.last().0 == c {
        Some(entries.last().1)
    } else {
        configured_action(entries.drop_last(), c)
    }
}

/// The record the store owes a key after construction or a reset.
pub open spec fn fresh_entry(entries: Seq<(KeyCode, Action)>, c: KeyCode) -> MergedKey {
    match configured_action(entries, c) {
        Some(a) => initial_entry(c, a),
        None => default_entry(c),
    }
}

/// The keymap store: one record per configured key, every other key code
/// resolving to a pass-through default.
pub struct LayersManager {
    pub keys: Vec<MergedKey>,
}

impl LayersManager {
    /// The record the store holds for a key code; total, by falling back to
    /// the pass-through default for unconfigured keys.
    pub open spec fn spec_get(self, c: KeyCode) -> MergedKey {
        match find_entry(self.keys@, c) {
            Some(e) => e,
            None => default_entry(c),
        }
    }

    /// A key code the store holds an explicit record for.
    pub open spec fn configured(self, c: KeyCode) -> bool {
        find_entry(self.keys@, c) is Some
    }

    /// Well-formedness: one record per code, each record filed under its own
    /// code, and each state slot of the kind its action calls for.
    pub open spec fn wf(self) -> bool {
        &&& unique_codes(self.keys@)
        &&& forall|c: KeyCode| (#[trigger] self.spec_get(c)).code == c
        &&& forall|c: KeyCode| state_kind_ok(self.spec_get(c).action, (#[trigger] self.spec_get(c)).state)
    }

    /// Builds the store from layered configuration; later entries override
    /// earlier ones, and every record starts in its initial state.
    pub fn new(layers: Layers) -> (r: LayersManager)
        ensures
            r.wf(),
            forall|c: KeyCode| #[trigger] r.spec_get(c) == fresh_entry(flat_layers(layers@), c),
    {
        let mut flat: Vec<(KeyCode, Action)> = Vec::new();
        let mut i: usize = 0;
        while i < layers.len()
            invariant
                i <= layers.len(),
                flat@ =~= flat_layers(layers@.take(i as int)),
            decreases layers.len() - i,
        {
            let layer: &Vec<(KeyCode, Action)> = &layers[i];
            let mut j: usize = 0;
            while j < layer.len()
                invariant
                    i < layers.len(),
                    j <= layer.len(),
                    layer == &layers[i as int],
                    flat@ =~= flat_layers(layers@.take(i as int)) + layer@.take(j as int),
                decreases layer.len() - j,
            {
                flat.push(layer[j]);
                proof {
                    assert(layer@.take(j + 1).drop_last() =~= layer@.take(j as int));
                    assert(flat@ =~= flat_layers(layers@.take(i as int)) + layer@.take(j + 1));
                }
                j = j + 1;
            }
            proof {
                assert(layers@.take(i + 1).drop_last() =~= layers@.take(i as int));
                assert(layers@.take(i + 1).last() == layers@[i as int]);
                assert(layer@.take(j as int) =~= layer@);
                assert(flat@ =~= flat_layers(layers@.take(i + 1)));
            }
            i = i + 1;
        }
        proof {
            assert(layers@.take(layers@.len() as int) =~= layers@);
        }

        let mut keys: Vec<MergedKey> = Vec::new();
        let mut k: usize = 0;
        while k < flat.len()
            invariant
                k <= flat.len(),
                unique_codes(keys@),
                forall|c: KeyCode| find_entry(keys@, c) == (
                    match configured_action(flat@.take(k as int), c) {
                        Some(a) => Some(initial_entry(c, a)),
                        None => None::<MergedKey>,
                    }),
            decreases flat.len() - k,
        {
            let (c0, a0) = flat[k];
            let entry = match a0 {
                Action::Simple(_) => MergedKey { code: c0, action: a0, state: KeyState::KsClick },
                Action::TapHold(_, _) => MergedKey {
                    code: c0,
                    action: a0,
                    state: KeyState::KsTapHold(TapHoldState::ThIdle),
                },
            };
            let found = Self::find_index(&keys, c0);
            proof {
                assert(flat@.take(k + 1).drop_last() =~= flat@.take(k as int));
                assert(flat@.take(k + 1).last() == flat@[k as int]);
            }
            match found {
                Some(idx) => {
                    proof {
                        lemma_find_entry_props(keys@, c0);
                        assert forall|c: KeyCode| find_entry(keys@.update(idx as int, entry), c)
                            == (match configured_action(flat@.take(k + 1), c) {
                                Some(a) => Some(initial_entry(c, a)),
                                None => None::<MergedKey>,
                            }) by {
                            lemma_find_entry_update(keys@, idx as int, entry, c);
                        }
                    }
                    keys.set(idx, entry);
                },
                None => {
                    proof {
                        lemma_find_entry_props(keys@, c0);
                        assert forall|i2: int, j2: int|
                            0 <= i2 < j2 < keys@.push(entry).len() implies keys@.push(entry)[i2].code
                            != keys@.push(entry)[j2].code by {
                            if j2 < keys@.len() {
                                assert(keys@.push(entry)[i2] == keys@[i2]);
                                assert(keys@.push(entry)[j2] == keys@[j2]);
                            } else {
                                assert(keys@.push(entry)[j2] == entry);
                                assert(keys@.push(entry)[i2] == keys@[i2]);
                            }
                        }
                        assert forall|c: KeyCode| find_entry(keys@.push(entry), c)
                            == (match configured_action(flat@.take(k + 1), c) {
                                Some(a) => Some(initial_entry(c, a)),
                                None => None::<MergedKey>,
                            }) by {
                            lemma_find_entry_push(keys@, entry, c);
                        }
                    }
                    keys.push(entry);
                },
            }
            k = k + 1;
        }
        proof {
            assert(flat@.take(flat@.len() as int) =~= flat@);
        }
        let r = LayersManager { keys };
        proof {
            assert forall|c: KeyCode| (#[trigger] r.spec_get(c)).code == c
                && state_kind_ok(r.spec_get(c).action, r.spec_get(c).state)
                && r.spec_get(c) == fresh_entry(flat_layers(layers@), c) by {
                lemma_find_entry_props(r.keys@, c);
            }
        }
        r
    }

    /// Resets every record's state slot to its initial value; actions and
    /// the set of configured keys are untouched.
    pub fn init(&mut self)
        ensures
            old(self).wf() ==> final(self).wf(),
            forall|c: KeyCode| #[trigger] final(self).spec_get(c)
                == reset_entry(old(self).spec_get(c)),
    {
        let ghost s1 = self.keys@;
        let mut k: usize = 0;
        while k < self.keys.len()
            invariant
                k <= self.keys.len(),
                self.keys@.len() == s1.len(),
                forall|j: int| 0 <= j < k ==> self.keys@[j] == reset_entry(s1[j]),
                forall|j: int| k <= j < s1.len() ==> self.keys@[j] == s1[j],
            decreases self.keys.len() - k,
        {
            let e = self.keys[k];
            let new_e = match e.action {
                Action::Simple(_) => MergedKey { code: e.code, action: e.action, state: KeyState::KsClick },
                Action::TapHold(_, _) => MergedKey {
                    code: e.code,
                    action: e.action,
                    state: KeyState::KsTapHold(TapHoldState::ThIdle),
                },
            };
            self.keys.set(k, new_e);
            k = k + 1;
        }
        proof {
            assert forall|c: KeyCode| #[trigger] final(self).spec_get(c)
                == reset_entry(old(self).spec_get(c)) by {
                lemma_find_entry_reset(s1, self.keys@, c);
                assert(reset_entry(default_entry(c)) == default_entry(c));
            }
            assert(unique_codes(self.keys@) == unique_codes(s1)) by {
                if unique_codes(s1) {
                    assert forall|i: int, j: int| 0 <= i < j < self.keys@.len()
                        implies self.keys@[i].code != self.keys@[j].code by {}
                }
                if unique_codes(self.keys@) {
                    assert forall|i: int, j: int| 0 <= i < j < s1.len()
                        implies s1[i].code != s1[j].code by {
                        assert(self.keys@[i].code == s1[i].code);
                        assert(self.keys@[j].code == s1[j].code);
                    }
                }
            }
        }
    }

    /// First position of a record for `c`, scanning front to back.
    fn find_index(keys: &Vec<MergedKey>, c: KeyCode) -> (r: Option<usize>)
        ensures
            match r {
                Some(i) => i < keys@.len() && find_entry(keys@, c) == Some(keys@[i as int]),
                None => find_entry(keys@, c) is None,
            },
    {
        let mut i: usize = 0;
        proof {
            assert(keys@.skip(0) =~= keys@);
        }
        while i < keys.len()
            invariant
                i <= keys.len(),
                find_entry(keys@, c) == find_entry(keys@.skip(i as int), c),
            decreases keys.len() - i,
        {
            if keys[i].code.0 == c.0 {
                proof {
                    assert(keys@.skip(i as int)[0] == keys@[i as int]);
                }
                return Some(i);
            }
            proof {
                assert(keys@.skip(i as int)[0] == keys@[i as int]);
                assert(keys@.skip(i as int).drop_first() =~= keys@.skip(i + 1));
            }
            i = i + 1;
        }
        proof {
            assert(keys@.skip(keys@.len() as int) =~= Seq::<MergedKey>::empty());
        }
        None
    }

    /// The record for a key code; the pass-through default where none is
    /// configured.
    pub fn get(&self, c: KeyCode) -> (e: MergedKey)
        ensures
            e == self.spec_get(c),
    {
        match Self::find_index(&self.keys, c) {
            Some(i) => self.keys[i],
            None => MergedKey {
                code: c,
                action: Action::Simple(Effect(c)),
                state: KeyState::KsClick,
            },
        }
    }

    /// Writes the state slot of a configured key; every other record, and
    /// the key's code and action, stay as they were.
    pub fn set_state(&mut self, c: KeyCode, st: KeyState)
        requires
            old(self).wf(),
            old(self).configured(c),
            state_kind_ok(old(self).spec_get(c).action, st),
        ensures
            final(self).wf(),
            final(self).configured(c),
            final(self).spec_get(c) == (MergedKey { state: st, ..old(self).spec_get(c) }),
            forall|d: KeyCode| d != c ==> #[trigger] final(self).spec_get(d)
                == old(self).spec_get(d),
    {
        let found = Self::find_index(&self.keys, c);
        match found {
            Some(i) => {
                let e = self.keys[i];
                proof {
                    lemma_find_entry_props(self.keys@, c);
                }
                let new_e = MergedKey { code: e.code, action: e.action, state: st };
                proof {
                    assert forall|d: KeyCode| find_entry(self.keys@.update(i as int, new_e), d)
                        == (if d == c {
                            Some(new_e)
                        } else {
                            find_entry(self.keys@, d)
                        }) by {
                        lemma_find_entry_update(self.keys@, i as int, new_e, d);
                    }
                }
                self.keys.set(i, new_e);
                proof {
                    assert forall|d: KeyCode| (#[trigger] self.spec_get(d)).code == d
                        && state_kind_ok(self.spec_get(d).action, self.spec_get(d).state) by {
                        if d != c {
                            assert(self.spec_get(d) == old(self).spec_get(d));
                        }
                    }
                }
            },
            None => {
                proof {
                    assert(false);
                }
            },
        }
    }
}

} // verus!
