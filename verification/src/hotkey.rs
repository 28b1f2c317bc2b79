//! Changing the global hotkey and saving the settings screen.
//!
//! Registering shortcuts and writing storage is the caller's work; the flows here decide,
//! event by event, what comes next and what is answered.
use vstd::prelude::*;
use vstd::string::*;
use crate::settings::{check_setting_keys, is_setting_key, lookup, unknown_key_message};

verus! {

broadcast use vstd::string::group_string_axioms;

/// The hotkey used when none is stored.
pub open spec fn default_hotkey() -> Seq<char> {
    "Ctrl+Shift+V"@
}

/// The stored hotkey, or the default one when none is stored.
pub fn hotkey_or_default(stored: Option<String>) -> (h: String)
    ensures
        h@ == match stored {
            Some(s) => s@,
            None => default_hotkey(),
        },
{
    match stored {
        Some(s) => s,
        None => "Ctrl+Shift+V".to_owned(),
    }
}

/// The answer when the hotkey `hotkey` could not be registered because of `reason`.
pub open spec fn unusable_hotkey_message(hotkey: Seq<char>, reason: Seq<char>) -> Seq<char> {
    "ホットキー '"@ + hotkey + "' は使用できません: "@ + reason
}

/// Where a hotkey change stands.
#[derive(Debug, Clone, Copy, PartialEq, Eq, Structural)]
pub enum HotkeyState {
    Unregistering,
    Registering,
    Restoring,
    Done,
}

/// What the caller reports back during a hotkey change.
#[derive(Debug)]
pub enum HotkeyEvent {
    /// All shortcuts were (or could not be) unregistered.
    Unregistered(Result<(), String>),
    /// The new hotkey was (or could not be) registered.
    Registered(Result<(), String>),
    /// The attempt to register the old hotkey again is over, whatever its outcome.
    Restored,
}

/// What the caller does next during a hotkey change.
#[derive(Debug)]
pub enum HotkeyAction {
    /// Unregister every shortcut.
    UnregisterAll,
    /// Register this hotkey.
    Register(String),
    /// Register this (old) hotkey again; its outcome is only logged.
    Restore(String),
    /// The change is over with this answer.
    Finish(Result<(), String>),
    /// Nothing: the event does not apply in this state.
    Nothing,
}

/// A change of the global hotkey to `new_hotkey`, with `old_hotkey` to fall back on.
pub struct HotkeyChange {
    pub new_hotkey: String,
    pub old_hotkey: String,
    pub state: HotkeyState,
    /// Why the new hotkey was refused, once it was.
    pub reason: String,
}

impl HotkeyChange {
    /// Starts changing the hotkey to `new_hotkey`; the stored hotkey (or the default one)
    /// is the one to fall back on. The first action is always to unregister all shortcuts.
    pub fn start(new_hotkey: &str, stored: Option<String>) -> (r: (Self, HotkeyAction))
        ensures
            r.0.new_hotkey@ == new_hotkey@,
            r.0.old_hotkey@ == match stored {
                Some(s) => s@,
                None => default_hotkey(),
            },
            r.0.state == HotkeyState::Unregistering,
            r.1 is UnregisterAll,
    {
        let change = HotkeyChange {
            new_hotkey: new_hotkey.to_owned(),
            old_hotkey: hotkey_or_default(stored),
            state: HotkeyState::Unregistering,
            reason: String::new(),
        };
        (change, HotkeyAction::UnregisterAll)
    }

    /// Takes in `event` and tells what to do next.
    pub fn step(&mut self, event: HotkeyEvent) -> (a: HotkeyAction)
        ensures
            final(self).new_hotkey == old(self).new_hotkey,
            final(self).old_hotkey == old(self).old_hotkey,
            match (old(self).state, event) {
                (HotkeyState::Unregistering, HotkeyEvent::Unregistered(Err(e))) => {
                    &&& final(self).state == HotkeyState::Done
                    &&& a matches HotkeyAction::Finish(Err(m)) && m@ == e@
                },
                (HotkeyState::Unregistering, HotkeyEvent::Unregistered(Ok(()))) => {
                    &&& final(self).state == HotkeyState::Registering
                    &&& a matches HotkeyAction::Register(h) && h@ == old(self).new_hotkey@
                },
                (HotkeyState::Registering, HotkeyEvent::Registered(Ok(()))) => {
                    &&& final(self).state == HotkeyState::Done
                    &&& a matches HotkeyAction::Finish(Ok(()))
                },
                (HotkeyState::Registering, HotkeyEvent::Registered(Err(e))) => {
                    &&& final(self).state == HotkeyState::Restoring
                    &&& final(self).reason@ == e@
                    &&& a matches HotkeyAction::Restore(h) && h@ == old(self).old_hotkey@
                },
                (HotkeyState::Restoring, HotkeyEvent::Restored) => {
                    &&& final(self).state == HotkeyState::Done
                    &&& a matches HotkeyAction::Finish(Err(m)) && m@ == unusable_hotkey_message(
                        old(self).new_hotkey@,
                        old(self).reason@,
                    )
                },
                _ => {
                    &&& final(self).state == old(self).state
                    &&& a is Nothing
                },
            },
    {
        match (self.state, event) {
            (HotkeyState::Unregistering, HotkeyEvent::Unregistered(Err(e))) => {
                self.state = HotkeyState::Done;
                HotkeyAction::Finish(Err(e))
            },
            (HotkeyState::Unregistering, HotkeyEvent::Unregistered(Ok(()))) => {
                self.state = HotkeyState::Registering;
                HotkeyAction::Register(self.new_hotkey.clone())
            },
            (HotkeyState::Registering, HotkeyEvent::Registered(Ok(()))) => {
                self.state = HotkeyState::Done;
                HotkeyAction::Finish(Ok(()))
            },
            (HotkeyState::Registering, HotkeyEvent::Registered(Err(e))) => {
                self.state = HotkeyState::Restoring;
                self.reason = e;
                HotkeyAction::Restore(self.old_hotkey.clone())
            },
            (HotkeyState::Restoring, HotkeyEvent::Restored) => {
                self.state = HotkeyState::Done;
                let mut m = "ホットキー '".to_owned();
                m.append(self.new_hotkey.as_str());
                m.append("' は使用できません: ");
                m.append(self.reason.as_str());
                HotkeyAction::Finish(Err(m))
            },
            _ => HotkeyAction::Nothing,
        }
    }
}

/// Where saving the settings screen stands.
#[derive(Debug, Clone, Copy, PartialEq, Eq, Structural)]
pub enum SaveState {
    ChangingHotkey,
    /// Writing the setting at this position of the batch.
    Writing(usize),
    RestoringHotkey,
    Done,
}

/// What the caller reports back while settings are saved.
#[derive(Debug)]
pub enum SaveEvent {
    /// The hotkey change is over with this answer.
    HotkeyChanged(Result<(), String>),
    /// The setting last asked for was (or could not be) written.
    Written(Result<(), String>),
    /// The stored hotkey was registered again (or could not be; that is only logged).
    HotkeyRestored,
}

/// What the caller does next while settings are saved.
#[derive(Debug)]
pub enum SaveAction {
    /// Change the global hotkey to this one.
    ChangeHotkey(String),
    /// Write the setting at this position of the batch.
    Write(usize),
    /// Register this hotkey, the one stored before saving began, again.
    RestoreHotkey(String),
    /// Saving is over with this answer.
    Finish(Result<(), String>),
    /// Nothing: the event does not apply in this state.
    Nothing,
}

/// The value of the `hotkey` setting in a batch: that of its first pair with that key.
pub open spec fn hotkey_in(pairs: Seq<(String, String)>) -> Option<Seq<char>>
    decreases pairs.len(),
{
    if pairs.len() == 0 {
        None
    } else if pairs[0].0@ == "hotkey"@ {
        Some(pairs[0].1@)
    } else {
        hotkey_in(pairs.drop_first())
    }
}

/// The hotkey of a batch is the value its first pair with the key `hotkey` gives, as settings
/// are looked up: a batch has one exactly when one of its pairs has that key, and it is the
/// value of the first such pair.
pub proof fn lemma_hotkey_in_first_pair(pairs: Seq<(String, String)>)
    ensures
        hotkey_in(pairs) == lookup(pairs, "hotkey"@),
        hotkey_in(pairs) is Some <==> exists|i: int| 0 <= i < pairs.len() && (#[trigger] pairs[i]).0@ == "hotkey"@,
        hotkey_in(pairs) matches Some(h) ==> exists|i: int|
            0 <= i < pairs.len() && (#[trigger] pairs[i]).0@ == "hotkey"@ && pairs[i].1@ == h && forall|j: int|
                0 <= j < i ==> (#[trigger] pairs[j]).0@ != "hotkey"@,
    decreases pairs.len(),
{
    if pairs.len() > 0 {
        let rest = pairs.drop_first();
        lemma_hotkey_in_first_pair(rest);
        if pairs[0].0@ != "hotkey"@ {
            if exists|i: int| 0 <= i < pairs.len() && (#[trigger] pairs[i]).0@ == "hotkey"@ {
                let i = choose|i: int| 0 <= i < pairs.len() && (#[trigger] pairs[i]).0@ == "hotkey"@;
                assert(rest[i - 1] == pairs[i]);
            }
            if hotkey_in(pairs) is Some {
                let h = hotkey_in(pairs)->0;
                let i = choose|i: int|
                    0 <= i < rest.len() && (#[trigger] rest[i]).0@ == "hotkey"@ && rest[i].1@ == h && forall|j: int|
                        0 <= j < i ==> (#[trigger] rest[j]).0@ != "hotkey"@;
                assert(pairs[i + 1] == rest[i]);
                assert forall|j: int| 0 <= j < i + 1 implies (#[trigger] pairs[j]).0@ != "hotkey"@ by {
                    if j > 0 {
                        assert(pairs[j] == rest[j - 1]);
                    }
                }
            }
        }
    }
}

/// The first action after the batch is written from position `i` on successfully.
pub open spec fn write_from(i: int, n: int) -> SaveState {
    if i < n {
        SaveState::Writing(i as usize)
    } else {
        SaveState::Done
    }
}

/// Saving a batch of settings from the settings screen: unknown keys refuse the batch; a new
/// hotkey is registered before anything is written; settings are written in order and the
/// first failed write ends the batch, after the stored hotkey is registered again when the
/// batch held one.
pub struct SaveSettings {
    pub pairs: Vec<(String, String)>,
    pub has_hotkey: bool,
    /// The hotkey stored before saving began (the default one when none was).
    pub old_hotkey: String,
    pub state: SaveState,
    /// Why a write failed, once one did.
    pub failure: String,
}

impl SaveSettings {
    /// The keys of the batch.
    pub open spec fn keys(&self) -> Seq<Seq<char>> {
        self.pairs@.map_values(|p: (String, String)| p.0@)
    }

    /// Starts saving the batch `pairs`; `stored_hotkey` is the hotkey stored now, to fall
    /// back on if a write fails.
    pub fn start(pairs: Vec<(String, String)>, stored_hotkey: Option<String>) -> (r: (Self, SaveAction))
        ensures
            r.0.pairs@ == pairs@,
            r.0.old_hotkey@ == match stored_hotkey {
                Some(h) => h@,
                None => default_hotkey(),
            },
            r.0.has_hotkey == (hotkey_in(pairs@) is Some),
            !(forall|i: int| 0 <= i < pairs@.len() ==> is_setting_key(#[trigger] pairs@[i].0@)) ==> {
                &&& r.0.state == SaveState::Done
                &&& r.1 matches SaveAction::Finish(Err(m)) && exists|i: int|
                    0 <= i < pairs@.len() && !is_setting_key(pairs@[i].0@) && (forall|j: int|
                        0 <= j < i ==> is_setting_key(#[trigger] pairs@[j].0@)) && m@
                        == unknown_key_message(#[trigger] pairs@[i].0@)
            },
            (forall|i: int| 0 <= i < pairs@.len() ==> is_setting_key(#[trigger] pairs@[i].0@)) ==> {
                match hotkey_in(pairs@) {
                    Some(h) => {
                        &&& r.0.state == SaveState::ChangingHotkey
                        &&& r.1 matches SaveAction::ChangeHotkey(k) && k@ == h
                    },
                    None => {
                        &&& r.0.state == write_from(0, pairs@.len() as int)
                        &&& if pairs@.len() > 0 {
                            r.1 matches SaveAction::Write(i) && i == 0
                        } else {
                            r.1 matches SaveAction::Finish(Ok(()))
                        }
                    },
                }
            },
    {
        let mut keys: Vec<String> = Vec::new();
        let mut hotkey: Option<String> = None;
        let mut i = pairs.len();
        proof {
            assert(pairs@.skip(i as int) == Seq::<(String, String)>::empty());
        }
        while i > 0
            invariant
                i <= pairs.len(),
                match hotkey {
                    Some(h) => hotkey_in(pairs@.skip(i as int)) == Some(h@),
                    None => hotkey_in(pairs@.skip(i as int)) is None,
                },
            decreases i,
        {
            i -= 1;
            assert(pairs@.skip(i as int).drop_first() == pairs@.skip(i + 1));
            assert(pairs@.skip(i as int)[0] == pairs@[i as int]);
            proof {
                reveal_strlit("hotkey");
            }
            if pairs[i].0 == "hotkey".to_owned() {
                hotkey = Some(pairs[i].1.clone());
            }
        }
        assert(pairs@.skip(0) == pairs@);
        let mut j: usize = 0;
        while j < pairs.len()
            invariant
                j <= pairs.len(),
                keys@.len() == j,
                forall|k: int| 0 <= k < j ==> #[trigger] keys@[k]@ == pairs@[k].0@,
            decreases pairs.len() - j,
        {
            keys.push(pairs[j].0.clone());
            j += 1;
        }
        let checked = check_setting_keys(&keys);
        let has_hotkey = hotkey.is_some();
        let old_hotkey = hotkey_or_default(stored_hotkey);
        match checked {
            Err(m) => {
                proof {
                    let w = choose|w: int|
                        0 <= w < keys.len() && !is_setting_key(keys@[w]@) && (forall|j: int|
                            0 <= j < w ==> is_setting_key(#[trigger] keys@[j]@)) && m@
                            == unknown_key_message(#[trigger] keys@[w]@);
                    assert(keys@[w]@ == pairs@[w].0@);
                    assert forall|j: int| 0 <= j < w implies is_setting_key(#[trigger] pairs@[j].0@) by {
                        assert(keys@[j]@ == pairs@[j].0@);
                    }
                }
                (
                    SaveSettings { pairs, has_hotkey, old_hotkey, state: SaveState::Done, failure: String::new() },
                    SaveAction::Finish(Err(m)),
                )
            },
            Ok(()) => {
                proof {
                    assert forall|i: int| 0 <= i < pairs@.len() implies is_setting_key(
                        #[trigger] pairs@[i].0@,
                    ) by {
                        assert(keys@[i]@ == pairs@[i].0@);
                    }
                }
                match hotkey {
                    Some(h) => (
                        SaveSettings {
                            pairs,
                            has_hotkey,
                            old_hotkey,
                            state: SaveState::ChangingHotkey,
                            failure: String::new(),
                        },
                        SaveAction::ChangeHotkey(h),
                    ),
                    None => {
                        if pairs.len() > 0 {
                            (
                                SaveSettings {
                                    pairs,
                                    has_hotkey,
                                    old_hotkey,
                                    state: SaveState::Writing(0),
                                    failure: String::new(),
                                },
                                SaveAction::Write(0),
                            )
                        } else {
                            (
                                SaveSettings {
                                    pairs,
                                    has_hotkey,
                                    old_hotkey,
                                    state: SaveState::Done,
                                    failure: String::new(),
                                },
                                SaveAction::Finish(Ok(())),
                            )
                        }
                    },
                }
            },
        }
    }

    /// Takes in `event` and tells what to do next.
    pub fn step(&mut self, event: SaveEvent) -> (a: SaveAction)
        requires
            old(self).state matches SaveState::Writing(i) ==> i < old(self).pairs@.len(),
        ensures
            final(self).pairs == old(self).pairs,
            final(self).has_hotkey == old(self).has_hotkey,
            final(self).old_hotkey == old(self).old_hotkey,
            final(self).state matches SaveState::Writing(i) ==> i < final(self).pairs@.len(),
            match (old(self).state, event) {
                (SaveState::ChangingHotkey, SaveEvent::HotkeyChanged(Err(e))) => {
                    &&& final(self).state == SaveState::Done
                    &&& a matches SaveAction::Finish(Err(m)) && m@ == e@
                },
                (SaveState::ChangingHotkey, SaveEvent::HotkeyChanged(Ok(()))) => {
                    &&& final(self).state == write_from(0, old(self).pairs@.len() as int)
                    &&& if old(self).pairs@.len() > 0 {
                        a matches SaveAction::Write(i) && i == 0
                    } else {
                        a matches SaveAction::Finish(Ok(()))
                    }
                },
                (SaveState::Writing(i), SaveEvent::Written(Ok(()))) => {
                    &&& final(self).state == write_from(i + 1, old(self).pairs@.len() as int)
                    &&& if i + 1 < old(self).pairs@.len() {
                        a matches SaveAction::Write(j) && j == i + 1
                    } else {
                        a matches SaveAction::Finish(Ok(()))
                    }
                },
                (SaveState::Writing(i), SaveEvent::Written(Err(e))) => if old(self).has_hotkey {
                    &&& final(self).state == SaveState::RestoringHotkey
                    &&& final(self).failure@ == e@
                    &&& a matches SaveAction::RestoreHotkey(h) && h@ == old(self).old_hotkey@
                } else {
                    &&& final(self).state == SaveState::Done
                    &&& a matches SaveAction::Finish(Err(m)) && m@ == e@
                },
                (SaveState::RestoringHotkey, SaveEvent::HotkeyRestored) => {
                    &&& final(self).state == SaveState::Done
                    &&& a matches SaveAction::Finish(Err(m)) && m@ == old(self).failure@
                },
                _ => {
                    &&& final(self).state == old(self).state
                    &&& a is Nothing
                },
            },
    {
        match (self.state, event) {
            (SaveState::ChangingHotkey, SaveEvent::HotkeyChanged(Err(e))) => {
                self.state = SaveState::Done;
                SaveAction::Finish(Err(e))
            },
            (SaveState::ChangingHotkey, SaveEvent::HotkeyChanged(Ok(()))) => {
                if self.pairs.len() > 0 {
                    self.state = SaveState::Writing(0);
                    SaveAction::Write(0)
                } else {
                    self.state = SaveState::Done;
                    SaveAction::Finish(Ok(()))
                }
            },
            (SaveState::Writing(i), SaveEvent::Written(Ok(()))) => {
                assert(i < self.pairs.len());
                if i < self.pairs.len() - 1 {
                    self.state = SaveState::Writing(i + 1);
                    SaveAction::Write(i + 1)
                } else {
                    self.state = SaveState::Done;
                    SaveAction::Finish(Ok(()))
                }
            },
            (SaveState::Writing(_), SaveEvent::Written(Err(e))) => {
                if self.has_hotkey {
                    self.state = SaveState::RestoringHotkey;
                    self.failure = e;
                    SaveAction::RestoreHotkey(self.old_hotkey.clone())
                } else {
                    self.state = SaveState::Done;
                    SaveAction::Finish(Err(e))
                }
            },
            (SaveState::RestoringHotkey, SaveEvent::HotkeyRestored) => {
                self.state = SaveState::Done;
                SaveAction::Finish(Err(self.failure.clone()))
            },
            _ => SaveAction::Nothing,
        }
    }
}

} // verus!
