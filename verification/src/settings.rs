//! The settings table: text values under text keys, its defaults and the known keys.
use vstd::prelude::*;
use vstd::string::*;
use crate::numbers::{parse_i64, parse_i64_text};

verus! {

broadcast use vstd::string::group_string_axioms;

/// The value stored under `key` in a list of key/value pairs (the first pair that has it).
pub open spec fn lookup(pairs: Seq<(String, String)>, key: Seq<char>) -> Option<Seq<char>>
    decreases pairs.len(),
{
    if pairs.len() == 0 {
        None
    } else if pairs[0].0@ == key {
        Some(pairs[0].1@)
    } else {
        lookup(pairs.drop_first(), key)
    }
}

/// The keys that the settings screen reads and writes, in the order it lists them.
pub open spec fn setting_keys() -> Seq<Seq<char>> {
    seq![
        "history_limit"@,
        "menu_display_count"@,
        "hotkey"@,
        "hotkey_modifiers"@,
        "hotkey_vk"@,
        "hotkey_display"@,
        "language"@,
        "startup_enabled"@,
    ]
}

/// `key` is one of the settings keys.
pub open spec fn is_setting_key(key: Seq<char>) -> bool {
    setting_keys().contains(key)
}

/// The value a fresh settings table has under `key`, if it has one.
pub open spec fn default_setting(key: Seq<char>) -> Option<Seq<char>> {
    if key == "history_limit"@ {
        Some("100"@)
    } else if key == "menu_display_count"@ {
        Some("10"@)
    } else if key == "hotkey"@ {
        Some("Ctrl+Shift+V"@)
    } else if key == "hotkey_modifiers"@ {
        Some("0x4006"@)
    } else if key == "hotkey_vk"@ {
        Some("0x56"@)
    } else if key == "hotkey_display"@ {
        Some("Ctrl+Shift+V"@)
    } else if key == "language"@ {
        Some(""@)
    } else if key == "startup_enabled"@ {
        Some("0"@)
    } else {
        None
    }
}

/// A numeric setting: the stored text read as an `i64`, or `default` when it is missing
/// or is not a number.
pub open spec fn numeric_setting(value: Option<Seq<char>>, default: i64) -> i64 {
    match value {
        Some(v) => match parse_i64_text(v) {
            Some(n) => n,
            None => default,
        },
        None => default,
    }
}

/// The message that refuses an unknown settings key.
pub open spec fn unknown_key_message(key: Seq<char>) -> Seq<char> {
    "不明な設定キー: "@ + key
}

/// Reads a numeric setting from its stored text, falling back to `default`.
pub fn numeric_or(value: &Option<String>, default: i64) -> (n: i64)
    ensures
        n == numeric_setting(
            match value {
                Some(v) => Some(v@),
                None => None,
            },
            default,
        ),
{
    match value {
        Some(v) => match parse_i64(v.as_str()) {
            Some(n) => n,
            None => default,
        },
        None => default,
    }
}

/// Tests whether `key` is one of the settings keys.
pub fn is_known_key(key: &String) -> (b: bool)
    ensures
        b == is_setting_key(key@),
{
    let keys = ["history_limit", "menu_display_count", "hotkey", "hotkey_modifiers", "hotkey_vk", "hotkey_display", "language", "startup_enabled"];
    let mut i: usize = 0;
    while i < 8
        invariant
            i <= 8,
            forall|j: int| 0 <= j < 8 ==> #[trigger] keys@[j]@ == setting_keys()[j],
            forall|j: int| 0 <= j < i ==> setting_keys()[j] != key@,
        decreases 8 - i,
    {
        let k = keys[i].to_owned();
        if k == *key {
            assert(setting_keys()[i as int] == key@);
            return true;
        }
        i += 1;
    }
    assert forall|j: int| 0 <= j < setting_keys().len() implies setting_keys()[j] != key@ by {}
    false
}

/// Checks a batch of settings keys; the first unknown key refuses the batch.
pub fn check_setting_keys(keys: &Vec<String>) -> (r: Result<(), String>)
    ensures
        r is Ok <==> forall|i: int| 0 <= i < keys.len() ==> is_setting_key(#[trigger] keys@[i]@),
        r matches Err(m) ==> exists|i: int|
            0 <= i < keys.len() && !is_setting_key(keys@[i]@) && (forall|j: int|
                0 <= j < i ==> is_setting_key(#[trigger] keys@[j]@)) && m@ == unknown_key_message(
                #[trigger] keys@[i]@,
            ),
{
    let mut i: usize = 0;
    while i < keys.len()
        invariant
            i <= keys.len(),
            forall|j: int| 0 <= j < i ==> is_setting_key(#[trigger] keys@[j]@),
        decreases keys.len() - i,
    {
        if !is_known_key(&keys[i]) {
            let mut m = "不明な設定キー: ".to_owned();
            m.append(keys[i].as_str());
            return Err(m);
        }
        i += 1;
    }
    Ok(())
}

/// The settings keys are exactly the eight keys of the settings screen: `history_limit`,
/// `menu_display_count`, `hotkey`, `hotkey_modifiers`, `hotkey_vk`, `hotkey_display`,
/// `language` and `startup_enabled`; each listed key is one, and a key is one exactly when a
/// fresh settings table has a default value for it.
pub proof fn lemma_setting_keys_exact(key: Seq<char>)
    ensures
        forall|i: int| 0 <= i < setting_keys().len() ==> is_setting_key(#[trigger] setting_keys()[i]),
        is_setting_key(key) <==> (key == "history_limit"@ || key == "menu_display_count"@ || key
            == "hotkey"@ || key == "hotkey_modifiers"@ || key == "hotkey_vk"@ || key
            == "hotkey_display"@ || key == "language"@ || key == "startup_enabled"@),
        is_setting_key(key) <==> default_setting(key) is Some,
{
    let ks = setting_keys();
    assert forall|i: int| 0 <= i < ks.len() implies is_setting_key(#[trigger] ks[i]) by {
        assert(ks.contains(ks[i]));
    }
    assert(ks[0] == "history_limit"@);
    assert(ks[1] == "menu_display_count"@);
    assert(ks[2] == "hotkey"@);
    assert(ks[3] == "hotkey_modifiers"@);
    assert(ks[4] == "hotkey_vk"@);
    assert(ks[5] == "hotkey_display"@);
    assert(ks[6] == "language"@);
    assert(ks[7] == "startup_enabled"@);
    if is_setting_key(key) {
        let i = choose|i: int| 0 <= i < ks.len() && ks[i] == key;
        assert(0 <= i < 8);
    }
}

/// Text settings under text keys.
pub struct SettingsTable {
    pairs: Vec<(String, String)>,
}

proof fn lemma_lookup_update(s: Seq<(String, String)>, i: int, p: (String, String), k: Seq<char>)
    requires
        0 <= i < s.len(),
        s[i].0@ == p.0@,
    ensures
        lookup(s.update(i, p), k) == if k == p.0@ && (forall|j: int|
            0 <= j < i ==> #[trigger] s[j].0@ != p.0@) {
            Some(p.1@)
        } else {
            lookup(s, k)
        },
    decreases i,
{
    let u = s.update(i, p);
    if i == 0 {
        assert(u.drop_first() == s.drop_first());
    } else {
        assert(u.drop_first() == s.drop_first().update(i - 1, p));
        lemma_lookup_update(s.drop_first(), i - 1, p, k);
        if forall|j: int| 0 <= j < i ==> #[trigger] s[j].0@ != p.0@ {
            assert forall|j: int| 0 <= j < i - 1 implies #[trigger] s.drop_first()[j].0@ != p.0@ by {
                assert(s.drop_first()[j] == s[j + 1]);
            }
        } else {
            let j0 = choose|j: int| 0 <= j < i && #[trigger] s[j].0@ == p.0@;
            if j0 > 0 {
                assert(s.drop_first()[j0 - 1] == s[j0]);
            }
        }
    }
}

proof fn lemma_lookup_push(s: Seq<(String, String)>, p: (String, String), k: Seq<char>)
    ensures
        lookup(s.push(p), k) == match lookup(s, k) {
            Some(v) => Some(v),
            None => if k == p.0@ {
                Some(p.1@)
            } else {
                None
            },
        },
    decreases s.len(),
{
    if s.len() > 0 {
        assert(s.push(p).drop_first() == s.drop_first().push(p));
        assert(s.push(p)[0] == s[0]);
        lemma_lookup_push(s.drop_first(), p, k);
        if s[0].0@ == k {
            assert(lookup(s, k) == Some(s[0].1@));
            assert(lookup(s.push(p), k) == Some(s[0].1@));
        } else {
            assert(lookup(s, k) == lookup(s.drop_first(), k));
            assert(lookup(s.push(p), k) == lookup(s.drop_first().push(p), k));
        }
    } else {
        assert(s.push(p).drop_first() == Seq::<(String, String)>::empty());
        assert(s.push(p)[0] == p);
        assert(lookup(s.push(p).drop_first(), k) is None);
        assert(lookup(s, k) is None);
    }
}

impl SettingsTable {
    /// The value stored under `key`.
    pub closed spec fn value_of(&self, key: Seq<char>) -> Option<Seq<char>> {
        lookup(self.pairs@, key)
    }

    /// A table with no settings.
    pub fn new() -> (t: Self)
        ensures
            forall|k: Seq<char>| #[trigger] t.value_of(k) is None,
    {
        SettingsTable { pairs: Vec::new() }
    }

    /// The position of the first pair with key `key`.
    fn position_of(&self, key: &String) -> (r: Option<usize>)
        ensures
            match r {
                Some(i) => i < self.pairs@.len() && self.pairs@[i as int].0@ == key@ && (forall|
                    j: int,
                | 0 <= j < i ==> #[trigger] self.pairs@[j].0@ != key@),
                None => forall|j: int|
                    0 <= j < self.pairs@.len() ==> #[trigger] self.pairs@[j].0@ != key@,
            },
            r matches Some(i) ==> self.value_of(key@) == Some(self.pairs@[i as int].1@),
            r is None ==> self.value_of(key@) is None,
    {
        let mut i: usize = 0;
        proof {
            assert(self.pairs@.skip(0) == self.pairs@);
        }
        while i < self.pairs.len()
            invariant
                i <= self.pairs.len(),
                forall|j: int| 0 <= j < i ==> #[trigger] self.pairs@[j].0@ != key@,
                lookup(self.pairs@, key@) == lookup(self.pairs@.skip(i as int), key@),
            decreases self.pairs.len() - i,
        {
            assert(self.pairs@.skip(i as int).drop_first() == self.pairs@.skip(i + 1));
            assert(self.pairs@.skip(i as int)[0] == self.pairs@[i as int]);
            if self.pairs[i].0 == *key {
                return Some(i);
            }
            i += 1;
        }
        None
    }

    /// The value stored under `key`.
    pub fn get(&self, key: &str) -> (r: Option<String>)
        ensures
            match r {
                Some(v) => self.value_of(key@) == Some(v@),
                None => self.value_of(key@) is None,
            },
    {
        let k = key.to_owned();
        match self.position_of(&k) {
            Some(i) => Some(self.pairs[i].1.clone()),
            None => None,
        }
    }

    /// Stores `value` under `key`, replacing any value there.
    pub fn set(&mut self, key: &str, value: &str)
        ensures
            forall|k: Seq<char>| #[trigger]
                final(self).value_of(k) == if k == key@ {
                    Some(value@)
                } else {
                    old(self).value_of(k)
                },
    {
        let k = key.to_owned();
        let v = value.to_owned();
        match self.position_of(&k) {
            Some(i) => {
                let ghost s = self.pairs@;
                let p = (k, v);
                self.pairs.remove(i);
                self.pairs.insert(i, p);
                proof {
                    assert(self.pairs@ == s.update(i as int, p));
                    assert forall|kk: Seq<char>| #[trigger]
                        lookup(self.pairs@, kk) == if kk == key@ {
                            Some(value@)
                        } else {
                            lookup(s, kk)
                        } by {
                        lemma_lookup_update(s, i as int, p, kk);
                    }
                }
            },
            None => {
                let ghost s = self.pairs@;
                let p = (k, v);
                self.pairs.push(p);
                proof {
                    assert forall|kk: Seq<char>| #[trigger]
                        lookup(self.pairs@, kk) == if kk == key@ {
                            Some(value@)
                        } else {
                            lookup(s, kk)
                        } by {
                        lemma_lookup_push(s, p, kk);
                    }
                }
            },
        }
    }

    /// Stores `value` under `key` unless `key` already has a value.
    pub fn set_if_absent(&mut self, key: &str, value: &str)
        ensures
            forall|k: Seq<char>| #[trigger]
                final(self).value_of(k) == if k == key@ && old(self).value_of(k) is None {
                    Some(value@)
                } else {
                    old(self).value_of(k)
                },
    {
        if self.get(key).is_none() {
            self.set(key, value);
        }
    }

    /// Gives each settings key that has no value its default value.
    pub fn apply_defaults(&mut self)
        ensures
            forall|k: Seq<char>| #[trigger]
                final(self).value_of(k) == match old(self).value_of(k) {
                    Some(v) => Some(v),
                    None => default_setting(k),
                },
    {
        proof {
            reveal_strlit("history_limit");
            reveal_strlit("menu_display_count");
            reveal_strlit("hotkey");
            reveal_strlit("hotkey_modifiers");
            reveal_strlit("hotkey_vk");
            reveal_strlit("hotkey_display");
            reveal_strlit("language");
            reveal_strlit("startup_enabled");
        }
        self.set_if_absent("history_limit", "100");
        self.set_if_absent("menu_display_count", "10");
        self.set_if_absent("hotkey", "Ctrl+Shift+V");
        self.set_if_absent("hotkey_modifiers", "0x4006");
        self.set_if_absent("hotkey_vk", "0x56");
        self.set_if_absent("hotkey_display", "Ctrl+Shift+V");
        self.set_if_absent("language", "");
        self.set_if_absent("startup_enabled", "0");
    }

}

} // verus!
