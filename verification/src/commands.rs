//! What the settings and history screens ask of the store.
use vstd::prelude::*;
use crate::history::{first_n, listing};
use crate::models::ClipboardEntry;
use crate::settings::setting_keys;
use crate::storage::StorageService;

verus! {

broadcast use vstd::string::group_string_axioms;

/// The pairs of `keys` that have a value in `storage`, in the order of `keys`.
pub open spec fn present_settings(storage: StorageService, keys: Seq<Seq<char>>) -> Seq<(Seq<char>, Seq<char>)>
    decreases keys.len(),
{
    if keys.len() == 0 {
        Seq::empty()
    } else {
        let rest = present_settings(storage, keys.drop_first());
        match storage.setting(keys[0]) {
            Some(v) => seq![(keys[0], v)] + rest,
            None => rest,
        }
    }
}

/// The settings screen shows a key exactly when it has a value, with that value: every pair
/// shown is a key of `keys` with its stored value, and every key of `keys` that has a stored
/// value is shown with it.
pub proof fn lemma_present_settings_exact(storage: StorageService, keys: Seq<Seq<char>>)
    ensures
        forall|i: int| 0 <= i < present_settings(storage, keys).len() ==> {
            let p = #[trigger] present_settings(storage, keys)[i];
            &&& keys.contains(p.0)
            &&& storage.setting(p.0) == Some(p.1)
        },
        forall|j: int| 0 <= j < keys.len() && storage.setting(#[trigger] keys[j]) is Some ==> present_settings(
            storage,
            keys,
        ).contains((keys[j], storage.setting(keys[j])->0)),
    decreases keys.len(),
{
    if keys.len() > 0 {
        let rest = keys.drop_first();
        lemma_present_settings_exact(storage, rest);
        let r = present_settings(storage, rest);
        let all = present_settings(storage, keys);
        assert forall|i: int| 0 <= i < all.len() implies {
            let p = #[trigger] all[i];
            &&& keys.contains(p.0)
            &&& storage.setting(p.0) == Some(p.1)
        } by {
            if storage.setting(keys[0]) is Some && i == 0 {
                assert(keys[0] == keys[0]);
            } else {
                let k = if storage.setting(keys[0]) is Some { i - 1 } else { i };
                assert(all[i] == r[k]);
                let w = choose|w: int| 0 <= w < rest.len() && rest[w] == r[k].0;
                assert(keys[w + 1] == rest[w]);
            }
        }
        assert forall|j: int| 0 <= j < keys.len() && storage.setting(#[trigger] keys[j]) is Some implies all.contains(
            (keys[j], storage.setting(keys[j])->0),
        ) by {
            if j == 0 {
                assert(all[0] == (keys[0], storage.setting(keys[0])->0));
            } else {
                assert(keys[j] == rest[j - 1]);
                let w = choose|w: int| 0 <= w < r.len() && r[w] == (rest[j - 1], storage.setting(rest[j - 1])->0);
                if storage.setting(keys[0]) is Some {
                    assert(all[w + 1] == r[w]);
                } else {
                    assert(all[w] == r[w]);
                }
            }
        }
    }
}

/// The history for the history screen: as listed, at most `limit` entries, 100 when no
/// limit is given (all of them when it is negative).
pub fn get_history(storage: &StorageService, limit: Option<i64>) -> (r: Vec<ClipboardEntry>)
    ensures
        r@ == first_n(
            listing(storage.history()),
            match limit {
                Some(n) => n,
                None => 100,
            },
        ),
{
    let n = match limit {
        Some(n) => n,
        None => 100,
    };
    storage.get_history(n)
}

/// The settings screen's values: each settings key that has a value, with it, in the order
/// of the keys.
pub fn get_settings(storage: &StorageService) -> (r: Vec<(String, String)>)
    ensures
        r@.map_values(|p: (String, String)| (p.0@, p.1@)) == present_settings(*storage, setting_keys()),
{
    let keys = ["history_limit", "menu_display_count", "hotkey", "hotkey_modifiers", "hotkey_vk", "hotkey_display", "language", "startup_enabled"];
    let mut out: Vec<(String, String)> = Vec::new();
    let mut i: usize = 8;
    proof {
        assert(setting_keys().skip(8) == Seq::<Seq<char>>::empty());
    }
    while i > 0
        invariant
            i <= 8,
            forall|j: int| 0 <= j < 8 ==> #[trigger] keys@[j]@ == setting_keys()[j],
            out@.map_values(|p: (String, String)| (p.0@, p.1@)) == present_settings(*storage, setting_keys().skip(i as int)),
        decreases i,
    {
        i -= 1;
        let ghost tail = setting_keys().skip(i as int);
        assert(tail.drop_first() == setting_keys().skip(i + 1));
        assert(tail[0] == setting_keys()[i as int]);
        match storage.get_setting(keys[i]) {
            Some(v) => {
                let ghost old_out = out@;
                let p = (keys[i].to_owned(), v);
                out.insert(0, p);
                assert(out@ == seq![p] + old_out);
                assert(out@.map_values(|p: (String, String)| (p.0@, p.1@)) == seq![(p.0@, p.1@)]
                    + old_out.map_values(|p: (String, String)| (p.0@, p.1@)));
            },
            None => {},
        }
    }
    assert(setting_keys().skip(0) == setting_keys());
    out
}

} // verus!
