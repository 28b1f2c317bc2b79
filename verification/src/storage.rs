//! The store behind the clipboard manager: history, snippets, snippet folders and settings.
use vstd::prelude::*;
use crate::history::{AddOutcome, HistoryTable, StoreError, add_effect, by_time, has_id, listing_order, time_position, ids_below, ids_unique, first_n, listing,
    keep_newest, dropped_ids, flipped};
use crate::models::{ClipboardEntry, Snippet, SnippetFolder};
use crate::settings::{SettingsTable, default_setting, numeric_or, numeric_setting};

verus! {

broadcast use vstd::string::group_string_axioms;

/// Folders in non-decreasing display order.
pub open spec fn folders_sorted(s: Seq<SnippetFolder>) -> bool {
    forall|i: int, j: int| 0 <= i < j < s.len() ==> #[trigger] s[i].sort_order <= #[trigger] s[j].sort_order
}

/// Snippets in non-decreasing display order.
pub open spec fn snippets_sorted(s: Seq<Snippet>) -> bool {
    forall|i: int, j: int| 0 <= i < j < s.len() ==> #[trigger] s[i].sort_order <= #[trigger] s[j].sort_order
}

/// The snippets of `s` filed in `folder` (`None`: filed in no folder), in the order of `s`.
pub open spec fn in_folder(s: Seq<Snippet>, folder: Option<i64>) -> Seq<Snippet>
    decreases s.len(),
{
    if s.len() == 0 {
        Seq::empty()
    } else if s.last().folder_id == folder {
        in_folder(s.drop_last(), folder).push(s.last())
    } else {
        in_folder(s.drop_last(), folder)
    }
}

proof fn lemma_in_folder_sorted(s: Seq<Snippet>, folder: Option<i64>)
    requires
        snippets_sorted(s),
    ensures
        snippets_sorted(in_folder(s, folder)),
        forall|i: int| 0 <= i < in_folder(s, folder).len() ==> exists|j: int|
            0 <= j < s.len() && #[trigger] in_folder(s, folder)[i] == s[j],
    decreases s.len(),
{
    if s.len() > 0 {
        let p = s.drop_last();
        assert(snippets_sorted(p)) by {
            assert forall|i: int, j: int| 0 <= i < j < p.len() implies #[trigger] p[i].sort_order
                <= #[trigger] p[j].sort_order by {
                assert(p[i] == s[i] && p[j] == s[j]);
            }
        }
        lemma_in_folder_sorted(p, folder);
        let f = in_folder(p, folder);
        assert forall|i: int| 0 <= i < f.len() implies exists|j: int|
            0 <= j < s.len() && #[trigger] f[i] == s[j] by {
            let j = choose|j: int| 0 <= j < p.len() && f[i] == p[j];
            assert(p[j] == s[j]);
        }
        if s.last().folder_id == folder {
            let g = f.push(s.last());
            assert forall|i: int, j: int| 0 <= i < j < g.len() implies #[trigger] g[i].sort_order
                <= #[trigger] g[j].sort_order by {
                if j == f.len() {
                    let k = choose|k: int| 0 <= k < p.len() && f[i] == p[k];
                    assert(g[i] == s[k]);
                    assert(s[k].sort_order <= s[s.len() - 1].sort_order);
                } else {
                    assert(g[i] == f[i] && g[j] == f[j]);
                }
            }
            assert forall|i: int| 0 <= i < g.len() implies exists|j: int|
                0 <= j < s.len() && #[trigger] g[i] == s[j] by {
                if i == f.len() {
                    assert(g[i] == s[s.len() - 1]);
                } else {
                    assert(g[i] == f[i]);
                }
            }
        }
    }
}

/// The snippets listed for a folder are exactly the snippets filed in it, in their order:
/// `s` filtered by `folder_id == folder`. This holds for `None` (filed in no folder) as for
/// any folder: every listed snippet is filed in `folder`, and every snippet of `s` filed in
/// `folder` is listed.
pub proof fn lemma_in_folder_exact(s: Seq<Snippet>, folder: Option<i64>)
    ensures
        in_folder(s, folder) == s.filter(|e: Snippet| e.folder_id == folder),
        forall|i: int| 0 <= i < in_folder(s, folder).len() ==> (#[trigger] in_folder(s, folder)[i]).folder_id
            == folder,
        forall|j: int| 0 <= j < s.len() && s[j].folder_id == folder ==> in_folder(s, folder).contains(
            #[trigger] s[j],
        ),
    decreases s.len(),
{
    reveal(Seq::filter);
    let pred = |e: Snippet| e.folder_id == folder;
    if s.len() > 0 {
        lemma_in_folder_exact(s.drop_last(), folder);
    }
    assert(in_folder(s, folder) == s.filter(pred));
    broadcast use vstd::seq_lib::group_filter_ensures;
    assert forall|i: int| 0 <= i < in_folder(s, folder).len() implies (#[trigger] in_folder(s, folder)[i]).folder_id
        == folder by {
        assert(pred(s.filter(pred)[i]));
    }
    assert forall|j: int| 0 <= j < s.len() && s[j].folder_id == folder implies in_folder(s, folder).contains(
        #[trigger] s[j],
    ) by {
        assert(pred(s[j]));
        assert(s.filter(pred).contains(s[j]));
    }
}

/// Where a value with display order `order` goes in a non-decreasing list of orders:
/// after every item whose order is not above it.
fn sorted_position(orders: &Vec<i64>, order: i64) -> (p: usize)
    requires
        forall|i: int, j: int| 0 <= i < j < orders.len() ==> #[trigger] orders@[i] <= #[trigger] orders@[j],
    ensures
        p <= orders.len(),
        forall|j: int| 0 <= j < p ==> #[trigger] orders@[j] <= order,
        forall|j: int| p <= j < orders.len() ==> #[trigger] orders@[j] > order,
{
    let mut p = orders.len();
    while p > 0 && orders[p - 1] > order
        invariant
            p <= orders.len(),
            forall|j: int| p <= j < orders.len() ==> #[trigger] orders@[j] > order,
        decreases p,
    {
        p -= 1;
    }
    if p > 0 {
        assert forall|j: int| 0 <= j < p implies #[trigger] orders@[j] <= order by {
            if j < p - 1 {
                assert(orders@[j] <= orders@[p - 1]);
            }
        }
    }
    p
}

/// Display orders in non-decreasing order.
pub open spec fn orders_sorted(s: Seq<i64>) -> bool {
    forall|i: int, j: int| 0 <= i < j < s.len() ==> #[trigger] s[i] <= #[trigger] s[j]
}

/// Putting an order after every order not above it, and before every order above it, keeps
/// a sorted list sorted.
proof fn lemma_sorted_insert(s: Seq<i64>, p: int, o: i64)
    requires
        orders_sorted(s),
        0 <= p <= s.len(),
        forall|j: int| 0 <= j < p ==> #[trigger] s[j] <= o,
        forall|j: int| p <= j < s.len() ==> #[trigger] s[j] > o,
    ensures
        orders_sorted(s.insert(p, o)),
{
    let t = s.insert(p, o);
    assert forall|a: int, b: int| 0 <= a < b < t.len() implies #[trigger] t[a] <= #[trigger] t[b] by {
        if a < p {
            assert(t[a] == s[a]);
        }
        if b > p {
            assert(t[b] == s[b - 1]);
        }
        if a > p {
            assert(t[a] == s[a - 1]);
        }
    }
}

/// The clipboard manager's store.
pub struct StorageService {
    history: HistoryTable,
    settings: SettingsTable,
    folders: Vec<SnippetFolder>,
    snippets: Vec<Snippet>,
}

impl StorageService {
    /// The history, oldest entry first.
    pub closed spec fn history(&self) -> Seq<ClipboardEntry> {
        self.history@
    }

    /// The id that the next recorded history entry gets.
    pub closed spec fn next_id(&self) -> int {
        self.history.next_id()
    }

    /// The stored value of a setting.
    pub closed spec fn setting(&self, key: Seq<char>) -> Option<Seq<char>> {
        self.settings.value_of(key)
    }

    /// The snippet folders, in display order.
    pub closed spec fn folders(&self) -> Seq<SnippetFolder> {
        self.folders@
    }

    /// The snippets, in display order.
    pub closed spec fn snippets(&self) -> Seq<Snippet> {
        self.snippets@
    }

    /// No two history entries share an id, the next id is positive and above every stored
    /// id, history entries are in time order, and folders and snippets in display order.
    pub open spec fn wf(&self) -> bool {
        &&& 1 <= self.next_id()
        &&& ids_unique(self.history())
        &&& ids_below(self.history(), self.next_id())
        &&& by_time(self.history())
        &&& folders_sorted(self.folders())
        &&& snippets_sorted(self.snippets())
    }

    /// How many unpinned entries the history keeps: the `history_limit` setting, 100 when
    /// it is missing or not a number.
    pub open spec fn history_limit(&self) -> i64 {
        numeric_setting(self.setting("history_limit"@), 100)
    }

    /// How many unpinned entries the menu shows directly: the `menu_display_count`
    /// setting, 10 when it is missing or not a number.
    pub open spec fn menu_display_count(&self) -> i64 {
        numeric_setting(self.setting("menu_display_count"@), 10)
    }

    /// An empty store whose settings hold their default values.
    pub fn new() -> (s: Self)
        ensures
            s.wf(),
            s.history() == Seq::<ClipboardEntry>::empty(),
            s.next_id() == 1,
            forall|k: Seq<char>| #[trigger] s.setting(k) == default_setting(k),
            s.folders() == Seq::<SnippetFolder>::empty(),
            s.snippets() == Seq::<Snippet>::empty(),
    {
        let mut settings = SettingsTable::new();
        settings.apply_defaults();
        StorageService {
            history: HistoryTable::new(),
            settings,
            folders: Vec::new(),
            snippets: Vec::new(),
        }
    }

    /// Reads the `history_limit` setting.
    pub fn get_history_limit(&self) -> (n: i64)
        ensures
            n == self.history_limit(),
    {
        let v = self.settings.get("history_limit");
        numeric_or(&v, 100)
    }

    /// Reads the `menu_display_count` setting.
    pub fn get_menu_display_count(&self) -> (n: i64)
        ensures
            n == self.menu_display_count(),
    {
        let v = self.settings.get("menu_display_count");
        numeric_or(&v, 10)
    }

    /// Records a copied text (see `HistoryTable::add`) under the store's history limit.
    pub fn add_history(&mut self, content: &str, created_at: String) -> (r: Result<
        AddOutcome,
        StoreError,
    >)
        requires
            old(self).wf(),
        ensures
            final(self).wf(),
            add_effect(
                old(self).history(),
                old(self).next_id(),
                final(self).history(),
                final(self).next_id(),
                content@,
                created_at,
                old(self).history_limit(),
                r,
            ),
            r matches Ok(AddOutcome::Inserted { entry, .. }) ==> forall|i: int|
                0 <= i < old(self).history().len() ==> #[trigger] old(self).history()[i].id < entry.id,
            forall|k: Seq<char>| #[trigger] final(self).setting(k) == old(self).setting(k),
            final(self).folders() == old(self).folders(),
            final(self).snippets() == old(self).snippets(),
    {
        let limit = self.get_history_limit();
        self.history.add(content, created_at, limit)
    }

    /// The history as listed (pinned first, then the others, each newest first), at most
    /// `limit` entries; all of them when `limit` is negative.
    pub fn get_history(&self, limit: i64) -> (r: Vec<ClipboardEntry>)
        ensures
            r@ == first_n(listing(self.history()), limit),
            self.wf() ==> ids_unique(r@) && listing_order(r@),
    {
        self.history.list(limit)
    }

    /// The history entry with id `id`.
    pub fn get_history_by_id(&self, id: i64) -> (r: Option<ClipboardEntry>)
        requires
            self.wf(),
        ensures
            r is Some <==> has_id(self.history(), id),
            forall|i: int|
                0 <= i < self.history().len() && #[trigger] self.history()[i].id == id ==> r == Some(
                    self.history()[i],
                ),
    {
        self.history.get(id)
    }

    /// Deletes the history entry with id `id`, if there is one.
    pub fn delete_history(&mut self, id: i64) -> (found: bool)
        requires
            old(self).wf(),
        ensures
            final(self).wf(),
            found == has_id(old(self).history(), id),
            forall|i: int|
                0 <= i < old(self).history().len() && #[trigger] old(self).history()[i].id == id
                    ==> final(self).history() == old(self).history().remove(i),
            !found ==> final(self).history() == old(self).history(),
            !has_id(final(self).history(), id),
            final(self).next_id() == old(self).next_id(),
            forall|k: Seq<char>| #[trigger] final(self).setting(k) == old(self).setting(k),
            final(self).folders() == old(self).folders(),
            final(self).snippets() == old(self).snippets(),
    {
        self.history.delete(id)
    }

    /// Deletes every unpinned history entry; returns their ids, newest first.
    pub fn clear_history(&mut self) -> (removed: Vec<i64>)
        requires
            old(self).wf(),
        ensures
            final(self).wf(),
            final(self).history() == keep_newest(old(self).history(), 0),
            removed@ == dropped_ids(old(self).history(), 0),
            final(self).next_id() == old(self).next_id(),
            forall|k: Seq<char>| #[trigger] final(self).setting(k) == old(self).setting(k),
            final(self).folders() == old(self).folders(),
            final(self).snippets() == old(self).snippets(),
    {
        self.history.clear()
    }

    /// Flips the pin flag of the history entry with id `id`, if there is one.
    pub fn toggle_pin(&mut self, id: i64) -> (found: bool)
        requires
            old(self).wf(),
        ensures
            final(self).wf(),
            found == has_id(old(self).history(), id),
            forall|i: int|
                0 <= i < old(self).history().len() && #[trigger] old(self).history()[i].id == id
                    ==> final(self).history() == old(self).history().update(
                    i,
                    flipped(old(self).history()[i]),
                ),
            !found ==> final(self).history() == old(self).history(),
            final(self).next_id() == old(self).next_id(),
            forall|k: Seq<char>| #[trigger] final(self).setting(k) == old(self).setting(k),
            final(self).folders() == old(self).folders(),
            final(self).snippets() == old(self).snippets(),
    {
        self.history.toggle_pin(id)
    }

    /// Puts back a history entry read from storage (see `HistoryTable::restore`).
    pub fn restore_history(&mut self, entry: ClipboardEntry) -> (accepted: bool)
        requires
            old(self).wf(),
        ensures
            final(self).wf(),
            accepted == (!has_id(old(self).history(), entry.id) && entry.id < i64::MAX),
            accepted ==> final(self).history() == old(self).history().insert(
                time_position(old(self).history(), entry.created_at@),
                entry,
            )
                && final(self).next_id() == if entry.id >= old(self).next_id() {
                entry.id + 1
            } else {
                old(self).next_id()
            },
            !accepted ==> final(self).history() == old(self).history() && final(self).next_id()
                == old(self).next_id(),
            forall|k: Seq<char>| #[trigger] final(self).setting(k) == old(self).setting(k),
            final(self).folders() == old(self).folders(),
            final(self).snippets() == old(self).snippets(),
    {
        self.history.restore(entry)
    }

    /// Takes in the largest history id ever handed out, as storage remembers it (see
    /// `HistoryTable::restore_last_id`).
    pub fn restore_last_id(&mut self, last_id: i64)
        requires
            old(self).wf(),
        ensures
            final(self).wf(),
            final(self).history() == old(self).history(),
            final(self).next_id() == if last_id == i64::MAX {
                i64::MAX as int
            } else if last_id + 1 > old(self).next_id() {
                last_id + 1
            } else {
                old(self).next_id()
            },
            forall|k: Seq<char>| #[trigger] final(self).setting(k) == old(self).setting(k),
            final(self).folders() == old(self).folders(),
            final(self).snippets() == old(self).snippets(),
    {
        self.history.restore_last_id(last_id)
    }

    /// The snippet folders in display order.
    pub fn get_snippet_folders(&self) -> (r: Vec<SnippetFolder>)
        requires
            self.wf(),
        ensures
            r@ == self.folders(),
            folders_sorted(r@),
    {
        let mut out: Vec<SnippetFolder> = Vec::new();
        let mut i: usize = 0;
        while i < self.folders.len()
            invariant
                i <= self.folders.len(),
                out@ == self.folders@.take(i as int),
            decreases self.folders.len() - i,
        {
            out.push(self.folders[i].clone());
            assert(self.folders@.take(i + 1) == self.folders@.take(i as int).push(
                self.folders@[i as int],
            ));
            i += 1;
        }
        assert(self.folders@.take(self.folders.len() as int) == self.folders@);
        out
    }

    /// The snippets filed in `folder_id` (`None`: in no folder), in display order.
    pub fn get_snippets_by_folder(&self, folder_id: Option<i64>) -> (r: Vec<Snippet>)
        requires
            self.wf(),
        ensures
            r@ == in_folder(self.snippets(), folder_id),
            snippets_sorted(r@),
    {
        let mut out: Vec<Snippet> = Vec::new();
        let mut i: usize = 0;
        while i < self.snippets.len()
            invariant
                i <= self.snippets.len(),
                out@ == in_folder(self.snippets@.take(i as int), folder_id),
            decreases self.snippets.len() - i,
        {
            assert(self.snippets@.take(i + 1).drop_last() == self.snippets@.take(i as int));
            assert(self.snippets@.take(i + 1).last() == self.snippets@[i as int]);
            if self.snippets[i].folder_id == folder_id {
                out.push(self.snippets[i].clone());
            }
            i += 1;
        }
        assert(self.snippets@.take(self.snippets.len() as int) == self.snippets@);
        proof {
            lemma_in_folder_sorted(self.snippets@, folder_id);
        }
        out
    }

    /// Files a snippet folder read from storage after the folders that come before it in
    /// display order.
    pub fn restore_folder(&mut self, folder: SnippetFolder)
        requires
            old(self).wf(),
        ensures
            final(self).wf(),
            exists|p: int|
                0 <= p <= old(self).folders().len() && final(self).folders() == old(
                    self,
                ).folders().insert(p, folder),
            final(self).history() == old(self).history(),
            final(self).next_id() == old(self).next_id(),
            forall|k: Seq<char>| #[trigger] final(self).setting(k) == old(self).setting(k),
            final(self).snippets() == old(self).snippets(),
    {
        let mut orders: Vec<i64> = Vec::new();
        let mut i: usize = 0;
        while i < self.folders.len()
            invariant
                i <= self.folders.len(),
                orders@.len() == i,
                forall|j: int| 0 <= j < i ==> #[trigger] orders@[j] == self.folders@[j].sort_order,
            decreases self.folders.len() - i,
        {
            orders.push(self.folders[i].sort_order);
            i += 1;
        }
        assert forall|a: int, b: int| 0 <= a < b < orders.len() implies #[trigger] orders@[a]
            <= #[trigger] orders@[b] by {
            assert(self.folders@[a].sort_order <= self.folders@[b].sort_order);
        }
        let p = sorted_position(&orders, folder.sort_order);
        let ghost old_folders = self.folders@;
        let order = folder.sort_order;
        let ghost item = folder;
        self.folders.insert(p, folder);
        proof {
            lemma_sorted_insert(orders@, p as int, order);
            let s = self.folders@;
            let t = orders@.insert(p as int, order);
            assert(s == old_folders.insert(p as int, item));
            assert(old_folders == old(self).folders());
            assert(self.folders() == old(self).folders().insert(p as int, item));
            assert forall|a: int, b: int| 0 <= a < b < s.len() implies #[trigger] s[a].sort_order
                <= #[trigger] s[b].sort_order by {
                assert(s[a].sort_order == t[a] && s[b].sort_order == t[b]);
            }
        }
    }

    /// Files a snippet read from storage after the snippets that come before it in display
    /// order.
    pub fn restore_snippet(&mut self, snippet: Snippet)
        requires
            old(self).wf(),
        ensures
            final(self).wf(),
            exists|p: int|
                0 <= p <= old(self).snippets().len() && final(self).snippets() == old(
                    self,
                ).snippets().insert(p, snippet),
            final(self).history() == old(self).history(),
            final(self).next_id() == old(self).next_id(),
            forall|k: Seq<char>| #[trigger] final(self).setting(k) == old(self).setting(k),
            final(self).folders() == old(self).folders(),
    {
        let mut orders: Vec<i64> = Vec::new();
        let mut i: usize = 0;
        while i < self.snippets.len()
            invariant
                i <= self.snippets.len(),
                orders@.len() == i,
                forall|j: int| 0 <= j < i ==> #[trigger] orders@[j] == self.snippets@[j].sort_order,
            decreases self.snippets.len() - i,
        {
            orders.push(self.snippets[i].sort_order);
            i += 1;
        }
        assert forall|a: int, b: int| 0 <= a < b < orders.len() implies #[trigger] orders@[a]
            <= #[trigger] orders@[b] by {
            assert(self.snippets@[a].sort_order <= self.snippets@[b].sort_order);
        }
        let p = sorted_position(&orders, snippet.sort_order);
        let ghost old_snippets = self.snippets@;
        let order = snippet.sort_order;
        let ghost item = snippet;
        self.snippets.insert(p, snippet);
        proof {
            lemma_sorted_insert(orders@, p as int, order);
            let s = self.snippets@;
            let t = orders@.insert(p as int, order);
            assert(s == old_snippets.insert(p as int, item));
            assert(old_snippets == old(self).snippets());
            assert(self.snippets() == old(self).snippets().insert(p as int, item));
            assert forall|a: int, b: int| 0 <= a < b < s.len() implies #[trigger] s[a].sort_order
                <= #[trigger] s[b].sort_order by {
                assert(s[a].sort_order == t[a] && s[b].sort_order == t[b]);
            }
        }
    }

    /// The stored value of setting `key`.
    pub fn get_setting(&self, key: &str) -> (r: Option<String>)
        ensures
            match r {
                Some(v) => self.setting(key@) == Some(v@),
                None => self.setting(key@) is None,
            },
    {
        self.settings.get(key)
    }

    /// Stores `value` under setting `key`, replacing any value there.
    pub fn set_setting(&mut self, key: &str, value: &str)
        requires
            old(self).wf(),
        ensures
            final(self).wf(),
            forall|k: Seq<char>| #[trigger]
                final(self).setting(k) == if k == key@ {
                    Some(value@)
                } else {
                    old(self).setting(k)
                },
            final(self).history() == old(self).history(),
            final(self).next_id() == old(self).next_id(),
            final(self).folders() == old(self).folders(),
            final(self).snippets() == old(self).snippets(),
    {
        self.settings.set(key, value)
    }

}

} // verus!
