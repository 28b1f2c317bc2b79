//! The clipboard history table: recording, listing, pinning and deleting entries.
//!
//! Entries are kept in order of their creation time stamps (entries with equal stamps in
//! recording order); "newest" means "last in the table".
use vstd::prelude::*;
use crate::models::ClipboardEntry;
use crate::text::{chars_of, trim, trim_bounds};

verus! {

/// `text` holds nothing but whitespace.
pub open spec fn is_blank(text: Seq<char>) -> bool {
    trim(text).len() == 0
}

/// No two entries of `s` share an id.
pub open spec fn ids_unique(s: Seq<ClipboardEntry>) -> bool {
    forall|i: int, j: int|
        0 <= i < s.len() && 0 <= j < s.len() && i != j ==> #[trigger] s[i].id != #[trigger] s[j].id
}

/// Every id of `s` is below `bound`.
pub open spec fn ids_below(s: Seq<ClipboardEntry>, bound: int) -> bool {
    forall|i: int| 0 <= i < s.len() ==> #[trigger] s[i].id < bound
}

/// Some entry of `s` has the id `id`.
pub open spec fn has_id(s: Seq<ClipboardEntry>, id: i64) -> bool {
    exists|i: int| 0 <= i < s.len() && #[trigger] s[i].id == id
}

/// The most recently recorded entry of `s` that is not pinned.
pub open spec fn newest_unpinned(s: Seq<ClipboardEntry>) -> Option<ClipboardEntry>
    decreases s.len(),
{
    if s.len() == 0 {
        None
    } else if !s.last().is_pinned {
        Some(s.last())
    } else {
        newest_unpinned(s.drop_last())
    }
}

/// `s` with every pinned entry and only the `quota` newest unpinned entries left.
pub open spec fn keep_newest(s: Seq<ClipboardEntry>, quota: int) -> Seq<ClipboardEntry>
    decreases s.len(),
{
    if s.len() == 0 {
        s
    } else {
        let e = s.last();
        if e.is_pinned {
            keep_newest(s.drop_last(), quota).push(e)
        } else if quota > 0 {
            keep_newest(s.drop_last(), quota - 1).push(e)
        } else {
            keep_newest(s.drop_last(), quota)
        }
    }
}

/// The ids of the entries that `keep_newest(s, quota)` leaves out, newest first.
pub open spec fn dropped_ids(s: Seq<ClipboardEntry>, quota: int) -> Seq<i64>
    decreases s.len(),
{
    if s.len() == 0 {
        Seq::empty()
    } else {
        let e = s.last();
        if e.is_pinned {
            dropped_ids(s.drop_last(), quota)
        } else if quota > 0 {
            dropped_ids(s.drop_last(), quota - 1)
        } else {
            seq![e.id] + dropped_ids(s.drop_last(), quota)
        }
    }
}

/// The table after the history limit is applied: a negative limit keeps everything.
pub open spec fn prune(s: Seq<ClipboardEntry>, limit: i64) -> Seq<ClipboardEntry> {
    if limit < 0 {
        s
    } else {
        keep_newest(s, limit as int)
    }
}

/// The ids that applying the history limit removes, newest first.
pub open spec fn pruned_ids(s: Seq<ClipboardEntry>, limit: i64) -> Seq<i64> {
    if limit < 0 {
        Seq::empty()
    } else {
        dropped_ids(s, limit as int)
    }
}

/// The entries of `s` whose pin flag is `pinned`, newest first.
pub open spec fn newest_first(s: Seq<ClipboardEntry>, pinned: bool) -> Seq<ClipboardEntry>
    decreases s.len(),
{
    if s.len() == 0 {
        Seq::empty()
    } else if s.last().is_pinned == pinned {
        seq![s.last()] + newest_first(s.drop_last(), pinned)
    } else {
        newest_first(s.drop_last(), pinned)
    }
}

/// The entries of `s` whose pin flag is `pinned`, in the order of `s`.
pub open spec fn with_pin(s: Seq<ClipboardEntry>, pinned: bool) -> Seq<ClipboardEntry>
    decreases s.len(),
{
    if s.len() == 0 {
        Seq::empty()
    } else if s.last().is_pinned == pinned {
        with_pin(s.drop_last(), pinned).push(s.last())
    } else {
        with_pin(s.drop_last(), pinned)
    }
}

/// The history as it is listed: pinned entries first, then the others, each newest first.
pub open spec fn listing(s: Seq<ClipboardEntry>) -> Seq<ClipboardEntry> {
    newest_first(s, true) + newest_first(s, false)
}

/// `r` lists pinned entries before unpinned ones, and within each group the later stamped
/// before the earlier stamped.
pub open spec fn listing_order(r: Seq<ClipboardEntry>) -> bool {
    forall|i: int, j: int|
        0 <= i < j < r.len() ==> (#[trigger] r[j].is_pinned ==> #[trigger] r[i].is_pinned) && (
        r[i].is_pinned == r[j].is_pinned ==> text_le(r[j].created_at@, r[i].created_at@))
}

/// At most `limit` leading items of `s`; a negative limit keeps all of them.
pub open spec fn first_n<A>(s: Seq<A>, limit: i64) -> Seq<A> {
    if limit < 0 || limit >= s.len() {
        s
    } else {
        s.take(limit as int)
    }
}

/// Text `a` sorts no later than text `b`: compared character by character, by code point,
/// a text before every longer text it begins. For the UTF-8 stored time stamps this is the
/// byte order in which storage sorts them.
pub open spec fn text_le(a: Seq<char>, b: Seq<char>) -> bool
    decreases a.len(),
{
    if a.len() == 0 {
        true
    } else if b.len() == 0 {
        false
    } else if (a[0] as u32) != (b[0] as u32) {
        (a[0] as u32) < (b[0] as u32)
    } else {
        text_le(a.drop_first(), b.drop_first())
    }
}

/// The entries of `s` are in order of their creation time stamps.
pub open spec fn by_time(s: Seq<ClipboardEntry>) -> bool {
    forall|i: int, j: int|
        0 <= i < j < s.len() ==> text_le(#[trigger] s[i].created_at@, #[trigger] s[j].created_at@)
}

/// Where an entry stamped `stamp` goes among the entries `s` kept in time order: after the
/// last entry stamped no later than it.
pub open spec fn time_position(s: Seq<ClipboardEntry>, stamp: Seq<char>) -> int
    decreases s.len(),
{
    if s.len() == 0 {
        0
    } else if text_le(s.last().created_at@, stamp) {
        s.len() as int
    } else {
        time_position(s.drop_last(), stamp)
    }
}

/// Any two texts are ordered one way or the other.
pub proof fn lemma_text_le_total(a: Seq<char>, b: Seq<char>)
    ensures
        text_le(a, b) || text_le(b, a),
    decreases a.len(),
{
    if a.len() > 0 && b.len() > 0 && (a[0] as u32) == (b[0] as u32) {
        lemma_text_le_total(a.drop_first(), b.drop_first());
    }
}

/// Texts are ordered character by character, as `str`'s `<=` orders them: a text comes no
/// later than any text that begins with it, and where two texts first differ, the one with
/// the smaller character there comes first (and not the other way round).
pub proof fn lemma_text_le_order(a: Seq<char>, b: Seq<char>, x: char, y: char, p: Seq<char>, q: Seq<char>)
    ensures
        text_le(a, a + b),
        (x as u32) < (y as u32) ==> text_le(a.push(x) + p, a.push(y) + q),
        (x as u32) < (y as u32) ==> !text_le(a.push(y) + q, a.push(x) + p),
    decreases a.len(),
{
    let u = a.push(x) + p;
    let v = a.push(y) + q;
    if a.len() == 0 {
        assert(u[0] == x);
        assert(v[0] == y);
    } else {
        let r = a.drop_first();
        lemma_text_le_order(r, b, x, y, p, q);
        assert((a + b).drop_first() == r + b);
        assert((a + b)[0] == a[0]);
        assert(u.drop_first() == r.push(x) + p);
        assert(v.drop_first() == r.push(y) + q);
        assert(u[0] == a[0]);
        assert(v[0] == a[0]);
    }
}

/// The order of texts is transitive.
pub proof fn lemma_text_le_trans(a: Seq<char>, b: Seq<char>, c: Seq<char>)
    requires
        text_le(a, b),
        text_le(b, c),
    ensures
        text_le(a, c),
    decreases a.len(),
{
    if a.len() > 0 && b.len() > 0 && c.len() > 0 && (a[0] as u32) == (b[0] as u32) && (b[0] as u32)
        == (c[0] as u32) {
        lemma_text_le_trans(a.drop_first(), b.drop_first(), c.drop_first());
    }
}

proof fn lemma_time_position(s: Seq<ClipboardEntry>, stamp: Seq<char>)
    requires
        by_time(s),
    ensures
        0 <= time_position(s, stamp) <= s.len(),
        forall|j: int|
            0 <= j < time_position(s, stamp) ==> text_le(#[trigger] s[j].created_at@, stamp),
        forall|j: int|
            time_position(s, stamp) <= j < s.len() ==> text_le(stamp, #[trigger] s[j].created_at@)
                && !text_le(s[j].created_at@, stamp),
    decreases s.len(),
{
    if s.len() > 0 {
        let p = s.drop_last();
        assert(by_time(p)) by {
            assert forall|i: int, j: int| 0 <= i < j < p.len() implies text_le(
                #[trigger] p[i].created_at@,
                #[trigger] p[j].created_at@,
            ) by {
                assert(p[i] == s[i] && p[j] == s[j]);
            }
        }
        lemma_time_position(p, stamp);
        let last = s[s.len() - 1];
        if text_le(last.created_at@, stamp) {
            assert forall|j: int| 0 <= j < s.len() implies text_le(#[trigger] s[j].created_at@, stamp) by {
                if j < s.len() - 1 {
                    lemma_text_le_trans(s[j].created_at@, last.created_at@, stamp);
                }
            }
        } else {
            lemma_text_le_total(last.created_at@, stamp);
            assert forall|j: int| time_position(s, stamp) <= j < s.len() implies text_le(
                stamp,
                #[trigger] s[j].created_at@,
            ) && !text_le(s[j].created_at@, stamp) by {
                if j < s.len() - 1 {
                    assert(p[j] == s[j]);
                }
            }
            assert forall|j: int| 0 <= j < time_position(s, stamp) implies text_le(
                #[trigger] s[j].created_at@,
                stamp,
            ) by {
                assert(p[j] == s[j]);
            }
        }
    }
}

/// Inserting an entry at its time position keeps the entries in time order.
proof fn lemma_insert_by_time(s: Seq<ClipboardEntry>, e: ClipboardEntry)
    requires
        by_time(s),
    ensures
        by_time(s.insert(time_position(s, e.created_at@), e)),
{
    lemma_time_position(s, e.created_at@);
    let p = time_position(s, e.created_at@);
    let t = s.insert(p, e);
    assert forall|i: int, j: int| 0 <= i < j < t.len() implies text_le(
        #[trigger] t[i].created_at@,
        #[trigger] t[j].created_at@,
    ) by {
        if i < p && j < p {
            assert(t[i] == s[i] && t[j] == s[j]);
        } else if i < p && j == p {
            assert(t[i] == s[i]);
        } else if i < p {
            assert(t[i] == s[i] && t[j] == s[j - 1]);
        } else if i == p {
            assert(t[j] == s[j - 1]);
        } else {
            assert(t[i] == s[i - 1] && t[j] == s[j - 1]);
        }
    }
}

/// The newest unpinned entry of `s` holds the text `text`.
pub open spec fn is_duplicate(s: Seq<ClipboardEntry>, text: Seq<char>) -> bool {
    match newest_unpinned(s) {
        Some(e) => e.content@ == text,
        None => false,
    }
}

/// What recording `content` (stamped `created_at`, under the history limit `limit`) does:
/// `r` tells which case applied, `s`/`next` are the table before and `t`/`t_next` after.
pub open spec fn add_effect(
    s: Seq<ClipboardEntry>,
    next: int,
    t: Seq<ClipboardEntry>,
    t_next: int,
    content: Seq<char>,
    created_at: String,
    limit: i64,
    r: Result<AddOutcome, StoreError>,
) -> bool {
    match r {
        Ok(AddOutcome::Blank) => {
            &&& is_blank(content)
            &&& t == s
            &&& t_next == next
        },
        Ok(AddOutcome::Duplicate) => {
            &&& !is_blank(content)
            &&& is_duplicate(s, content)
            &&& t == s
            &&& t_next == next
        },
        Ok(AddOutcome::Inserted { entry, removed_ids }) => {
            &&& !is_blank(content)
            &&& !is_duplicate(s, content)
            &&& next < i64::MAX
            &&& entry.id == next
            &&& entry.content@ == content
            &&& entry.created_at == created_at
            &&& !entry.is_pinned
            &&& t == prune(s.insert(time_position(s, created_at@), entry), limit)
            &&& removed_ids@ == pruned_ids(s.insert(time_position(s, created_at@), entry), limit)
            &&& t_next == next + 1
        },
        Err(StoreError::IdsExhausted) => {
            &&& !is_blank(content)
            &&& !is_duplicate(s, content)
            &&& next == i64::MAX
            &&& t == s
            &&& t_next == next
        },
    }
}

/// `e` with its pin flag flipped.
pub open spec fn flipped(e: ClipboardEntry) -> ClipboardEntry {
    ClipboardEntry { is_pinned: !e.is_pinned, ..e }
}

/// What recording a text did to the table.
#[derive(Debug)]
pub enum AddOutcome {
    /// The text was empty or whitespace only; nothing was recorded.
    Blank,
    /// The text equals the newest unpinned entry; nothing was recorded.
    Duplicate,
    /// `entry` was recorded and the entries with `removed_ids` were dropped by the limit.
    Inserted { entry: ClipboardEntry, removed_ids: Vec<i64> },
}

/// A failure of the history store.
#[derive(Debug)]
pub enum StoreError {
    /// Every id has been used; no entry can be recorded any more.
    IdsExhausted,
}

/// The clipboard history: entries in recording order and the id the next entry gets.
pub struct HistoryTable {
    entries: Vec<ClipboardEntry>,
    next_id: i64,
}

impl View for HistoryTable {
    type V = Seq<ClipboardEntry>;

    closed spec fn view(&self) -> Seq<ClipboardEntry> {
        self.entries@
    }
}

proof fn lemma_keep_newest_ids(s: Seq<ClipboardEntry>, quota: int, bound: int)
    requires
        ids_unique(s),
        ids_below(s, bound),
    ensures
        ids_unique(keep_newest(s, quota)),
        ids_below(keep_newest(s, quota), bound),
        forall|i: int|
            0 <= i < keep_newest(s, quota).len() ==> has_id(s, #[trigger] keep_newest(s, quota)[i].id),
    decreases s.len(),
{
    if s.len() > 0 {
        let p = s.drop_last();
        let e = s.last();
        let q2 = if e.is_pinned || quota <= 0 { quota } else { quota - 1 };
        assert(ids_unique(p)) by {
            assert forall|i: int, j: int|
                0 <= i < p.len() && 0 <= j < p.len() && i != j implies #[trigger] p[i].id
                != #[trigger] p[j].id by {
                assert(p[i] == s[i] && p[j] == s[j]);
            }
        }
        assert(ids_below(p, bound)) by {
            assert forall|i: int| 0 <= i < p.len() implies #[trigger] p[i].id < bound by {
                assert(p[i] == s[i]);
            }
        }
        lemma_keep_newest_ids(p, q2, bound);
        let k = keep_newest(p, q2);
        assert forall|i: int| 0 <= i < k.len() implies #[trigger] k[i].id != e.id && has_id(
            s,
            k[i].id,
        ) by {
            assert(has_id(p, k[i].id));
            let j = choose|j: int| 0 <= j < p.len() && #[trigger] p[j].id == k[i].id;
            assert(p[j] == s[j]);
            assert(s[j].id != s[s.len() - 1].id);
        }
        if e.is_pinned || quota > 0 {
            let k2 = k.push(e);
            assert(keep_newest(s, quota) == k2);
            assert forall|i: int| 0 <= i < k2.len() implies has_id(s, #[trigger] k2[i].id) by {
                if i == k.len() {
                    assert(s[s.len() - 1].id == k2[i].id);
                } else {
                    assert(k2[i] == k[i]);
                }
            }
            assert forall|i: int, j: int|
                0 <= i < k2.len() && 0 <= j < k2.len() && i != j implies #[trigger] k2[i].id
                != #[trigger] k2[j].id by {
                if i < k.len() {
                    assert(k2[i] == k[i]);
                }
                if j < k.len() {
                    assert(k2[j] == k[j]);
                }
            }
            assert forall|i: int| 0 <= i < k2.len() implies #[trigger] k2[i].id < bound by {
                if i < k.len() {
                    assert(k2[i] == k[i]);
                }
            }
        } else {
            assert(keep_newest(s, quota) == k);
        }
    }
}

proof fn lemma_keep_newest_time(s: Seq<ClipboardEntry>, quota: int)
    requires
        by_time(s),
    ensures
        by_time(keep_newest(s, quota)),
        forall|i: int| 0 <= i < keep_newest(s, quota).len() ==> s.contains(#[trigger] keep_newest(s, quota)[i]),
    decreases s.len(),
{
    if s.len() > 0 {
        let p = s.drop_last();
        let e = s.last();
        let q2 = if e.is_pinned || quota <= 0 { quota } else { quota - 1 };
        assert(by_time(p)) by {
            assert forall|i: int, j: int| 0 <= i < j < p.len() implies text_le(
                #[trigger] p[i].created_at@,
                #[trigger] p[j].created_at@,
            ) by {
                assert(p[i] == s[i] && p[j] == s[j]);
            }
        }
        lemma_keep_newest_time(p, q2);
        let k = keep_newest(p, q2);
        assert forall|i: int| 0 <= i < k.len() implies s.contains(#[trigger] k[i]) && text_le(
            k[i].created_at@,
            e.created_at@,
        ) by {
            let j = choose|j: int| 0 <= j < p.len() && p[j] == k[i];
            assert(p[j] == s[j]);
        }
        if e.is_pinned || quota > 0 {
            let k2 = k.push(e);
            assert(keep_newest(s, quota) == k2);
            assert forall|i: int, j: int| 0 <= i < j < k2.len() implies text_le(
                #[trigger] k2[i].created_at@,
                #[trigger] k2[j].created_at@,
            ) by {
                assert(k2[i] == k[i]);
                if j < k.len() {
                    assert(k2[j] == k[j]);
                }
            }
            assert forall|i: int| 0 <= i < k2.len() implies s.contains(#[trigger] k2[i]) by {
                if i == k.len() {
                    assert(s[s.len() - 1] == k2[i]);
                } else {
                    assert(k2[i] == k[i]);
                }
            }
        }
    }
}

proof fn lemma_remove_by_time(s: Seq<ClipboardEntry>, k: int)
    requires
        by_time(s),
        0 <= k < s.len(),
    ensures
        by_time(s.remove(k)),
{
    let t = s.remove(k);
    assert forall|a: int, b: int| 0 <= a < b < t.len() implies text_le(
        #[trigger] t[a].created_at@,
        #[trigger] t[b].created_at@,
    ) by {
        let a2 = if a < k { a } else { a + 1 };
        let b2 = if b < k { b } else { b + 1 };
        assert(t[a] == s[a2] && t[b] == s[b2]);
    }
}

proof fn lemma_update_by_time(s: Seq<ClipboardEntry>, k: int, e: ClipboardEntry)
    requires
        by_time(s),
        0 <= k < s.len(),
        e.created_at == s[k].created_at,
    ensures
        by_time(s.update(k, e)),
{
    let t = s.update(k, e);
    assert forall|a: int, b: int| 0 <= a < b < t.len() implies text_le(
        #[trigger] t[a].created_at@,
        #[trigger] t[b].created_at@,
    ) by {
        assert(t[a].created_at == s[a].created_at && t[b].created_at == s[b].created_at);
    }
}

proof fn lemma_ids_insert(s: Seq<ClipboardEntry>, p: int, e: ClipboardEntry, bound: int)
    requires
        ids_unique(s),
        ids_below(s, bound),
        !has_id(s, e.id),
        e.id < bound,
        0 <= p <= s.len(),
    ensures
        ids_unique(s.insert(p, e)),
        ids_below(s.insert(p, e), bound),
{
    let t = s.insert(p, e);
    assert forall|i: int, j: int|
        0 <= i < t.len() && 0 <= j < t.len() && i != j implies #[trigger] t[i].id != #[trigger] t[j].id by {
        if i < p {
            assert(t[i] == s[i]);
        } else if i > p {
            assert(t[i] == s[i - 1]);
        }
        if j < p {
            assert(t[j] == s[j]);
        } else if j > p {
            assert(t[j] == s[j - 1]);
        }
    }
    assert forall|i: int| 0 <= i < t.len() implies #[trigger] t[i].id < bound by {
        if i < p {
            assert(t[i] == s[i]);
        } else if i > p {
            assert(t[i] == s[i - 1]);
        }
    }
}

/// Tells whether text `a` sorts no later than text `b`.
pub fn stamp_le(a: &String, b: &String) -> (r: bool)
    ensures
        r == text_le(a@, b@),
{
    let x = chars_of(a.as_str());
    let y = chars_of(b.as_str());
    let mut i: usize = 0;
    proof {
        assert(x@.skip(0) == x@);
        assert(y@.skip(0) == y@);
    }
    while i < x.len() && i < y.len() && (x[i] as u32) == (y[i] as u32)
        invariant
            i <= x.len(),
            i <= y.len(),
            text_le(a@, b@) == text_le(x@.skip(i as int), y@.skip(i as int)),
            x@ == a@,
            y@ == b@,
        decreases x.len() - i,
    {
        assert(x@.skip(i as int).drop_first() == x@.skip(i + 1));
        assert(y@.skip(i as int).drop_first() == y@.skip(i + 1));
        assert(x@.skip(i as int)[0] == x@[i as int]);
        assert(y@.skip(i as int)[0] == y@[i as int]);
        i += 1;
    }
    if i == x.len() {
        true
    } else if i == y.len() {
        false
    } else {
        assert(x@.skip(i as int)[0] == x@[i as int]);
        assert(y@.skip(i as int)[0] == y@[i as int]);
        (x[i] as u32) < (y[i] as u32)
    }
}

proof fn lemma_ids_remove(s: Seq<ClipboardEntry>, k: int, bound: int)
    requires
        ids_unique(s),
        ids_below(s, bound),
        0 <= k < s.len(),
    ensures
        ids_unique(s.remove(k)),
        ids_below(s.remove(k), bound),
        !has_id(s.remove(k), s[k].id),
{
    let t = s.remove(k);
    assert forall|a: int, b: int|
        0 <= a < t.len() && 0 <= b < t.len() && a != b implies #[trigger] t[a].id != #[trigger] t[b].id by {
        let a2 = if a < k { a } else { a + 1 };
        let b2 = if b < k { b } else { b + 1 };
        assert(t[a] == s[a2] && t[b] == s[b2]);
    }
    assert forall|a: int| 0 <= a < t.len() implies #[trigger] t[a].id < bound by {
        let a2 = if a < k { a } else { a + 1 };
        assert(t[a] == s[a2]);
    }
    if has_id(t, s[k].id) {
        let j = choose|j: int| 0 <= j < t.len() && #[trigger] t[j].id == s[k].id;
        let j2 = if j < k { j } else { j + 1 };
        assert(t[j] == s[j2]);
    }
}

proof fn lemma_ids_update(s: Seq<ClipboardEntry>, k: int, e: ClipboardEntry, bound: int)
    requires
        ids_unique(s),
        ids_below(s, bound),
        0 <= k < s.len(),
        e.id == s[k].id,
    ensures
        ids_unique(s.update(k, e)),
        ids_below(s.update(k, e), bound),
{
    let t = s.update(k, e);
    assert forall|a: int, b: int|
        0 <= a < t.len() && 0 <= b < t.len() && a != b implies #[trigger] t[a].id != #[trigger] t[b].id by {
        assert(t[a].id == s[a].id && t[b].id == s[b].id);
    }
    assert forall|a: int| 0 <= a < t.len() implies #[trigger] t[a].id < bound by {
        assert(t[a].id == s[a].id);
    }
}

proof fn lemma_newest_first_ids(s: Seq<ClipboardEntry>, pinned: bool)
    requires
        ids_unique(s),
    ensures
        ids_unique(newest_first(s, pinned)),
        forall|i: int|
            0 <= i < newest_first(s, pinned).len() ==> (#[trigger] newest_first(s, pinned)[i]).is_pinned
                == pinned && s.contains(newest_first(s, pinned)[i]),
    decreases s.len(),
{
    if s.len() > 0 {
        let p = s.drop_last();
        let e = s.last();
        assert(ids_unique(p)) by {
            assert forall|i: int, j: int|
                0 <= i < p.len() && 0 <= j < p.len() && i != j implies #[trigger] p[i].id
                != #[trigger] p[j].id by {
                assert(p[i] == s[i] && p[j] == s[j]);
            }
        }
        lemma_newest_first_ids(p, pinned);
        let n = newest_first(p, pinned);
        assert forall|i: int| 0 <= i < n.len() implies s.contains(#[trigger] n[i]) by {
            let j = choose|j: int| 0 <= j < p.len() && p[j] == n[i];
            assert(p[j] == s[j]);
        }
        if e.is_pinned == pinned {
            let m = seq![e] + n;
            assert(newest_first(s, pinned) == m);
            assert forall|i: int| 0 <= i < n.len() implies #[trigger] n[i].id != e.id by {
                let j = choose|j: int| 0 <= j < p.len() && p[j] == n[i];
                assert(p[j] == s[j]);
                assert(s[j].id != s[s.len() - 1].id);
            }
            assert forall|a: int, b: int|
                0 <= a < m.len() && 0 <= b < m.len() && a != b implies #[trigger] m[a].id
                != #[trigger] m[b].id by {
                if a > 0 {
                    assert(m[a] == n[a - 1]);
                }
                if b > 0 {
                    assert(m[b] == n[b - 1]);
                }
            }
            assert forall|i: int| 0 <= i < m.len() implies (#[trigger] m[i]).is_pinned == pinned
                && s.contains(m[i]) by {
                if i == 0 {
                    assert(m[0] == s[s.len() - 1]);
                } else {
                    assert(m[i] == n[i - 1]);
                }
            }
        }
    }
}

/// The listed history holds no two entries with the same id when the history holds none.
pub proof fn lemma_listing_ids_unique(s: Seq<ClipboardEntry>, limit: i64)
    requires
        ids_unique(s),
    ensures
        ids_unique(first_n(listing(s), limit)),
{
    lemma_newest_first_ids(s, true);
    lemma_newest_first_ids(s, false);
    let a = newest_first(s, true);
    let b = newest_first(s, false);
    let l = listing(s);
    assert forall|x: int, y: int|
        0 <= x < l.len() && 0 <= y < l.len() && x != y implies #[trigger] l[x].id != #[trigger] l[y].id by {
        if x < a.len() && y < a.len() {
            assert(l[x] == a[x] && l[y] == a[y]);
        } else if x >= a.len() && y >= a.len() {
            assert(l[x] == b[x - a.len()] && l[y] == b[y - a.len()]);
        } else {
            let (u, v) = if x < a.len() { (x, y - a.len()) } else { (y, x - a.len()) };
            assert(l[if x < a.len() { x } else { y }] == a[u]);
            assert(l[if x < a.len() { y } else { x }] == b[v]);
            assert(s.contains(a[u]) && s.contains(b[v]));
            let ja = choose|j: int| 0 <= j < s.len() && s[j] == a[u];
            let jb = choose|j: int| 0 <= j < s.len() && s[j] == b[v];
            if a[u].id == b[v].id {
                assert(ja == jb);
                assert(a[u].is_pinned != b[v].is_pinned);
            }
        }
    }
    let r = first_n(l, limit);
    assert forall|x: int, y: int|
        0 <= x < r.len() && 0 <= y < r.len() && x != y implies #[trigger] r[x].id != #[trigger] r[y].id by {
        assert(r[x] == l[x] && r[y] == l[y]);
    }
}

/// The entries of `entries` whose pin flag is `pinned`, newest first, copied.
fn collect_newest_first(entries: &Vec<ClipboardEntry>, pinned: bool) -> (out: Vec<ClipboardEntry>)
    ensures
        out@ == newest_first(entries@, pinned),
{
    let mut out: Vec<ClipboardEntry> = Vec::new();
    let mut i = entries.len();
    assert(entries@.take(i as int) == entries@);
    assert(out@ + newest_first(entries@, pinned) == newest_first(entries@, pinned));
    while i > 0
        invariant
            i <= entries.len(),
            newest_first(entries@, pinned) == out@ + newest_first(entries@.take(i as int), pinned),
        decreases i,
    {
        let ghost before = entries@.take(i as int);
        i -= 1;
        assert(before.drop_last() == entries@.take(i as int));
        assert(before.last() == entries@[i as int]);
        if entries[i].is_pinned == pinned {
            let e = entries[i].clone();
            let ghost old_out = out@;
            out.push(e);
            assert(old_out + (seq![e] + newest_first(entries@.take(i as int), pinned)) == out@
                + newest_first(entries@.take(i as int), pinned));
        }
    }
    assert(entries@.take(0) == Seq::<ClipboardEntry>::empty());
    assert(out@ + Seq::<ClipboardEntry>::empty() == out@);
    out
}

impl HistoryTable {
    /// The id that the next recorded entry gets.
    pub closed spec fn next_id(&self) -> int {
        self.next_id as int
    }

    /// No two entries share an id, the next id is positive and above every stored id, and
    /// the entries are in order of their creation time stamps.
    pub open spec fn wf(&self) -> bool {
        &&& 1 <= self.next_id()
        &&& ids_unique(self@)
        &&& ids_below(self@, self.next_id())
        &&& by_time(self@)
    }

    /// An empty history; the first entry gets id 1.
    pub fn new() -> (t: Self)
        ensures
            t.wf(),
            t@ == Seq::<ClipboardEntry>::empty(),
            t.next_id() == 1,
    {
        HistoryTable { entries: Vec::new(), next_id: 1 }
    }

    /// The number of entries.
    pub fn len(&self) -> (n: usize)
        ensures
            n == self@.len(),
    {
        self.entries.len()
    }

    /// Where an entry stamped `stamp` goes: after the last entry stamped no later.
    fn time_slot(&self, stamp: &String) -> (p: usize)
        ensures
            p == time_position(self@, stamp@),
    {
        let mut p = self.entries.len();
        proof {
            assert(self.entries@.take(p as int) == self.entries@);
        }
        while p > 0 && !stamp_le(&self.entries[p - 1].created_at, stamp)
            invariant
                p <= self.entries.len(),
                time_position(self.entries@, stamp@) == time_position(self.entries@.take(p as int), stamp@),
            decreases p,
        {
            assert(self.entries@.take(p as int).drop_last() == self.entries@.take(p - 1));
            assert(self.entries@.take(p as int).last() == self.entries@[p - 1]);
            p -= 1;
        }
        if p > 0 {
            assert(self.entries@.take(p as int).last() == self.entries@[p - 1]);
        }
        p
    }

    /// The position of the entry with id `id`, if there is one.
    fn position_of(&self, id: i64) -> (r: Option<usize>)
        requires
            self.wf(),
        ensures
            match r {
                Some(i) => i < self@.len() && self@[i as int].id == id,
                None => !has_id(self@, id),
            },
    {
        let mut i: usize = 0;
        while i < self.entries.len()
            invariant
                i <= self.entries.len(),
                forall|j: int| 0 <= j < i ==> #[trigger] self.entries@[j].id != id,
            decreases self.entries.len() - i,
        {
            if self.entries[i].id == id {
                return Some(i);
            }
            i += 1;
        }
        None
    }

    /// Restores an entry read back from storage, at its place in time order (after the
    /// entries stamped no later); the next id moves above its id. Refused (and `false` returned) when its id is already
    /// taken or is the largest id, which leaves no next id.
    pub fn restore(&mut self, entry: ClipboardEntry) -> (accepted: bool)
        requires
            old(self).wf(),
        ensures
            final(self).wf(),
            accepted == (!has_id(old(self)@, entry.id) && entry.id < i64::MAX),
            accepted ==> final(self)@ == old(self)@.insert(time_position(old(self)@, entry.created_at@), entry)
                && final(self).next_id() == if entry.id
                >= old(self).next_id() {
                entry.id + 1
            } else {
                old(self).next_id()
            },
            !accepted ==> final(self)@ == old(self)@ && final(self).next_id() == old(self).next_id(),
    {
        if entry.id == i64::MAX {
            return false;
        }
        match self.position_of(entry.id) {
            Some(_) => false,
            None => {
                let id = entry.id;
                let ghost old_entries = self.entries@;
                let ghost e = entry;
                let p = self.time_slot(&entry.created_at);
                proof {
                    lemma_time_position(old_entries, e.created_at@);
                }
                self.entries.insert(p, entry);
                if id >= self.next_id {
                    self.next_id = id + 1;
                }
                proof {
                    lemma_ids_insert(old_entries, p as int, e, self.next_id as int);
                    lemma_insert_by_time(old_entries, e);
                }
                true
            }
        }
    }

    /// Takes in the largest id ever handed out, as storage remembers it: the next id moves
    /// above it, so that ids of deleted entries are not handed out again. When it is the
    /// largest id, no id is left.
    pub fn restore_last_id(&mut self, last_id: i64)
        requires
            old(self).wf(),
        ensures
            final(self).wf(),
            final(self)@ == old(self)@,
            final(self).next_id() == if last_id == i64::MAX {
                i64::MAX as int
            } else if last_id + 1 > old(self).next_id() {
                last_id + 1
            } else {
                old(self).next_id()
            },
    {
        if last_id == i64::MAX {
            self.next_id = i64::MAX;
        } else if last_id + 1 > self.next_id {
            self.next_id = last_id + 1;
        }
    }

    /// Leaves every pinned entry and the `quota` newest unpinned ones; returns the ids of
    /// the entries removed, newest first.
    fn retain_newest(&mut self, quota: i64) -> (removed: Vec<i64>)
        requires
            old(self).wf(),
            quota >= 0,
        ensures
            final(self).wf(),
            final(self)@ == keep_newest(old(self)@, quota as int),
            removed@ == dropped_ids(old(self)@, quota as int),
            final(self).next_id() == old(self).next_id(),
    {
        let ghost orig = self.entries@;
        proof {
            lemma_keep_newest_ids(orig, quota as int, self.next_id as int);
            lemma_keep_newest_time(orig, quota as int);
        }
        let mut rest: Vec<ClipboardEntry> = Vec::new();
        std::mem::swap(&mut rest, &mut self.entries);
        let mut kept_rev: Vec<ClipboardEntry> = Vec::new();
        let mut removed: Vec<i64> = Vec::new();
        let mut q = quota;
        while rest.len() > 0
            invariant
                q >= 0,
                self.next_id == old(self).next_id,
                self.entries@ == Seq::<ClipboardEntry>::empty(),
                keep_newest(orig, quota as int) == keep_newest(rest@, q as int) + kept_rev@.reverse(),
                dropped_ids(orig, quota as int) == removed@ + dropped_ids(rest@, q as int),
            decreases rest.len(),
        {
            let ghost before = rest@;
            let e = rest.pop().unwrap();
            assert(before.drop_last() == rest@);
            let ghost kr = kept_rev@;
            if e.is_pinned || q > 0 {
                if !e.is_pinned {
                    q -= 1;
                }
                kept_rev.push(e);
                assert(kept_rev@.reverse() == seq![e] + kr.reverse());
                assert(keep_newest(rest@, q as int).push(e) + kr.reverse() == keep_newest(
                    rest@,
                    q as int,
                ) + (seq![e] + kr.reverse()));
            } else {
                let ghost rm = removed@;
                removed.push(e.id);
                assert(rm + (seq![e.id] + dropped_ids(rest@, q as int)) == removed@ + dropped_ids(
                    rest@,
                    q as int,
                ));
            }
        }
        assert(keep_newest(rest@, q as int) == Seq::<ClipboardEntry>::empty());
        assert(Seq::<ClipboardEntry>::empty() + kept_rev@.reverse() == kept_rev@.reverse());
        assert(removed@ + Seq::<i64>::empty() == removed@);
        while kept_rev.len() > 0
            invariant
                self.next_id == old(self).next_id,
                keep_newest(orig, quota as int) == self.entries@ + kept_rev@.reverse(),
            decreases kept_rev.len(),
        {
            let ghost before = kept_rev@;
            let e = kept_rev.pop().unwrap();
            assert(before.reverse() == seq![e] + kept_rev@.reverse());
            let ghost ent = self.entries@;
            self.entries.push(e);
            assert(ent + (seq![e] + kept_rev@.reverse()) == self.entries@ + kept_rev@.reverse());
        }
        assert(self.entries@ + kept_rev@.reverse() == self.entries@);
        removed
    }

    /// The newest unpinned entry has the text `text`.
    fn newest_unpinned_is(&self, text: &String) -> (b: bool)
        ensures
            b == is_duplicate(self@, text@),
    {
        let mut i = self.entries.len();
        proof {
            assert(self.entries@.take(i as int) == self.entries@);
        }
        while i > 0
            invariant
                i <= self.entries.len(),
                newest_unpinned(self.entries@) == newest_unpinned(self.entries@.take(i as int)),
            decreases i,
        {
            let ghost before = self.entries@.take(i as int);
            assert(before.drop_last() == self.entries@.take(i - 1));
            assert(before.last() == self.entries@[i - 1]);
            if !self.entries[i - 1].is_pinned {
                return self.entries[i - 1].content == *text;
            }
            i -= 1;
        }
        false
    }

    /// Records `content` as the newest entry, stamped `created_at`, unless it is blank or
    /// repeats the newest unpinned entry; then drops the unpinned entries beyond the `limit`
    /// newest (a negative limit drops none).
    pub fn add(&mut self, content: &str, created_at: String, limit: i64) -> (r: Result<
        AddOutcome,
        StoreError,
    >)
        requires
            old(self).wf(),
        ensures
            final(self).wf(),
            add_effect(
                old(self)@,
                old(self).next_id(),
                final(self)@,
                final(self).next_id(),
                content@,
                created_at,
                limit,
                r,
            ),
    {
        let raw = chars_of(content);
        let (a, b) = trim_bounds(&raw);
        if a == b {
            return Ok(AddOutcome::Blank);
        }
        let text = content.to_owned();
        if self.newest_unpinned_is(&text) {
            return Ok(AddOutcome::Duplicate);
        }
        if self.next_id == i64::MAX {
            return Err(StoreError::IdsExhausted);
        }
        let entry = ClipboardEntry {
            id: self.next_id,
            content: text,
            created_at: created_at,
            is_pinned: false,
        };
        let copy = entry.clone();
        let ghost old_entries = self.entries@;
        proof {
            if has_id(old_entries, copy.id) {
                let j = choose|j: int| 0 <= j < old_entries.len() && #[trigger] old_entries[j].id == copy.id;
            }
        }
        let p = self.time_slot(&entry.created_at);
        proof {
            lemma_time_position(old_entries, copy.created_at@);
        }
        self.entries.insert(p, entry);
        self.next_id = self.next_id + 1;
        proof {
            lemma_ids_insert(old_entries, p as int, copy, self.next_id as int);
            lemma_insert_by_time(old_entries, copy);
        }
        let removed_ids = if limit >= 0 {
            self.retain_newest(limit)
        } else {
            Vec::new()
        };
        Ok(AddOutcome::Inserted { entry: copy, removed_ids })
    }

    /// The history as listed: pinned entries first, then the others, each newest first;
    /// at most `limit` of them (all of them when `limit` is negative).
    pub fn list(&self, limit: i64) -> (r: Vec<ClipboardEntry>)
        ensures
            r@ == first_n(listing(self@), limit),
            self.wf() ==> ids_unique(r@) && listing_order(r@),
    {
        proof {
            if self.wf() {
                lemma_listing_ids_unique(self@, limit);
                lemma_listing_order(self@, limit);
            }
        }
        let mut out = collect_newest_first(&self.entries, true);
        let mut others = collect_newest_first(&self.entries, false);
        out.append(&mut others);
        if limit >= 0 && (limit as u64) < (out.len() as u64) {
            out.truncate(limit as usize);
        }
        out
    }

    /// The entry with id `id`.
    pub fn get(&self, id: i64) -> (r: Option<ClipboardEntry>)
        requires
            self.wf(),
        ensures
            r is Some <==> has_id(self@, id),
            forall|i: int| 0 <= i < self@.len() && #[trigger] self@[i].id == id ==> r == Some(self@[i]),
    {
        match self.position_of(id) {
            Some(i) => Some(self.entries[i].clone()),
            None => None,
        }
    }

    /// Removes the entry with id `id`, if there is one; tells whether there was.
    pub fn delete(&mut self, id: i64) -> (found: bool)
        requires
            old(self).wf(),
        ensures
            final(self).wf(),
            found == has_id(old(self)@, id),
            forall|i: int|
                0 <= i < old(self)@.len() && #[trigger] old(self)@[i].id == id ==> final(self)@
                    == old(self)@.remove(i),
            !found ==> final(self)@ == old(self)@,
            !has_id(final(self)@, id),
            final(self).next_id() == old(self).next_id(),
    {
        match self.position_of(id) {
            Some(i) => {
                let ghost old_entries = self.entries@;
                self.entries.remove(i);
                proof {
                    lemma_ids_remove(old_entries, i as int, self.next_id as int);
                    lemma_remove_by_time(old_entries, i as int);
                }
                true
            },
            None => false,
        }
    }

    /// Flips the pin flag of the entry with id `id`, if there is one; tells whether there was.
    pub fn toggle_pin(&mut self, id: i64) -> (found: bool)
        requires
            old(self).wf(),
        ensures
            final(self).wf(),
            found == has_id(old(self)@, id),
            forall|i: int|
                0 <= i < old(self)@.len() && #[trigger] old(self)@[i].id == id ==> final(self)@
                    == old(self)@.update(i, flipped(old(self)@[i])),
            !found ==> final(self)@ == old(self)@,
            final(self).next_id() == old(self).next_id(),
    {
        match self.position_of(id) {
            Some(i) => {
                let ghost old_entries = self.entries@;
                let mut e = self.entries.remove(i);
                e.is_pinned = !e.is_pinned;
                self.entries.insert(i, e);
                proof {
                    let s = self.entries@;
                    assert(s == old_entries.update(i as int, flipped(old_entries[i as int])));
                    lemma_ids_update(old_entries, i as int, flipped(old_entries[i as int]), self.next_id as int);
                    lemma_update_by_time(old_entries, i as int, flipped(old_entries[i as int]));
                }
                true
            },
            None => false,
        }
    }

    /// Removes every unpinned entry; returns their ids, newest first.
    pub fn clear(&mut self) -> (removed: Vec<i64>)
        requires
            old(self).wf(),
        ensures
            final(self).wf(),
            final(self)@ == keep_newest(old(self)@, 0),
            removed@ == dropped_ids(old(self)@, 0),
            final(self).next_id() == old(self).next_id(),
    {
        self.retain_newest(0)
    }
}

/// Applying the history limit never removes or reorders pinned entries.
pub proof fn lemma_prune_keeps_pinned(s: Seq<ClipboardEntry>, limit: i64)
    ensures
        with_pin(prune(s, limit), true) == with_pin(s, true),
{
    if limit >= 0 {
        lemma_keep_newest_pinned(s, limit as int);
    }
}

proof fn lemma_keep_newest_pinned(s: Seq<ClipboardEntry>, quota: int)
    ensures
        with_pin(keep_newest(s, quota), true) == with_pin(s, true),
    decreases s.len(),
{
    if s.len() > 0 {
        let e = s.last();
        let q2 = if e.is_pinned || quota <= 0 { quota } else { quota - 1 };
        lemma_keep_newest_pinned(s.drop_last(), q2);
        if e.is_pinned || quota > 0 {
            let k = keep_newest(s.drop_last(), q2);
            assert(k.push(e).drop_last() == k);
        }
    }
}

proof fn lemma_keep_newest_unpinned(s: Seq<ClipboardEntry>, quota: int)
    requires
        quota >= 0,
    ensures
        with_pin(keep_newest(s, quota), false).len() == if with_pin(s, false).len() < quota {
            with_pin(s, false).len() as int
        } else {
            quota
        },
    decreases s.len(),
{
    if s.len() > 0 {
        let e = s.last();
        let q2 = if e.is_pinned || quota <= 0 { quota } else { quota - 1 };
        lemma_keep_newest_unpinned(s.drop_last(), q2);
        if e.is_pinned || quota > 0 {
            let k = keep_newest(s.drop_last(), q2);
            assert(k.push(e).drop_last() == k);
        }
    }
}

/// Once the history limit `limit` (not negative) is applied, `min(limit, u)` unpinned
/// entries remain, `u` being how many there were.
pub proof fn lemma_prune_unpinned_count(s: Seq<ClipboardEntry>, limit: i64)
    requires
        limit >= 0,
    ensures
        with_pin(prune(s, limit), false).len() == if with_pin(s, false).len() < limit {
            with_pin(s, false).len() as int
        } else {
            limit as int
        },
{
    lemma_keep_newest_unpinned(s, limit as int);
}

/// Clearing the history leaves exactly the pinned entries, in their order.
pub proof fn lemma_clear_keeps_pinned(s: Seq<ClipboardEntry>)
    ensures
        keep_newest(s, 0) == with_pin(s, true),
    decreases s.len(),
{
    if s.len() > 0 {
        lemma_clear_keeps_pinned(s.drop_last());
    }
}

/// An entry stamped no earlier than the newest stored one goes last.
pub proof fn lemma_time_position_last(s: Seq<ClipboardEntry>, e: ClipboardEntry)
    requires
        s.len() == 0 || text_le(s.last().created_at@, e.created_at@),
    ensures
        s.insert(time_position(s, e.created_at@), e) == s.push(e),
{
    assert(time_position(s, e.created_at@) == s.len());
}

/// A text just recorded, under a limit other than zero and stamped no earlier than the
/// newest stored entry, is the newest unpinned entry, so recording the same text again
/// changes nothing.
pub proof fn lemma_recorded_is_newest(s: Seq<ClipboardEntry>, e: ClipboardEntry, limit: i64)
    requires
        !e.is_pinned,
        limit != 0,
        s.len() == 0 || text_le(s.last().created_at@, e.created_at@),
    ensures
        newest_unpinned(prune(s.insert(time_position(s, e.created_at@), e), limit)) == Some(e),
        is_duplicate(prune(s.insert(time_position(s, e.created_at@), e), limit), e.content@),
        newest_first(prune(s.insert(time_position(s, e.created_at@), e), limit), false)[0] == e,
{
    lemma_time_position_last(s, e);
    let t = prune(s.push(e), limit);
    assert(s.push(e).drop_last() == s);
    assert(s.push(e).last() == e);
    if limit > 0 {
        assert(t == keep_newest(s, limit - 1).push(e));
    }
    assert(t.last() == e);
    assert(t.drop_last().push(e) == t);
}

/// Keeping the `quota` newest unpinned entries keeps, newest first, a prefix of the unpinned
/// entries newest first: its first `quota` ones, or all of them when there are fewer.
pub proof fn lemma_keep_newest_unpinned_order(s: Seq<ClipboardEntry>, quota: int)
    requires
        quota >= 0,
    ensures
        newest_first(keep_newest(s, quota), false) == if newest_first(s, false).len() <= quota {
            newest_first(s, false)
        } else {
            newest_first(s, false).take(quota)
        },
    decreases s.len(),
{
    if s.len() > 0 {
        let p = s.drop_last();
        let e = s.last();
        let q2 = if e.is_pinned || quota <= 0 { quota } else { quota - 1 };
        lemma_keep_newest_unpinned_order(p, q2);
        let k = keep_newest(p, q2);
        if e.is_pinned || quota > 0 {
            assert(k.push(e).drop_last() == k);
            assert(k.push(e).last() == e);
        }
        if !e.is_pinned && quota > 0 {
            let n = newest_first(p, false);
            assert(newest_first(s, false) == seq![e] + n);
            if n.len() > quota - 1 {
                assert((seq![e] + n).take(quota) == seq![e] + n.take(quota - 1));
            }
        }
        if !e.is_pinned && quota == 0 {
            assert(newest_first(s, false).take(0) == Seq::<ClipboardEntry>::empty());
            if newest_first(p, false).len() > 0 {
                assert(newest_first(p, false).take(0) == Seq::<ClipboardEntry>::empty());
            }
        }
    }
}

/// Recording a text (under a limit of at least one, stamped no earlier than the newest
/// stored entry) leaves the pinned entries as they were and, newest first, the unpinned
/// entries: the new one, then the newest `limit - 1` of those there were.
pub proof fn lemma_record_listing(s: Seq<ClipboardEntry>, e: ClipboardEntry, limit: i64)
    requires
        !e.is_pinned,
        limit >= 1,
        s.len() == 0 || text_le(s.last().created_at@, e.created_at@),
    ensures
        with_pin(prune(s.insert(time_position(s, e.created_at@), e), limit), true) == with_pin(s, true),
        newest_first(prune(s.insert(time_position(s, e.created_at@), e), limit), false) == seq![e] + if newest_first(
            s,
            false,
        ).len() <= limit - 1 {
            newest_first(s, false)
        } else {
            newest_first(s, false).take(limit - 1)
        },
{
    lemma_time_position_last(s, e);
    lemma_prune_keeps_pinned(s.push(e), limit);
    assert(s.push(e).drop_last() == s);
    assert(s.push(e).last() == e);
    let k = keep_newest(s, limit - 1);
    assert(prune(s.push(e), limit) == k.push(e));
    assert(k.push(e).drop_last() == k);
    assert(k.push(e).last() == e);
    lemma_keep_newest_unpinned_order(s, limit - 1);
}

/// Listed entries come in time order: within the pinned and within the unpinned entries,
/// each is stamped no earlier than the one after it.
pub proof fn lemma_newest_first_by_time(s: Seq<ClipboardEntry>, pinned: bool)
    requires
        by_time(s),
    ensures
        forall|i: int, j: int|
            0 <= i < j < newest_first(s, pinned).len() ==> text_le(
                #[trigger] newest_first(s, pinned)[j].created_at@,
                #[trigger] newest_first(s, pinned)[i].created_at@,
            ),
        forall|i: int| 0 <= i < newest_first(s, pinned).len() ==> s.contains(#[trigger] newest_first(s, pinned)[i]),
    decreases s.len(),
{
    if s.len() > 0 {
        let p = s.drop_last();
        let e = s.last();
        assert(by_time(p)) by {
            assert forall|i: int, j: int| 0 <= i < j < p.len() implies text_le(
                #[trigger] p[i].created_at@,
                #[trigger] p[j].created_at@,
            ) by {
                assert(p[i] == s[i] && p[j] == s[j]);
            }
        }
        lemma_newest_first_by_time(p, pinned);
        let n = newest_first(p, pinned);
        assert forall|i: int| 0 <= i < n.len() implies s.contains(#[trigger] n[i]) && text_le(
            n[i].created_at@,
            e.created_at@,
        ) by {
            let j = choose|j: int| 0 <= j < p.len() && p[j] == n[i];
            assert(p[j] == s[j]);
        }
        if e.is_pinned == pinned {
            let m = seq![e] + n;
            assert(newest_first(s, pinned) == m);
            assert forall|i: int, j: int| 0 <= i < j < m.len() implies text_le(
                #[trigger] m[j].created_at@,
                #[trigger] m[i].created_at@,
            ) by {
                assert(m[j] == n[j - 1]);
                if i > 0 {
                    assert(m[i] == n[i - 1]);
                }
            }
            assert forall|i: int| 0 <= i < m.len() implies s.contains(#[trigger] m[i]) by {
                if i == 0 {
                    assert(s[s.len() - 1] == m[0]);
                } else {
                    assert(m[i] == n[i - 1]);
                }
            }
        }
    }
}

/// The history is listed pinned entries first, each group latest stamp first.
pub proof fn lemma_listing_order(s: Seq<ClipboardEntry>, limit: i64)
    requires
        by_time(s),
    ensures
        listing_order(first_n(listing(s), limit)),
{
    lemma_newest_first_by_time(s, true);
    lemma_newest_first_by_time(s, false);
    lemma_newest_first_flags(s, true);
    lemma_newest_first_flags(s, false);
    let a = newest_first(s, true);
    let b = newest_first(s, false);
    let l = listing(s);
    let r = first_n(l, limit);
    assert forall|i: int, j: int| 0 <= i < j < r.len() implies (#[trigger] r[j].is_pinned
        ==> #[trigger] r[i].is_pinned) && (r[i].is_pinned == r[j].is_pinned ==> text_le(
        r[j].created_at@,
        r[i].created_at@,
    )) by {
        assert(r[i] == l[i] && r[j] == l[j]);
        if j < a.len() {
            assert(l[i] == a[i] && l[j] == a[j]);
        } else if i >= a.len() {
            assert(l[i] == b[i - a.len()] && l[j] == b[j - a.len()]);
        } else {
            assert(l[i] == a[i] && l[j] == b[j - a.len()]);
        }
    }
}

proof fn lemma_newest_first_flags(s: Seq<ClipboardEntry>, pinned: bool)
    ensures
        forall|i: int| 0 <= i < newest_first(s, pinned).len() ==> (#[trigger] newest_first(s, pinned)[i]).is_pinned == pinned,
    decreases s.len(),
{
    if s.len() > 0 {
        lemma_newest_first_flags(s.drop_last(), pinned);
        let n = newest_first(s.drop_last(), pinned);
        if s.last().is_pinned == pinned {
            assert forall|i: int| 0 <= i < (seq![s.last()] + n).len() implies (#[trigger] (seq![s.last()] + n)[i]).is_pinned == pinned by {
                if i > 0 {
                    assert((seq![s.last()] + n)[i] == n[i - 1]);
                }
            }
        }
    }
}

/// Flipping an entry's pin flag twice gives the history back.
pub proof fn lemma_toggle_twice(s: Seq<ClipboardEntry>, i: int)
    requires
        0 <= i < s.len(),
    ensures
        s.update(i, flipped(s[i])).update(i, flipped(s.update(i, flipped(s[i]))[i])) == s,
{
    assert(s.update(i, flipped(s[i]))[i] == flipped(s[i]));
    assert(flipped(flipped(s[i])) == s[i]);
    assert(s.update(i, flipped(s[i])).update(i, s[i]) == s);
}

/// After an entry is deleted no entry has its id any more.
pub proof fn lemma_delete_removes_id(s: Seq<ClipboardEntry>, i: int)
    requires
        ids_unique(s),
        0 <= i < s.len(),
    ensures
        !has_id(s.remove(i), s[i].id),
{
    let t = s.remove(i);
    if has_id(t, s[i].id) {
        let j = choose|j: int| 0 <= j < t.len() && #[trigger] t[j].id == s[i].id;
        let j2 = if j < i { j } else { j + 1 };
        assert(t[j] == s[j2]);
    }
}

/// The listing holds every entry of the history: its length is the history's length.
pub proof fn lemma_listing_len(s: Seq<ClipboardEntry>)
    ensures
        listing(s).len() == s.len(),
    decreases s.len(),
{
    if s.len() > 0 {
        lemma_listing_len(s.drop_last());
    }
}

/// Pinned entries are passed over when looking for the newest unpinned entry: putting a
/// pinned entry after `s` changes neither the newest unpinned entry nor which texts repeat it.
pub proof fn lemma_newest_unpinned_skips_pinned(
    s: Seq<ClipboardEntry>,
    p: ClipboardEntry,
    text: Seq<char>,
)
    requires
        p.is_pinned,
    ensures
        newest_unpinned(s.push(p)) == newest_unpinned(s),
        is_duplicate(s.push(p), text) == is_duplicate(s, text),
{
    assert(s.push(p).drop_last() == s);
}

/// The newest unpinned entry is the last entry that is not pinned: where entry `i` is not
/// pinned and every later entry is, it is entry `i`, and a text repeats it exactly when the
/// text equals that entry's content, whatever pinned entries follow it.
pub proof fn lemma_newest_unpinned_is_last_unpinned(s: Seq<ClipboardEntry>, i: int, text: Seq<char>)
    requires
        0 <= i < s.len(),
        !s[i].is_pinned,
        forall|j: int| i < j < s.len() ==> #[trigger] s[j].is_pinned,
    ensures
        newest_unpinned(s) == Some(s[i]),
        is_duplicate(s, text) == (s[i].content@ == text),
    decreases s.len(),
{
    if i < s.len() - 1 {
        let p = s.drop_last();
        assert(s.last().is_pinned);
        assert forall|j: int| i < j < p.len() implies #[trigger] p[j].is_pinned by {
            assert(p[j] == s[j]);
        }
        assert(p[i] == s[i]);
        lemma_newest_unpinned_is_last_unpinned(p, i, text);
    }
}

/// Where every entry is pinned there is no newest unpinned entry, and no text repeats one.
pub proof fn lemma_newest_unpinned_all_pinned(s: Seq<ClipboardEntry>, text: Seq<char>)
    requires
        forall|j: int| 0 <= j < s.len() ==> #[trigger] s[j].is_pinned,
    ensures
        newest_unpinned(s) is None,
        !is_duplicate(s, text),
    decreases s.len(),
{
    if s.len() > 0 {
        let p = s.drop_last();
        assert(s.last().is_pinned);
        assert forall|j: int| 0 <= j < p.len() implies #[trigger] p[j].is_pinned by {
            assert(p[j] == s[j]);
        }
        lemma_newest_unpinned_all_pinned(p, text);
    }
}

/// Recording a text equal to the content of the last unpinned entry records nothing, however
/// many pinned entries follow that entry: the outcome is `Duplicate` (or `Blank`, for
/// whitespace) and the table and its next id stay as they were.
pub proof fn lemma_repeat_of_last_unpinned_not_recorded(
    s: Seq<ClipboardEntry>,
    next: int,
    t: Seq<ClipboardEntry>,
    t_next: int,
    content: Seq<char>,
    created_at: String,
    limit: i64,
    r: Result<AddOutcome, StoreError>,
    i: int,
)
    requires
        add_effect(s, next, t, t_next, content, created_at, limit, r),
        0 <= i < s.len(),
        !s[i].is_pinned,
        forall|j: int| i < j < s.len() ==> #[trigger] s[j].is_pinned,
        s[i].content@ == content,
    ensures
        r matches Ok(AddOutcome::Duplicate) || r matches Ok(AddOutcome::Blank),
        !is_blank(content) ==> r matches Ok(AddOutcome::Duplicate),
        t == s,
        t_next == next,
{
    lemma_newest_unpinned_is_last_unpinned(s, i, content);
}

/// The entries with a given pin flag are exactly the entries of `s` with that flag, in the
/// order of `s` (`s` filtered by the flag), and the listing of that group is the same
/// entries read from the newest back.
pub proof fn lemma_with_pin_exact(s: Seq<ClipboardEntry>, pinned: bool)
    ensures
        with_pin(s, pinned) == s.filter(|e: ClipboardEntry| e.is_pinned == pinned),
        newest_first(s, pinned) == with_pin(s, pinned).reverse(),
    decreases s.len(),
{
    reveal(Seq::filter);
    let pred = |e: ClipboardEntry| e.is_pinned == pinned;
    if s.len() > 0 {
        let p = s.drop_last();
        lemma_with_pin_exact(p, pinned);
        let w = with_pin(p, pinned);
        if s.last().is_pinned == pinned {
            let e = s.last();
            assert(w.push(e).reverse() =~= seq![e] + w.reverse());
        }
    }
    assert(with_pin(s, pinned) == s.filter(pred));
}

/// Keeping the `quota` newest unpinned entries splits the unpinned entries, newest first, into
/// the ones kept followed by the ones dropped: the dropped ids are exactly the ids of the
/// unpinned entries that are not kept, newest first.
pub proof fn lemma_dropped_ids_split(s: Seq<ClipboardEntry>, quota: int)
    requires
        quota >= 0,
    ensures
        newest_first(s, false).map_values(|e: ClipboardEntry| e.id) == newest_first(keep_newest(s, quota), false).map_values(
            |e: ClipboardEntry| e.id,
        ) + dropped_ids(s, quota),
    decreases s.len(),
{
    let f = |e: ClipboardEntry| e.id;
    if s.len() > 0 {
        let p = s.drop_last();
        let e = s.last();
        let q2 = if e.is_pinned || quota == 0 { quota } else { quota - 1 };
        lemma_dropped_ids_split(p, q2);
        let k = keep_newest(p, q2);
        let np = newest_first(p, false).map_values(f);
        let nk = newest_first(k, false).map_values(f);
        let d = dropped_ids(p, q2);
        if e.is_pinned {
            assert(k.push(e).drop_last() == k);
            assert(newest_first(k.push(e), false) == newest_first(k, false));
        } else if quota > 0 {
            assert(k.push(e).drop_last() == k);
            assert(newest_first(k.push(e), false) == seq![e] + newest_first(k, false));
            assert((seq![e] + newest_first(k, false)).map_values(f) =~= seq![e.id] + nk);
            assert((seq![e] + newest_first(p, false)).map_values(f) =~= seq![e.id] + np);
            assert(seq![e.id] + (nk + d) =~= (seq![e.id] + nk) + d);
        } else {
            lemma_keep_newest_unpinned(p, 0);
            lemma_with_pin_exact(k, false);
            assert(newest_first(k, false).len() == 0);
            assert(nk =~= Seq::<i64>::empty());
            assert((seq![e] + newest_first(p, false)).map_values(f) =~= seq![e.id] + np);
            assert(nk + (seq![e.id] + d) =~= seq![e.id] + (nk + d));
        }
    } else {
        assert(newest_first(s, false).map_values(f) =~= Seq::<i64>::empty());
    }
}

} // verus!
