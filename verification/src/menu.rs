//! The tray menu: the ids of its items, what a clicked id asks for, and its layout.
//!
//! An entry's submenu holds three items whose ids are
//! `{hist|pin}_sub_{entry id}_{paste|pin|del}`; `clear_history`, `open_settings` and `quit`
//! are the fixed items.
use vstd::prelude::*;
use crate::history::{first_n, has_id, listing, with_pin};
use crate::storage::StorageService;
use crate::models::{ClipboardEntry, title_text};
use crate::numbers::{decimal_text, i64_text, lemma_decimal_text_chars, lemma_parse_decimal, parse_i64,
    parse_i64_text};
use crate::text::{chars_of, string_of};

verus! {

broadcast use vstd::string::group_string_axioms;

/// How many characters of an entry the menu shows as its title.
pub const ITEM_DISPLAY_LEN: usize = 40;

/// What an entry's submenu item does.
#[derive(Debug, Clone, Copy, PartialEq, Eq, Structural)]
pub enum EntryAction {
    Paste,
    Pin,
    Delete,
}

/// What a click on a menu item asks for.
#[derive(Debug, Clone, Copy, PartialEq, Eq, Structural)]
pub enum MenuCommand {
    Quit,
    ClearHistory,
    OpenSettings,
    /// An action on the history entry with the given id.
    Entry(i64, EntryAction),
    /// An entry item with an action word that is not known.
    UnknownAction(i64),
    /// An id that names no command.
    Unrecognized,
}

/// The last word of an entry item's id.
pub open spec fn action_word(a: EntryAction) -> Seq<char> {
    match a {
        EntryAction::Paste => "paste"@,
        EntryAction::Pin => "pin"@,
        EntryAction::Delete => "del"@,
    }
}

/// The action that a word names.
pub open spec fn action_of_word(w: Seq<char>) -> Option<EntryAction> {
    if w == "paste"@ {
        Some(EntryAction::Paste)
    } else if w == "pin"@ {
        Some(EntryAction::Pin)
    } else if w == "del"@ {
        Some(EntryAction::Delete)
    } else {
        None
    }
}

/// The first word of an entry item's id: `pin` in the pinned part of the menu, `hist` in the
/// others.
pub open spec fn item_prefix(pinned: bool) -> Seq<char> {
    if pinned {
        "pin"@
    } else {
        "hist"@
    }
}

/// The id of the item that applies `action` to the entry with id `id`.
pub open spec fn item_id(pinned: bool, id: i64, action: EntryAction) -> Seq<char> {
    item_prefix(pinned) + "_sub_"@ + decimal_text(id as int) + "_"@ + action_word(action)
}

/// `p` begins `s`.
pub open spec fn starts_with(s: Seq<char>, p: Seq<char>) -> bool {
    p.len() <= s.len() && s.take(p.len() as int) == p
}

/// The position of the first `c` in `s`, or -1.
pub open spec fn index_of_char(s: Seq<char>, c: char) -> int
    decreases s.len(),
{
    if s.len() == 0 {
        -1
    } else if s[0] == c {
        0
    } else {
        let r = index_of_char(s.drop_first(), c);
        if r < 0 {
            -1
        } else {
            r + 1
        }
    }
}

/// What the text after an entry item's `{hist|pin}_sub_` asks for: an id, a `_`, an action.
pub open spec fn entry_command(rest: Seq<char>) -> MenuCommand {
    let k = index_of_char(rest, '_');
    if k < 0 {
        MenuCommand::Unrecognized
    } else {
        match parse_i64_text(rest.take(k)) {
            None => MenuCommand::Unrecognized,
            Some(n) => match action_of_word(rest.skip(k + 1)) {
                Some(a) => MenuCommand::Entry(n, a),
                None => MenuCommand::UnknownAction(n),
            },
        }
    }
}

/// What a click on the item with id `s` asks for.
pub open spec fn menu_command(s: Seq<char>) -> MenuCommand {
    if s == "quit"@ {
        MenuCommand::Quit
    } else if s == "clear_history"@ {
        MenuCommand::ClearHistory
    } else if s == "open_settings"@ {
        MenuCommand::OpenSettings
    } else if starts_with(s, "hist_sub_"@) {
        entry_command(s.skip(9))
    } else if starts_with(s, "pin_sub_"@) {
        entry_command(s.skip(8))
    } else if starts_with(s, "hist_paste_"@) {
        paste_command(s.skip(11))
    } else if starts_with(s, "pin_paste_"@) {
        paste_command(s.skip(10))
    } else {
        MenuCommand::Unrecognized
    }
}

/// What the text after a direct paste item's `{hist|pin}_paste_` asks for: pasting the
/// entry whose id it is.
pub open spec fn paste_command(rest: Seq<char>) -> MenuCommand {
    match parse_i64_text(rest) {
        Some(n) => MenuCommand::Entry(n, EntryAction::Paste),
        None => MenuCommand::Unrecognized,
    }
}

/// The id of the item that pastes the entry with id `id` at once.
pub open spec fn direct_paste_id(pinned: bool, id: i64) -> Seq<char> {
    item_prefix(pinned) + "_paste_"@ + decimal_text(id as int)
}

/// The last word of the id of an item that applies `action`.
pub fn action_text(action: EntryAction) -> (s: &'static str)
    ensures
        s@ == action_word(action),
{
    match action {
        EntryAction::Paste => "paste",
        EntryAction::Pin => "pin",
        EntryAction::Delete => "del",
    }
}

/// The id of the item that applies `action` to the entry with id `id`.
pub fn entry_item_id(pinned: bool, id: i64, action: EntryAction) -> (s: String)
    ensures
        s@ == item_id(pinned, id, action),
{
    let mut s = if pinned {
        "pin".to_owned()
    } else {
        "hist".to_owned()
    };
    s.append("_sub_");
    let digits = i64_text(id);
    s.append(digits.as_str());
    s.append("_");
    s.append(action_text(action));
    s
}

/// The id of the item that pastes the entry with id `id` at once.
pub fn direct_paste_item_id(pinned: bool, id: i64) -> (s: String)
    ensures
        s@ == direct_paste_id(pinned, id),
{
    let mut s = if pinned {
        "pin".to_owned()
    } else {
        "hist".to_owned()
    };
    s.append("_paste_");
    let digits = i64_text(id);
    s.append(digits.as_str());
    s
}

/// Tests whether `p` begins `s`.
fn starts_with_chars(s: &Vec<char>, p: &Vec<char>) -> (b: bool)
    ensures
        b == starts_with(s@, p@),
{
    if p.len() > s.len() {
        return false;
    }
    let mut i: usize = 0;
    while i < p.len()
        invariant
            i <= p.len() <= s.len(),
            forall|j: int| 0 <= j < i ==> s@[j] == p@[j],
        decreases p.len() - i,
    {
        if s[i] != p[i] {
            assert(s@.take(p.len() as int)[i as int] != p@[i as int]);
            return false;
        }
        i += 1;
    }
    assert(s@.take(p.len() as int) == p@);
    true
}

proof fn lemma_index_of_char(s: Seq<char>, c: char, k: int)
    requires
        0 <= k <= s.len(),
        forall|j: int| 0 <= j < k ==> s[j] != c,
    ensures
        k < s.len() && s[k] == c ==> index_of_char(s, c) == k,
        k == s.len() ==> index_of_char(s, c) == -1,
    decreases k,
{
    if k > 0 {
        let t = s.drop_first();
        assert forall|j: int| 0 <= j < k - 1 implies t[j] != c by {
            assert(t[j] == s[j + 1]);
        }
        if k < s.len() {
            assert(t[k - 1] == s[k]);
        }
        lemma_index_of_char(t, c, k - 1);
    }
}

/// What the text `line[from..]` after an entry item's prefix asks for.
fn parse_entry_command(line: &Vec<char>, from: usize) -> (r: MenuCommand)
    requires
        from <= line.len(),
    ensures
        r == entry_command(line@.skip(from as int)),
{
    let ghost rest = line@.skip(from as int);
    let mut k = from;
    while k < line.len() && line[k] != '_'
        invariant
            from <= k <= line.len(),
            forall|j: int| from <= j < k ==> line@[j] != '_',
        decreases line.len() - k,
    {
        k += 1;
    }
    proof {
        assert forall|j: int| 0 <= j < k - from implies rest[j] != '_' by {
            assert(rest[j] == line@[j + from]);
        }
        if k < line.len() {
            assert(rest[k - from] == line@[k as int]);
        }
        lemma_index_of_char(rest, '_', k - from);
    }
    if k == line.len() {
        return MenuCommand::Unrecognized;
    }
    let id_text = string_of(line, from, k);
    assert(id_text@ == rest.take(k - from));
    match parse_i64(id_text.as_str()) {
        None => MenuCommand::Unrecognized,
        Some(n) => {
            let word = string_of(line, k + 1, line.len());
            assert(word@ == rest.skip(k - from + 1));
            proof {
                reveal_strlit("paste");
                reveal_strlit("pin");
                reveal_strlit("del");
            }
            if word == "paste".to_owned() {
                MenuCommand::Entry(n, EntryAction::Paste)
            } else if word == "pin".to_owned() {
                MenuCommand::Entry(n, EntryAction::Pin)
            } else if word == "del".to_owned() {
                MenuCommand::Entry(n, EntryAction::Delete)
            } else {
                MenuCommand::UnknownAction(n)
            }
        },
    }
}

/// What the text `line[from..]` after a direct paste item's prefix asks for.
fn parse_paste_command(line: &Vec<char>, from: usize) -> (r: MenuCommand)
    requires
        from <= line.len(),
    ensures
        r == paste_command(line@.skip(from as int)),
{
    let id_text = string_of(line, from, line.len());
    assert(id_text@ == line@.skip(from as int));
    match parse_i64(id_text.as_str()) {
        Some(n) => MenuCommand::Entry(n, EntryAction::Paste),
        None => MenuCommand::Unrecognized,
    }
}

/// What a click on the menu item with id `id` asks for.
pub fn parse_menu_event(id: &str) -> (r: MenuCommand)
    ensures
        r == menu_command(id@),
{
    let whole = id.to_owned();
    if whole == "quit".to_owned() {
        return MenuCommand::Quit;
    }
    if whole == "clear_history".to_owned() {
        return MenuCommand::ClearHistory;
    }
    if whole == "open_settings".to_owned() {
        return MenuCommand::OpenSettings;
    }
    let line = chars_of(id);
    let hist = chars_of("hist_sub_");
    let pin = chars_of("pin_sub_");
    let hist_paste = chars_of("hist_paste_");
    let pin_paste = chars_of("pin_paste_");
    proof {
        reveal_strlit("hist_sub_");
        reveal_strlit("pin_sub_");
        reveal_strlit("hist_paste_");
        reveal_strlit("pin_paste_");
    }
    if starts_with_chars(&line, &hist) {
        parse_entry_command(&line, 9)
    } else if starts_with_chars(&line, &pin) {
        parse_entry_command(&line, 8)
    } else if starts_with_chars(&line, &hist_paste) {
        parse_paste_command(&line, 11)
    } else if starts_with_chars(&line, &pin_paste) {
        parse_paste_command(&line, 10)
    } else {
        MenuCommand::Unrecognized
    }
}

/// One item of the tray menu, in the order the menu shows them.
#[derive(Debug)]
pub enum MenuNode {
    /// An entry's submenu.
    Entry(EntryMenu),
    /// The submenu with this title holding the submenus of all unpinned entries.
    AllHistory(String, Vec<EntryMenu>),
    /// A separator line.
    Separator,
    /// A plain item with this id and label.
    Command(String, String),
}

/// `n` is the plain item with id `id` and label `label`.
pub open spec fn is_command(n: MenuNode, id: Seq<char>, label: Seq<char>) -> bool {
    n matches MenuNode::Command(i, t) && i@ == id && t@ == label
}

/// `nodes` is the whole tray menu around the history part `l`: the pinned entries, a
/// separator when there are any, the recent entries, then (when there are more unpinned
/// entries than shown) a separator and the "all history" submenu; then a separator, the
/// clear-history item, a separator, the settings item and the quit item.
pub open spec fn arranges(nodes: Seq<MenuNode>, l: MenuLayout) -> bool {
    let p = l.pinned@.len() as int;
    let sp = if p > 0 { 1int } else { 0int };
    let r = l.recent@.len() as int;
    let b = p + sp + r;
    let c = b + if l.all_history is Some { 2int } else { 0int };
    &&& nodes.len() == c + 5
    &&& forall|i: int| 0 <= i < p ==> nodes[i] == MenuNode::Entry(#[trigger] l.pinned@[i])
    &&& p > 0 ==> nodes[p] is Separator
    &&& forall|i: int| 0 <= i < r ==> nodes[p + sp + i] == MenuNode::Entry(#[trigger] l.recent@[i])
    &&& (l.all_history matches Some(all) ==> nodes[b] is Separator && (nodes[b + 1] matches MenuNode::AllHistory(t, v)
        && t@ == "すべての履歴を表示"@ && v == all))
    &&& nodes[c] is Separator
    &&& is_command(nodes[c + 1], "clear_history"@, "履歴をすべて削除"@)
    &&& nodes[c + 2] is Separator
    &&& is_command(nodes[c + 3], "open_settings"@, "設定..."@)
    &&& is_command(nodes[c + 4], "quit"@, "終了"@)
}

/// Appends one entry node per submenu of `items`, in order.
fn push_entries(nodes: &mut Vec<MenuNode>, items: Vec<EntryMenu>)
    ensures
        final(nodes)@.len() == old(nodes)@.len() + items@.len(),
        forall|i: int| 0 <= i < old(nodes)@.len() ==> final(nodes)@[i] == old(nodes)@[i],
        forall|i: int|
            0 <= i < items@.len() ==> final(nodes)@[old(nodes)@.len() + i] == MenuNode::Entry(
                #[trigger] items@[i],
            ),
{
    let mut rest = items;
    let ghost orig = rest@;
    let ghost start = nodes@;
    let n = rest.len();
    let mut k: usize = 0;
    while rest.len() > 0
        invariant
            orig.len() == n,
            k + rest@.len() == orig.len(),
            rest@ == orig.skip(k as int),
            nodes@.len() == start.len() + k,
            forall|i: int| 0 <= i < start.len() ==> nodes@[i] == start[i],
            forall|i: int| 0 <= i < k ==> nodes@[start.len() + i] == MenuNode::Entry(#[trigger] orig[i]),
        decreases rest.len(),
    {
        let m = rest.remove(0);
        assert(m == orig[k as int]);
        nodes.push(MenuNode::Entry(m));
        assert(orig.skip(k as int).remove(0) == orig.skip(k + 1));
        k += 1;
    }
}

/// The whole tray menu around the history part `l`, in the order the menu shows it.
pub fn menu_items(l: MenuLayout) -> (nodes: Vec<MenuNode>)
    ensures
        arranges(nodes@, l),
{
    let ghost gl = l;
    let MenuLayout { pinned, recent, all_history } = l;
    let mut nodes: Vec<MenuNode> = Vec::new();
    let has_pinned = pinned.len() > 0;
    push_entries(&mut nodes, pinned);
    if has_pinned {
        nodes.push(MenuNode::Separator);
    }
    push_entries(&mut nodes, recent);
    match all_history {
        Some(all) => {
            nodes.push(MenuNode::Separator);
            nodes.push(MenuNode::AllHistory("すべての履歴を表示".to_owned(), all));
        },
        None => {},
    }
    nodes.push(MenuNode::Separator);
    nodes.push(MenuNode::Command("clear_history".to_owned(), "履歴をすべて削除".to_owned()));
    nodes.push(MenuNode::Separator);
    nodes.push(MenuNode::Command("open_settings".to_owned(), "設定...".to_owned()));
    nodes.push(MenuNode::Command("quit".to_owned(), "終了".to_owned()));
    nodes
}

/// The number of history entries the tray asks for, given the display count.
pub open spec fn tray_limit(display_count: i64) -> i64 {
    if display_count <= i64::MAX - 50 {
        (display_count + 50) as i64
    } else {
        (display_count + 50 - 0x1_0000_0000_0000_0000) as i64
    }
}

/// The history that the tray menu is built from: as listed, the display count and fifty
/// more entries.
pub fn tray_history(storage: &StorageService) -> (r: Vec<ClipboardEntry>)
    ensures
        r@ == first_n(listing(storage.history()), tray_limit(storage.menu_display_count())),
{
    let n = tray_history_limit(storage.get_menu_display_count());
    storage.get_history(n)
}

/// The history part of the tray menu for `history`, as many unpinned entries shown directly
/// as the `menu_display_count` setting says.
pub fn build_menu(storage: &StorageService, history: &Vec<ClipboardEntry>) -> (l: MenuLayout)
    ensures
        lays_out(l, history@, storage.menu_display_count() as usize),
{
    let count = display_limit(storage.get_menu_display_count());
    menu_layout(history, count)
}

/// The history that the hotkey menu is built from: as listed, as many entries as the
/// history limit.
pub fn hotkey_history(storage: &StorageService) -> (r: Vec<ClipboardEntry>)
    ensures
        r@ == first_n(listing(storage.history()), storage.history_limit()),
{
    let n = storage.get_history_limit();
    storage.get_history(n)
}

/// The text that choosing "paste" on the entry with id `id` pastes: that entry's content,
/// wherever it stands in the history.
pub fn paste_text(storage: &StorageService, id: i64) -> (r: Option<String>)
    requires
        storage.wf(),
    ensures
        r is Some <==> has_id(storage.history(), id),
        forall|i: int|
            0 <= i < storage.history().len() && #[trigger] storage.history()[i].id == id ==> r
                == Some(storage.history()[i].content),
{
    match storage.get_history_by_id(id) {
        Some(e) => Some(e.content),
        None => None,
    }
}

/// Every direct paste item's id reads back, when clicked, as pasting its entry.
pub proof fn lemma_direct_paste_roundtrip(pinned: bool, id: i64)
    ensures
        menu_command(direct_paste_id(pinned, id)) == MenuCommand::Entry(id, EntryAction::Paste),
{
    reveal_strlit("pin");
    reveal_strlit("hist");
    reveal_strlit("_paste_");
    reveal_strlit("quit");
    reveal_strlit("clear_history");
    reveal_strlit("open_settings");
    reveal_strlit("hist_sub_");
    reveal_strlit("pin_sub_");
    reveal_strlit("hist_paste_");
    reveal_strlit("pin_paste_");
    let d = decimal_text(id as int);
    let s = direct_paste_id(pinned, id);
    let head = item_prefix(pinned) + "_paste_"@;
    lemma_decimal_text_chars(id as int);
    lemma_parse_decimal(id);
    assert(s == head + d);
    assert(s[0] == head[0]);
    assert(s != "quit"@);
    assert(s != "clear_history"@);
    assert(s != "open_settings"@);
    if pinned {
        assert(!starts_with(s, "hist_sub_"@)) by {
            assert(s.take(9)[0] != "hist_sub_"@[0]);
        }
        assert(!starts_with(s, "pin_sub_"@)) by {
            assert(s.take(8)[4] != "pin_sub_"@[4]);
        }
        assert(!starts_with(s, "hist_paste_"@)) by {
            if s.len() >= 11 {
                assert(s.take(11)[0] != "hist_paste_"@[0]);
            }
        }
        assert(s.take(10) == "pin_paste_"@);
        assert(s.skip(10) == d);
    } else {
        assert(!starts_with(s, "hist_sub_"@)) by {
            assert(s.take(9)[5] != "hist_sub_"@[5]);
        }
        assert(!starts_with(s, "pin_sub_"@)) by {
            assert(s.take(8)[0] != "pin_sub_"@[0]);
        }
        assert(s.take(11) == "hist_paste_"@);
        assert(s.skip(11) == d);
    }
}

/// Every entry item's id reads back, when clicked, as its action on its entry.
pub proof fn lemma_item_id_roundtrip(pinned: bool, id: i64, action: EntryAction)
    ensures
        menu_command(item_id(pinned, id, action)) == MenuCommand::Entry(id, action),
{
    reveal_strlit("pin");
    reveal_strlit("hist");
    reveal_strlit("_sub_");
    reveal_strlit("_");
    reveal_strlit("paste");
    reveal_strlit("del");
    reveal_strlit("quit");
    reveal_strlit("clear_history");
    reveal_strlit("open_settings");
    reveal_strlit("hist_sub_");
    reveal_strlit("pin_sub_");
    let d = decimal_text(id as int);
    let w = action_word(action);
    let s = item_id(pinned, id, action);
    let head = item_prefix(pinned) + "_sub_"@;
    let rest = d + "_"@ + w;
    lemma_decimal_text_chars(id as int);
    lemma_parse_decimal(id);
    assert(s == head + rest);
    assert(s[0] == head[0]);
    assert(s != "quit"@);
    assert(s != "clear_history"@);
    assert(s != "open_settings"@);
    if pinned {
        assert(s.take(8) == "pin_sub_"@);
        assert(!starts_with(s, "hist_sub_"@)) by {
            assert(s.take(9)[0] != "hist_sub_"@[0]);
        }
        assert(s.skip(8) == rest);
    } else {
        assert(s.take(9) == "hist_sub_"@);
        assert(s.skip(9) == rest);
    }
    assert forall|j: int| 0 <= j < d.len() implies rest[j] != '_' by {
        assert(rest[j] == d[j]);
    }
    assert(rest[d.len() as int] == '_');
    lemma_index_of_char(rest, '_', d.len() as int);
    assert(rest.take(d.len() as int) == d);
    assert(rest.skip(d.len() as int + 1) == w);
    assert("pin"@ != "paste"@) by {
        assert("pin"@.len() != "paste"@.len());
    }
    assert("del"@ != "paste"@) by {
        assert("del"@.len() != "paste"@.len());
    }
    assert("del"@ != "pin"@) by {
        assert("del"@[0] != "pin"@[0]);
    }
    assert(action_of_word(w) == Some(action));
    assert(index_of_char(rest, '_') == d.len());
    assert(parse_i64_text(rest.take(d.len() as int)) == Some(id));
    assert(entry_command(rest) == MenuCommand::Entry(id, action));
}

/// The label of the item that pins or unpins an entry.
pub open spec fn pin_label(pinned: bool) -> Seq<char> {
    if pinned {
        "📌 ピン留め解除"@
    } else {
        "📌 ピン留め"@
    }
}

/// The submenu of one history entry: its title and its three items.
#[derive(Debug)]
pub struct EntryMenu {
    pub title: String,
    pub paste_id: String,
    pub pin_id: String,
    pub delete_id: String,
    pub pin_label: String,
}

/// The title of entry `e` in the menu: its display title, marked with a pin in the pinned
/// part.
pub open spec fn entry_title(e: ClipboardEntry, pinned: bool) -> Seq<char> {
    if pinned {
        "📌 "@ + title_text(e.content@, ITEM_DISPLAY_LEN as nat)
    } else {
        title_text(e.content@, ITEM_DISPLAY_LEN as nat)
    }
}

/// `m` is the submenu of entry `e`, shown in the pinned part of the menu or not.
pub open spec fn describes(m: EntryMenu, e: ClipboardEntry, pinned: bool) -> bool {
    &&& m.title@ == entry_title(e, pinned)
    &&& m.paste_id@ == item_id(pinned, e.id, EntryAction::Paste)
    &&& m.pin_id@ == item_id(pinned, e.id, EntryAction::Pin)
    &&& m.delete_id@ == item_id(pinned, e.id, EntryAction::Delete)
    &&& m.pin_label@ == pin_label(pinned)
}

/// `ms` are the submenus of the first `ms.len()` entries of `es`.
pub open spec fn describes_all(ms: Seq<EntryMenu>, es: Seq<ClipboardEntry>, pinned: bool) -> bool {
    &&& ms.len() <= es.len()
    &&& forall|i: int| 0 <= i < ms.len() ==> describes(#[trigger] ms[i], es[i], pinned)
}

/// The history part of the tray menu.
#[derive(Debug)]
pub struct MenuLayout {
    /// One submenu per pinned entry.
    pub pinned: Vec<EntryMenu>,
    /// The submenus of the first unpinned entries, as many as the menu shows directly.
    pub recent: Vec<EntryMenu>,
    /// The submenus of all unpinned entries, when there are more than the menu shows.
    pub all_history: Option<Vec<EntryMenu>>,
}

/// `l` is the history part of the menu for `history`, showing at most `display_count`
/// unpinned entries directly.
pub open spec fn lays_out(l: MenuLayout, history: Seq<ClipboardEntry>, display_count: usize) -> bool {
    &&& l.pinned@.len() == with_pin(history, true).len()
    &&& describes_all(l.pinned@, with_pin(history, true), true)
    &&& l.recent@.len() == if display_count < with_pin(history, false).len() {
        display_count as int
    } else {
        with_pin(history, false).len() as int
    }
    &&& describes_all(l.recent@, with_pin(history, false), false)
    &&& (l.all_history is Some <==> with_pin(history, false).len() > display_count)
    &&& (l.all_history matches Some(all) ==> all@.len() == with_pin(history, false).len()
        && describes_all(all@, with_pin(history, false), false))
}

/// The submenu of entry `e`.
pub fn entry_menu(e: &ClipboardEntry, pinned: bool) -> (m: EntryMenu)
    ensures
        describes(m, *e, pinned),
{
    let label = if pinned {
        "📌 ピン留め解除".to_owned()
    } else {
        "📌 ピン留め".to_owned()
    };
    let plain = e.display_title(ITEM_DISPLAY_LEN);
    let title = if pinned {
        let mut t = "📌 ".to_owned();
        t.append(plain.as_str());
        t
    } else {
        plain
    };
    EntryMenu {
        title,
        paste_id: entry_item_id(pinned, e.id, EntryAction::Paste),
        pin_id: entry_item_id(pinned, e.id, EntryAction::Pin),
        delete_id: entry_item_id(pinned, e.id, EntryAction::Delete),
        pin_label: label,
    }
}

/// The entries of `entries` whose pin flag is `pinned`, in order, copied.
fn select_pinned(entries: &Vec<ClipboardEntry>, pinned: bool) -> (out: Vec<ClipboardEntry>)
    ensures
        out@ == with_pin(entries@, pinned),
{
    let mut out: Vec<ClipboardEntry> = Vec::new();
    let mut i: usize = 0;
    while i < entries.len()
        invariant
            i <= entries.len(),
            out@ == with_pin(entries@.take(i as int), pinned),
        decreases entries.len() - i,
    {
        assert(entries@.take(i + 1).drop_last() == entries@.take(i as int));
        assert(entries@.take(i + 1).last() == entries@[i as int]);
        if entries[i].is_pinned == pinned {
            out.push(entries[i].clone());
        }
        i += 1;
    }
    assert(entries@.take(entries.len() as int) == entries@);
    out
}

/// The submenus of the first `count` entries of `entries` (all of them if there are fewer).
fn entry_menus(entries: &Vec<ClipboardEntry>, pinned: bool, count: usize) -> (out: Vec<EntryMenu>)
    ensures
        out@.len() == if count < entries.len() {
            count as int
        } else {
            entries.len() as int
        },
        describes_all(out@, entries@, pinned),
{
    let n = if count < entries.len() {
        count
    } else {
        entries.len()
    };
    let mut out: Vec<EntryMenu> = Vec::new();
    let mut i: usize = 0;
    while i < n
        invariant
            i <= n <= entries.len(),
            out@.len() == i,
            forall|j: int| 0 <= j < i ==> describes(#[trigger] out@[j], entries@[j], pinned),
        decreases n - i,
    {
        out.push(entry_menu(&entries[i], pinned));
        i += 1;
    }
    out
}

/// The history part of the tray menu for `history` (as listed), showing at most
/// `display_count` unpinned entries directly and all of them in a submenu when there are
/// more.
pub fn menu_layout(history: &Vec<ClipboardEntry>, display_count: usize) -> (l: MenuLayout)
    ensures
        lays_out(l, history@, display_count),
{
    let pinned = select_pinned(history, true);
    let unpinned = select_pinned(history, false);
    let pinned_menus = entry_menus(&pinned, true, pinned.len());
    let recent = entry_menus(&unpinned, false, display_count);
    let all_history = if unpinned.len() > display_count {
        Some(entry_menus(&unpinned, false, unpinned.len()))
    } else {
        None
    };
    MenuLayout { pinned: pinned_menus, recent, all_history }
}

/// The number of unpinned entries the menu shows directly, from the `menu_display_count`
/// setting converted to a count as `as usize` does (a negative value becomes a huge count).
pub fn display_limit(count: i64) -> (n: usize)
    ensures
        n == count as usize,
{
    count as usize
}

/// How many history entries the tray asks for: the display count and fifty more for the
/// pinned entries, wrapping around as integer overflow does in a release build.
pub fn tray_history_limit(display_count: i64) -> (n: i64)
    ensures
        n == tray_limit(display_count),
{
    display_count.wrapping_add(50)
}

} // verus!
