//! The records that the clipboard manager stores: history entries, snippets and their folders.
use vstd::prelude::*;
use crate::text::{chars_of, fold_lines, is_one_line, is_space, is_trimmed, lemma_single_line,
    lemma_single_line_joins, lemma_trim, single_line, string_of, trim, trim_bounds};

verus! {

/// One recorded clipboard text.
#[derive(Debug)]
pub struct ClipboardEntry {
    pub id: i64,
    pub content: String,
    pub created_at: String,
    pub is_pinned: bool,
}

/// A stored text with a title, optionally filed in a folder.
#[derive(Debug)]
pub struct Snippet {
    pub id: i64,
    pub folder_id: Option<i64>,
    pub title: String,
    pub content: String,
    pub sort_order: i64,
    pub created_at: String,
}

/// A named group of snippets.
#[derive(Debug)]
pub struct SnippetFolder {
    pub id: i64,
    pub name: String,
    pub sort_order: i64,
}

/// The one-line menu title of a text: lines folded, surrounding whitespace trimmed, and at
/// most `max_len` characters kept, with an ellipsis added when characters were cut.
pub open spec fn title_text(content: Seq<char>, max_len: nat) -> Seq<char> {
    let t = trim(single_line(content));
    if t.len() <= max_len {
        t
    } else {
        t.take(max_len as int).push('\u{2026}')
    }
}

impl Clone for ClipboardEntry {
    fn clone(&self) -> (r: Self)
        ensures
            r == *self,
    {
        ClipboardEntry {
            id: self.id,
            content: self.content.clone(),
            created_at: self.created_at.clone(),
            is_pinned: self.is_pinned,
        }
    }
}

impl Clone for Snippet {
    fn clone(&self) -> (r: Self)
        ensures
            r == *self,
    {
        Snippet {
            id: self.id,
            folder_id: self.folder_id,
            title: self.title.clone(),
            content: self.content.clone(),
            sort_order: self.sort_order,
            created_at: self.created_at.clone(),
        }
    }
}

impl Clone for SnippetFolder {
    fn clone(&self) -> (r: Self)
        ensures
            r == *self,
    {
        SnippetFolder { id: self.id, name: self.name.clone(), sort_order: self.sort_order }
    }
}

impl ClipboardEntry {
    /// The entry's content as a one-line title of at most `max_len` characters
    /// (plus an ellipsis when it was cut).
    pub fn display_title(&self, max_len: usize) -> (r: String)
        ensures
            r@ == title_text(self.content@, max_len as nat),
    {
        let raw = chars_of(self.content.as_str());
        let line = fold_lines(&raw);
        let (a, b) = trim_bounds(&line);
        let count = b - a;
        if count <= max_len {
            string_of(&line, a, b)
        } else {
            let mut out = string_of(&line, a, a + max_len);
            out.push('\u{2026}');
            proof {
                let t = trim(single_line(self.content@));
                assert(t.take(max_len as int) == line@.subrange(a as int, a + max_len));
            }
            out
        }
    }
}

/// A title keeps at most `max_len` characters of the folded, trimmed text: all of it when it
/// fits, else its first `max_len` characters followed by an ellipsis.
pub proof fn lemma_title_length(content: Seq<char>, max_len: nat)
    ensures
        title_text(content, max_len).len() <= max_len + 1,
        trim(single_line(content)).len() <= max_len ==> title_text(content, max_len) == trim(
            single_line(content),
        ),
        trim(single_line(content)).len() > max_len ==> title_text(content, max_len).len() == max_len
            + 1 && title_text(content, max_len).last() == '\u{2026}' && title_text(
            content,
            max_len,
        ).take(max_len as int) == trim(single_line(content)).take(max_len as int),
{
    let t = trim(single_line(content));
    if t.len() > max_len {
        assert(t.take(max_len as int).push('\u{2026}').take(max_len as int) == t.take(max_len as int));
    }
}

/// A title is its own title: titling it again, with the same length, changes nothing.
pub proof fn lemma_title_of_title(content: Seq<char>, max_len: nat)
    ensures
        title_text(title_text(content, max_len), max_len) == title_text(content, max_len),
{
    let line = single_line(content);
    let t = trim(line);
    lemma_single_line(content);
    lemma_trim(line);
    let (a, b) = choose|a: int, b: int| 0 <= a <= b <= line.len() && t == line.subrange(a, b);
    assert(is_one_line(t)) by {
        assert forall|i: int| 0 <= i < t.len() implies #[trigger] t[i] != '\n' && t[i] != '\r' by {
            assert(t[i] == line[a + i]);
        }
    }
    let u = title_text(content, max_len);
    if t.len() <= max_len {
        lemma_single_line(t);
        lemma_trim(t);
    } else {
        let e = '\u{2026}';
        assert(!is_space(e));
        assert(u == t.take(max_len as int).push(e));
        assert(is_one_line(u)) by {
            assert forall|i: int| 0 <= i < u.len() implies #[trigger] u[i] != '\n' && u[i] != '\r' by {
                if i < max_len {
                    assert(u[i] == t[i]);
                }
            }
        }
        assert(is_trimmed(u)) by {
            if max_len > 0 {
                assert(u[0] == t[0]);
            }
        }
        lemma_single_line(u);
        lemma_trim(u);
        assert(u.take(max_len as int) == t.take(max_len as int));
    }
}

/// The title of two lines joined by a line feed, or by a carriage return and a line feed, is
/// the two lines joined by one space, where that joined text has no whitespace at either end
/// and fits in `max_len`.
pub proof fn lemma_title_joins_lines(a: Seq<char>, b: Seq<char>, max_len: nat)
    requires
        is_one_line(a),
        is_one_line(b),
        is_trimmed(a.push(' ') + b),
        (a.push(' ') + b).len() <= max_len,
    ensures
        title_text(a.push('\n') + b, max_len) == a.push(' ') + b,
        title_text(a.push('\r').push('\n') + b, max_len) == a.push(' ') + b,
{
    lemma_single_line_joins(a, b);
    lemma_trim(a.push(' ') + b);
}

} // verus!
