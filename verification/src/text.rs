//! Character-level text helpers: Unicode whitespace, line folding and trimming.
use vstd::prelude::*;

verus! {

broadcast use vstd::string::group_string_axioms;

/// Appending one character to a `String` adds it at the end of its character sequence.
pub assume_specification[ String::push ](string: &mut String, ch: char)
    ensures
        final(string)@ == old(string)@.push(ch),
;

/// Unicode `White_Space` property, the set that `char::is_whitespace` tests.
pub open spec fn is_space(c: char) -> bool {
    let u = c as u32;
    ||| 0x9 <= u <= 0xD
    ||| u == 0x20
    ||| u == 0x85
    ||| u == 0xA0
    ||| u == 0x1680
    ||| 0x2000 <= u <= 0x200A
    ||| u == 0x2028
    ||| u == 0x2029
    ||| u == 0x202F
    ||| u == 0x205F
    ||| u == 0x3000
}

/// `text` with every line feed replaced by a space and every carriage return removed.
pub open spec fn single_line(text: Seq<char>) -> Seq<char>
    decreases text.len(),
{
    if text.len() == 0 {
        text
    } else {
        let rest = single_line(text.drop_last());
        let c = text.last();
        if c == '\n' {
            rest.push(' ')
        } else if c == '\r' {
            rest
        } else {
            rest.push(c)
        }
    }
}

/// `text` without its leading whitespace.
pub open spec fn trim_start(text: Seq<char>) -> Seq<char>
    decreases text.len(),
{
    if text.len() > 0 && is_space(text[0]) {
        trim_start(text.drop_first())
    } else {
        text
    }
}

/// `text` without its trailing whitespace.
pub open spec fn trim_end(text: Seq<char>) -> Seq<char>
    decreases text.len(),
{
    if text.len() > 0 && is_space(text.last()) {
        trim_end(text.drop_last())
    } else {
        text
    }
}

/// `text` without leading and trailing whitespace.
pub open spec fn trim(text: Seq<char>) -> Seq<char> {
    trim_end(trim_start(text))
}

/// Tests a character for membership in Unicode `White_Space`.
pub fn is_whitespace(c: char) -> (b: bool)
    ensures
        b == is_space(c),
{
    let u = c as u32;
    (0x9 <= u && u <= 0xD) || u == 0x20 || u == 0x85 || u == 0xA0 || u == 0x1680 || (0x2000 <= u
        && u <= 0x200A) || u == 0x2028 || u == 0x2029 || u == 0x202F || u == 0x205F || u == 0x3000
}

/// The characters of `s`, in order.
pub fn chars_of(s: &str) -> (v: Vec<char>)
    ensures
        v@ == s@,
{
    let mut v: Vec<char> = Vec::new();
    for c in it: s.chars()
        invariant
            v@ == it.seq().take(it.index() as int),
    {
        v.push(c);
    }
    v
}

/// The string made of `chars[from..to]`.
pub fn string_of(chars: &Vec<char>, from: usize, to: usize) -> (s: String)
    requires
        from <= to <= chars.len(),
    ensures
        s@ == chars@.subrange(from as int, to as int),
{
    let mut s = String::new();
    let mut j = from;
    while j < to
        invariant
            from <= j <= to <= chars.len(),
            s@ == chars@.subrange(from as int, j as int),
        decreases to - j,
    {
        s.push(chars[j]);
        assert(chars@.subrange(from as int, j + 1) == chars@.subrange(from as int, j as int).push(
            chars@[j as int],
        ));
        j += 1;
    }
    s
}

/// Folds `text` onto one line: line feeds become spaces, carriage returns are dropped.
pub fn fold_lines(text: &Vec<char>) -> (out: Vec<char>)
    ensures
        out@ == single_line(text@),
{
    let mut out: Vec<char> = Vec::new();
    let mut i: usize = 0;
    while i < text.len()
        invariant
            i <= text.len(),
            out@ == single_line(text@.take(i as int)),
        decreases text.len() - i,
    {
        let c = text[i];
        assert(text@.take(i + 1).drop_last() == text@.take(i as int));
        if c == '\n' {
            out.push(' ');
        } else if c != '\r' {
            out.push(c);
        }
        i += 1;
    }
    assert(text@.take(text.len() as int) == text@);
    out
}

proof fn lemma_trim_start_skip(text: Seq<char>, a: int)
    requires
        0 <= a <= text.len(),
        forall|i: int| 0 <= i < a ==> is_space(#[trigger] text[i]),
        a == text.len() || !is_space(text[a]),
    ensures
        trim_start(text) == text.skip(a),
    decreases a,
{
    if a > 0 {
        let rest = text.drop_first();
        assert forall|i: int| 0 <= i < a - 1 implies is_space(#[trigger] rest[i]) by {
            assert(rest[i] == text[i + 1]);
        }
        if a - 1 < rest.len() {
            assert(rest[a - 1] == text[a]);
        }
        lemma_trim_start_skip(rest, a - 1);
        assert(rest.skip(a - 1) == text.skip(a));
    } else {
        assert(text.skip(0) == text);
    }
}

proof fn lemma_trim_end_take(text: Seq<char>, b: int)
    requires
        0 <= b <= text.len(),
        forall|i: int| b <= i < text.len() ==> is_space(#[trigger] text[i]),
        b == 0 || !is_space(text[b - 1]),
    ensures
        trim_end(text) == text.take(b),
    decreases text.len() - b,
{
    if b < text.len() {
        let rest = text.drop_last();
        assert forall|i: int| b <= i < rest.len() implies is_space(#[trigger] rest[i]) by {
            assert(rest[i] == text[i]);
        }
        if b > 0 {
            assert(rest[b - 1] == text[b - 1]);
        }
        lemma_trim_end_take(rest, b);
        assert(rest.take(b) == text.take(b));
    } else {
        assert(text.take(b) == text);
    }
}

/// Finds the bounds of `text` without its surrounding whitespace.
pub fn trim_bounds(text: &Vec<char>) -> (r: (usize, usize))
    ensures
        r.0 <= r.1 <= text.len(),
        trim(text@) == text@.subrange(r.0 as int, r.1 as int),
{
    let len = text.len();
    let mut a: usize = 0;
    while a < len && is_whitespace(text[a])
        invariant
            a <= len == text.len(),
            forall|i: int| 0 <= i < a ==> is_space(#[trigger] text@[i]),
        decreases len - a,
    {
        a += 1;
    }
    proof {
        lemma_trim_start_skip(text@, a as int);
    }
    let mut b: usize = len;
    while b > a && is_whitespace(text[b - 1])
        invariant
            a <= b <= len == text.len(),
            forall|i: int| b <= i < len ==> is_space(#[trigger] text@[i]),
        decreases b - a,
    {
        b -= 1;
    }
    proof {
        let t = text@.skip(a as int);
        let k = b - a;
        assert forall|i: int| k <= i < t.len() implies is_space(#[trigger] t[i]) by {
            assert(t[i] == text@[i + a]);
        }
        if k > 0 {
            assert(t[k - 1] == text@[b - 1]);
        }
        lemma_trim_end_take(t, k as int);
        assert(t.take(k as int) == text@.subrange(a as int, b as int));
    }
    (a, b)
}

/// `text` holds no line feed and no carriage return.
pub open spec fn is_one_line(text: Seq<char>) -> bool {
    forall|i: int| 0 <= i < text.len() ==> #[trigger] text[i] != '\n' && text[i] != '\r'
}

/// `text` neither begins nor ends with whitespace.
pub open spec fn is_trimmed(text: Seq<char>) -> bool {
    text.len() == 0 || (!is_space(text[0]) && !is_space(text.last()))
}

/// Folding lines gives one line, and leaves a line that is already one line as it is.
pub proof fn lemma_single_line(text: Seq<char>)
    ensures
        is_one_line(single_line(text)),
        is_one_line(text) ==> single_line(text) == text,
    decreases text.len(),
{
    if text.len() > 0 {
        let p = text.drop_last();
        lemma_single_line(p);
        let r = single_line(p);
        let c = text.last();
        if c == '\n' {
            assert forall|i: int| 0 <= i < r.push(' ').len() implies #[trigger] r.push(' ')[i] != '\n'
                && r.push(' ')[i] != '\r' by {
                if i < r.len() {
                    assert(r.push(' ')[i] == r[i]);
                }
            }
        } else if c != '\r' {
            assert forall|i: int| 0 <= i < r.push(c).len() implies #[trigger] r.push(c)[i] != '\n'
                && r.push(c)[i] != '\r' by {
                if i < r.len() {
                    assert(r.push(c)[i] == r[i]);
                }
            }
        }
        if is_one_line(text) {
            assert(is_one_line(p)) by {
                assert forall|i: int| 0 <= i < p.len() implies #[trigger] p[i] != '\n' && p[i] != '\r' by {
                    assert(p[i] == text[i]);
                }
            }
            assert(c == text[text.len() - 1]);
            assert(r.push(c) == text);
        }
    }
}

/// Folding lines treats each character on its own: a line feed becomes one space, a carriage
/// return is dropped, and any other character is kept.
pub proof fn lemma_single_line_push(text: Seq<char>, c: char)
    ensures
        c == '\n' ==> single_line(text.push(c)) == single_line(text).push(' '),
        c == '\r' ==> single_line(text.push(c)) == single_line(text),
        c != '\n' && c != '\r' ==> single_line(text.push(c)) == single_line(text).push(c),
{
    assert(text.push(c).drop_last() == text);
}

/// Folding the lines of two texts written one after the other folds each of them:
/// `single_line(a + b) == single_line(a) + single_line(b)`.
pub proof fn lemma_single_line_append(a: Seq<char>, b: Seq<char>)
    ensures
        single_line(a + b) == single_line(a) + single_line(b),
    decreases b.len(),
{
    if b.len() == 0 {
        assert(a + b == a);
        assert(single_line(a) + single_line(b) == single_line(a));
    } else {
        let q = b.drop_last();
        let c = b.last();
        lemma_single_line_append(a, q);
        assert((a + b).drop_last() == a + q);
        assert((a + b).last() == c);
        let x = single_line(a);
        let y = single_line(q);
        assert((x + y).push(' ') == x + y.push(' '));
        assert((x + y).push(c) == x + y.push(c));
    }
}

/// Two lines joined by a line feed, or by a carriage return and a line feed, fold into the
/// two lines joined by one space.
pub proof fn lemma_single_line_joins(a: Seq<char>, b: Seq<char>)
    requires
        is_one_line(a),
        is_one_line(b),
    ensures
        single_line(a.push('\n') + b) == a.push(' ') + b,
        single_line(a.push('\r').push('\n') + b) == a.push(' ') + b,
{
    lemma_single_line(a);
    lemma_single_line(b);
    lemma_single_line_append(a.push('\n'), b);
    lemma_single_line_push(a, '\n');
    lemma_single_line_append(a.push('\r').push('\n'), b);
    lemma_single_line_push(a.push('\r'), '\n');
    lemma_single_line_push(a, '\r');
}

proof fn lemma_trim_start_shape(text: Seq<char>)
    ensures
        exists|a: int| 0 <= a <= text.len() && trim_start(text) == text.skip(a) && forall|i: int|
            0 <= i < a ==> is_space(#[trigger] text[i]),
        trim_start(text).len() > 0 ==> !is_space(trim_start(text)[0]),
    decreases text.len(),
{
    if text.len() > 0 && is_space(text[0]) {
        let d = text.drop_first();
        lemma_trim_start_shape(d);
        let a = choose|a: int| 0 <= a <= d.len() && trim_start(d) == d.skip(a) && forall|i: int|
            0 <= i < a ==> is_space(#[trigger] d[i]);
        assert(d.skip(a) == text.skip(a + 1));
        assert forall|i: int| 0 <= i < a + 1 implies is_space(#[trigger] text[i]) by {
            if i > 0 {
                assert(text[i] == d[i - 1]);
            }
        }
    } else {
        assert(text.skip(0) == text);
    }
}

proof fn lemma_trim_end_shape(text: Seq<char>)
    ensures
        exists|b: int| 0 <= b <= text.len() && trim_end(text) == text.take(b) && forall|i: int|
            b <= i < text.len() ==> is_space(#[trigger] text[i]),
        trim_end(text).len() > 0 ==> !is_space(trim_end(text).last()),
    decreases text.len(),
{
    if text.len() > 0 && is_space(text.last()) {
        let d = text.drop_last();
        lemma_trim_end_shape(d);
        let b = choose|b: int| 0 <= b <= d.len() && trim_end(d) == d.take(b) && forall|i: int|
            b <= i < d.len() ==> is_space(#[trigger] d[i]);
        assert(d.take(b) == text.take(b));
        assert forall|i: int| b <= i < text.len() implies is_space(#[trigger] text[i]) by {
            if i < d.len() {
                assert(text[i] == d[i]);
            }
        }
    } else {
        assert(text.take(text.len() as int) == text);
    }
}

/// Trimming gives a trimmed stretch of the text, and leaves trimmed text as it is.
pub proof fn lemma_trim(text: Seq<char>)
    ensures
        is_trimmed(trim(text)),
        exists|a: int, b: int| 0 <= a <= b <= text.len() && trim(text) == text.subrange(a, b),
        is_trimmed(text) ==> trim(text) == text,
{
    lemma_trim_start_shape(text);
    let s = trim_start(text);
    lemma_trim_end_shape(s);
    let a = choose|a: int| 0 <= a <= text.len() && s == text.skip(a);
    let b = choose|b: int| 0 <= b <= s.len() && trim_end(s) == s.take(b);
    assert(trim(text) == text.subrange(a, a + b));
    if trim(text).len() > 0 {
        assert(trim(text)[0] == s[0]);
    }
    if is_trimmed(text) && text.len() > 0 {
        assert(trim_start(text) == text);
        assert(trim_end(text) == text);
    }
}

/// Trimming removes whitespace only: the trimmed text is the stretch of `text` between a
/// prefix and a suffix made of whitespace alone.
pub proof fn lemma_trim_removes_only_space(text: Seq<char>)
    ensures
        exists|a: int, b: int|
            0 <= a <= b <= text.len() && trim(text) == text.subrange(a, b) && (forall|i: int|
                0 <= i < a ==> is_space(#[trigger] text[i])) && (forall|i: int|
                b <= i < text.len() ==> is_space(#[trigger] text[i])),
{
    lemma_trim_start_shape(text);
    let s = trim_start(text);
    lemma_trim_end_shape(s);
    let a = choose|a: int| 0 <= a <= text.len() && s == text.skip(a) && forall|i: int|
        0 <= i < a ==> is_space(#[trigger] text[i]);
    let b = choose|b: int| 0 <= b <= s.len() && trim_end(s) == s.take(b) && forall|i: int|
        b <= i < s.len() ==> is_space(#[trigger] s[i]);
    assert(trim(text) == text.subrange(a, a + b));
    assert forall|i: int| a + b <= i < text.len() implies is_space(#[trigger] text[i]) by {
        assert(text[i] == s[i - a]);
    }
}

} // verus!
