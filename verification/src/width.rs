//! Display widths of characters and strings in a terminal, as the
//! `unicode-width` crate computes them.

use vstd::prelude::*;

verus! {

/// The width that `unicode-width` gives a character (`None` for a control
/// character).
pub uninterp spec fn char_display_width(c: char) -> Option<usize>;

/// The width that `unicode-width` gives a string.
pub uninterp spec fn str_display_width(s: Seq<char>) -> usize;

/// The control characters: U+0000..U+001F and U+007F..U+009F.
pub open spec fn is_control(c: char) -> bool {
    (c as u32) < 0x20 || (0x7f <= (c as u32) && (c as u32) < 0xa0)
}

/// The width of a character as `UnicodeWidthChar::width` computes it.
///
/// Trusted: the result is the crate's width of `c`. Its source gives `None`
/// exactly for the control characters U+0000..U+001F and U+007F..U+009F, and
/// width 1 for the other ASCII characters; that much is stated here, the
/// widths of the other characters (tables of the Unicode standard) are not.
#[verifier::external_body]
pub fn char_width(c: char) -> (r: Option<usize>)
    ensures
        r == char_display_width(c),
        r is None <==> is_control(c),
        (0x20 <= (c as u32) && (c as u32) < 0x7f) ==> r == Some(1usize),
{
    unicode_width::UnicodeWidthChar::width(c)
}

/// The characters up to U+00A0, whose width in a string `unicode-width`
/// computes without its tables.
pub open spec fn is_basic(c: char) -> bool {
    (c as u32) <= 0xa0
}

/// Every character of `s` is one of the [`is_basic`] characters.
pub open spec fn all_basic(s: Seq<char>) -> bool {
    forall|i: int| 0 <= i < s.len() ==> is_basic(#[trigger] s[i])
}

/// How many times `"\r\n"` occurs in `s`.
pub open spec fn crlf_count(s: Seq<char>) -> nat
    decreases s.len(),
{
    if s.len() < 2 {
        0
    } else {
        (if s[0] == '\r' && s[1] == '\n' { 1nat } else { 0nat }) + crlf_count(s.drop_first())
    }
}

/// Position of the first `'\n'` in `s`, or the length of `s` when there is none.
pub open spec fn first_newline(s: Seq<char>) -> nat
    decreases s.len(),
{
    if s.len() == 0 {
        0
    } else if s[0] == '\n' {
        0
    } else {
        1 + first_newline(s.drop_first())
    }
}

/// The width of a piece of text that holds no `'\n'` but perhaps a last one:
/// for [`is_basic`] characters one column each, but none for a `'\r'` right
/// before a `'\n'`; otherwise what `unicode-width` gives.
pub open spec fn piece_width(p: Seq<char>) -> int {
    if all_basic(p) {
        p.len() - crlf_count(p)
    } else {
        str_display_width(p) as int
    }
}

/// The display width of a text: the widths of its pieces added up, each piece
/// running up to and including a `'\n'` (the last one up to the end).
pub open spec fn display_width(s: Seq<char>) -> int
    decreases s.len(),
{
    if first_newline(s) + 1 < s.len() {
        piece_width(s.take(first_newline(s) + 1int)) + display_width(s.skip(first_newline(s) + 1int))
    } else {
        piece_width(s)
    }
}

/// The width that `unicode-width` hands back for a text: its
/// [`display_width`], kept in a `usize` (the crate adds up with wrapping
/// arithmetic).
pub open spec fn crate_width(s: Seq<char>) -> int {
    display_width(s) % (usize::MAX as int + 1)
}

/// The width of a string as `UnicodeWidthStr::width` computes it.
///
/// Trusted: the result is the crate's width of `s`. Its source (`str_width`
/// and `width_in_generic` in `lookup.rs`) folds over the characters from the
/// last one, adding each character's columns with wrapping arithmetic, and
/// gives each character up to U+00A0 one column, except a `'\r'` followed by a
/// `'\n'`, which gets none. A `'\n'` always gets one column and passes the same
/// state on to the characters before it, whatever follows it; so a text's
/// width is the sum of the widths of its pieces up to each newline. That much
/// is stated here (see [`crate_width`]). The widths of other pieces (tables of
/// the Unicode standard, emoji sequences) are not stated.
#[verifier::external_body]
pub fn str_width(s: &str) -> (r: usize)
    ensures
        r == str_display_width(s@),
        r == crate_width(s@),
{
    unicode_width::UnicodeWidthStr::width(s)
}

proof fn lemma_first_newline(s: Seq<char>)
    ensures
        first_newline(s) <= s.len(),
        first_newline(s) < s.len() ==> s[first_newline(s) as int] == '\n',
        forall|i: int| 0 <= i < first_newline(s) ==> s[i] != '\n',
    decreases s.len(),
{
    if s.len() > 0 && s[0] != '\n' {
        lemma_first_newline(s.drop_first());
        assert forall|i: int| 0 <= i < first_newline(s) implies s[i] != '\n' by {
            if i > 0 {
                assert(s[i] == s.drop_first()[i - 1]);
            }
        }
    }
}

/// A text's first newline is where it is in any longer text.
proof fn lemma_first_newline_extend(s: Seq<char>, t: Seq<char>)
    requires
        first_newline(s) < s.len(),
    ensures
        first_newline(s + t) == first_newline(s),
    decreases s.len(),
{
    if s[0] != '\n' {
        assert((s + t).drop_first() =~= s.drop_first() + t);
        lemma_first_newline_extend(s.drop_first(), t);
    }
}

proof fn lemma_all_basic_sub(s: Seq<char>, i: int, j: int)
    requires
        all_basic(s),
        0 <= i <= j <= s.len(),
    ensures
        all_basic(s.subrange(i, j)),
{
    assert forall|k: int| 0 <= k < j - i implies is_basic(#[trigger] s.subrange(i, j)[k]) by {
        assert(s.subrange(i, j)[k] == s[i + k]);
    }
}

/// At most every other character starts a `"\r\n"`.
proof fn lemma_crlf_bound(s: Seq<char>)
    ensures
        2 * crlf_count(s) <= s.len(),
    decreases s.len(),
{
    if s.len() >= 2 {
        let d = s.drop_first();
        lemma_crlf_bound(d);
        if s[0] == '\r' && s[1] == '\n' && d.len() >= 2 {
            lemma_crlf_bound(d.drop_first());
            assert(d[0] == '\n');
        }
    }
}

/// No `"\r\n"` spans the end of a text that ends with a newline.
proof fn lemma_crlf_concat(a: Seq<char>, b: Seq<char>)
    requires
        a.len() > 0,
        a.last() == '\n',
    ensures
        crlf_count(a + b) == crlf_count(a) + crlf_count(b),
    decreases a.len(),
{
    let ab = a + b;
    if a.len() == 1 {
        assert(ab.drop_first() =~= b);
        if ab.len() >= 2 {
            assert(ab[0] == '\n');
        }
    } else {
        assert(ab.drop_first() =~= a.drop_first() + b);
        assert(a.drop_first().last() == a.last());
        lemma_crlf_concat(a.drop_first(), b);
        assert(ab[0] == a[0] && ab[1] == a[1]);
    }
}

/// The width of a text never falls below zero.
pub proof fn lemma_display_width_nonneg(s: Seq<char>)
    ensures
        display_width(s) >= 0,
    decreases s.len(),
{
    lemma_first_newline(s);
    let e: int = first_newline(s) as int;
    if e + 1 < s.len() {
        lemma_crlf_bound(s.take(e + 1));
        lemma_display_width_nonneg(s.skip(e + 1));
    } else {
        lemma_crlf_bound(s);
    }
}

/// After a text that ends with a newline, widths add up.
pub proof fn lemma_display_width_concat(s: Seq<char>, t: Seq<char>)
    requires
        s.len() > 0,
        s.last() == '\n',
    ensures
        display_width(s + t) == display_width(s) + display_width(t),
    decreases s.len(),
{
    lemma_first_newline(s);
    let e: int = first_newline(s) as int;
    assert(e < s.len()) by {
        if e >= s.len() {
            assert(s[s.len() - 1] != '\n');
        }
    }
    lemma_first_newline_extend(s, t);
    let st = s + t;
    if t.len() == 0 {
        assert(st =~= s);
        assert(display_width(t) == 0);
    } else if e + 1 < s.len() {
        let rest = s.skip(e + 1);
        assert(st.take(e + 1) =~= s.take(e + 1));
        assert(st.skip(e + 1) =~= rest + t);
        assert(rest.last() == s.last());
        lemma_display_width_concat(rest, t);
    } else {
        assert(st.take(e + 1) =~= s);
        assert(st.skip(e + 1) =~= t);
    }
}

/// A text of [`is_basic`] characters is one column per character but none for
/// a `'\r'` right before a `'\n'`, so it takes at least one column for every
/// two characters, and only the empty one (among those short enough to have
/// their width in a `usize`) has no width.
pub proof fn law_basic_width(s: Seq<char>)
    requires
        all_basic(s),
    ensures
        display_width(s) == s.len() - crlf_count(s),
        2 * crlf_count(s) <= s.len(),
        s.len() <= usize::MAX ==> (crate_width(s) == 0 <==> s.len() == 0),
    decreases s.len(),
{
    lemma_crlf_bound(s);
    lemma_first_newline(s);
    let e: int = first_newline(s) as int;
    if e + 1 < s.len() {
        let a = s.take(e + 1);
        let b = s.skip(e + 1);
        lemma_all_basic_sub(s, 0, e + 1);
        lemma_all_basic_sub(s, e + 1, s.len() as int);
        assert(s.subrange(0, e + 1) =~= a);
        assert(s.subrange(e + 1, s.len() as int) =~= b);
        law_basic_width(b);
        assert(a + b =~= s);
        assert(a.last() == '\n');
        lemma_crlf_concat(a, b);
    }
    if s.len() <= usize::MAX {
        let m = usize::MAX as int + 1;
        let w = s.len() - crlf_count(s);
        assert(0 <= w < m);
        vstd::arithmetic::div_mod::lemma_small_mod(w as nat, m as nat);
        if s.len() > 0 {
            assert(w > 0);
        }
    }
}

} // verus!
