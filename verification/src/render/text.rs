//! Counting how many terminal rows a text takes, and writing the transcript
//! as plain text.

use vstd::prelude::*;
use crate::app::Message;
use crate::strings::{chars_of, pop_char, push_char};
use crate::width::{
    all_basic, char_display_width, char_width, crate_width, display_width, is_control, law_basic_width,
    lemma_display_width_concat, lemma_display_width_nonneg, str_width,
};

verus! {

/// Position of the first `'\n'` in `s`, or the length of `s` when there is none.
pub open spec fn line_end(s: Seq<char>) -> nat
    decreases s.len(),
{
    if s.len() == 0 {
        0
    } else if s[0] == '\n' {
        0
    } else {
        1 + line_end(s.drop_first())
    }
}

/// `s` without one trailing `'\r'`.
pub open spec fn strip_cr(s: Seq<char>) -> Seq<char> {
    if s.len() > 0 && s.last() == '\r' {
        s.drop_last()
    } else {
        s
    }
}

/// The lines of `s` as `str::lines` gives them: pieces separated by `'\n'`
/// (a `'\r'` right before the `'\n'` belongs to the separator), where a final
/// `'\n'` does not start another line.
pub open spec fn lines_of(s: Seq<char>) -> Seq<Seq<char>>
    decreases s.len(),
{
    if s.len() == 0 {
        Seq::empty()
    } else if line_end(s) >= s.len() {
        seq![s]
    } else {
        seq![strip_cr(s.take(line_end(s) as int))] + lines_of(s.skip(line_end(s) + 1int))
    }
}

/// The width of a character when it is laid out, control characters taking none.
pub open spec fn laid_width(c: char) -> nat {
    if is_control(c) {
        0
    } else if (c as u32) < 0x7f {
        1
    } else {
        match char_display_width(c) {
            Some(w) => w as nat,
            None => 0,
        }
    }
}

/// Rows completed and width used on the current row after laying out `line`
/// character by character on rows of `width` columns: a character that does
/// not fit on the current row starts a new one.
pub open spec fn wrap_state(line: Seq<char>, width: nat) -> (nat, nat)
    decreases line.len(),
{
    if line.len() == 0 {
        (0, 0)
    } else {
        let (rows, used) = wrap_state(line.drop_last(), width);
        let w = laid_width(line.last());
        if used + w > width {
            (rows + 1, w)
        } else {
            (rows, used + w)
        }
    }
}

/// Rows that one line takes; an empty line takes one row.
pub open spec fn visual_lines(line: Seq<char>, width: nat) -> nat {
    if line.len() == 0 {
        1
    } else {
        let (rows, used) = wrap_state(line, width);
        if used > 0 {
            rows + 1
        } else {
            rows
        }
    }
}

/// Rows that a sequence of lines takes.
pub open spec fn total_visual_lines(lines: Seq<Seq<char>>, width: nat) -> nat
    decreases lines.len(),
{
    if lines.len() == 0 {
        0
    } else {
        visual_lines(lines[0], width) + total_visual_lines(lines.drop_first(), width)
    }
}

/// Whether `s` ends with a newline.
pub open spec fn ends_with_newline(s: Seq<char>) -> bool {
    s.len() > 0 && s.last() == '\n'
}

/// Rows that `text` takes in a terminal `width` columns wide: nothing for a
/// text of no display width, else the rows of its lines; a final newline adds
/// one row for the empty line after it.
pub open spec fn terminal_lines(text: Seq<char>, width: nat) -> nat {
    (if crate_width(text) == 0 {
        0
    } else {
        total_visual_lines(lines_of(text), width)
    }) + (if ends_with_newline(text) {
        1nat
    } else {
        0
    })
}

/// Characters plus one per line.
spec fn lines_weight(lines: Seq<Seq<char>>) -> nat
    decreases lines.len(),
{
    if lines.len() == 0 {
        0
    } else {
        lines[0].len() + 1 + lines_weight(lines.drop_first())
    }
}

proof fn lemma_line_end_bound(s: Seq<char>)
    ensures
        line_end(s) <= s.len(),
        line_end(s) < s.len() ==> s[line_end(s) as int] == '\n',
        forall|i: int| 0 <= i < line_end(s) ==> s[i] != '\n',
    decreases s.len(),
{
    if s.len() > 0 && s[0] != '\n' {
        lemma_line_end_bound(s.drop_first());
        assert forall|i: int| 0 <= i < line_end(s) implies s[i] != '\n' by {
            if i > 0 {
                assert(s[i] == s.drop_first()[i - 1]);
            }
        }
    }
}

/// A line without a newline, then a newline: the line ends there.
proof fn lemma_line_end_at(cur: Seq<char>, rest: Seq<char>)
    requires
        forall|i: int| 0 <= i < cur.len() ==> cur[i] != '\n',
    ensures
        line_end(cur + seq!['\n'] + rest) == cur.len(),
    decreases cur.len(),
{
    let s = cur + seq!['\n'] + rest;
    if cur.len() > 0 {
        assert(s.drop_first() =~= cur.drop_first() + seq!['\n'] + rest);
        lemma_line_end_at(cur.drop_first(), rest);
    }
}

/// A text without a newline ends where it ends.
proof fn lemma_line_end_none(s: Seq<char>)
    requires
        forall|i: int| 0 <= i < s.len() ==> s[i] != '\n',
    ensures
        line_end(s) == s.len(),
    decreases s.len(),
{
    if s.len() > 0 {
        lemma_line_end_none(s.drop_first());
    }
}

proof fn lemma_wrap_bound(line: Seq<char>, width: nat)
    ensures
        wrap_state(line, width).0 <= line.len(),
    decreases line.len(),
{
    if line.len() > 0 {
        lemma_wrap_bound(line.drop_last(), width);
    }
}

proof fn lemma_total_bound(lines: Seq<Seq<char>>, width: nat)
    ensures
        total_visual_lines(lines, width) <= lines_weight(lines),
    decreases lines.len(),
{
    if lines.len() > 0 {
        lemma_wrap_bound(lines[0], width);
        lemma_total_bound(lines.drop_first(), width);
    }
}

proof fn lemma_lines_weight(s: Seq<char>)
    ensures
        lines_weight(lines_of(s)) <= s.len() + 1,
    decreases s.len(),
{
    if s.len() > 0 {
        lemma_line_end_bound(s);
        let e: nat = line_end(s);
        if e < s.len() {
            let first = strip_cr(s.take(e as int));
            let rest = s.skip(e + 1int);
            lemma_lines_weight(rest);
            let ls = lines_of(s);
            assert(ls == seq![first] + lines_of(rest));
            assert(ls[0] == first);
            assert(ls.drop_first() =~= lines_of(rest));
            assert(first.len() <= e);
            assert(lines_weight(ls) == first.len() + 1 + lines_weight(lines_of(rest)));
        } else {
            let ls = lines_of(s);
            assert(ls.drop_first() =~= Seq::<Seq<char>>::empty());
            assert(lines_weight(Seq::<Seq<char>>::empty()) == 0);
            assert(lines_weight(ls) == s.len() + 1);
        }
    }
}

/// The lines of `text`, as `str::lines` yields them.
fn split_lines(text: &Vec<char>) -> (r: Vec<String>)
    ensures
        r@.map_values(|l: String| l@) == lines_of(text@),
        forall|j: int| 0 <= j < r.len() ==> (#[trigger] r@[j])@.len() <= text@.len(),
{
    let n: usize = text.len();
    let mut lines: Vec<String> = Vec::new();
    let mut cur = String::new();
    let mut prev: char = '\n';
    let mut i: usize = 0;
    assert(text@.skip(0) =~= text@);
    assert(cur@ + text@ =~= text@);
    while i < n
        invariant
            n == text@.len(),
            i <= n,
            cur@.len() <= i,
            forall|k: int| 0 <= k < cur@.len() ==> cur@[k] != '\n',
            cur@.len() > 0 ==> cur@.last() == prev,
            forall|j: int| 0 <= j < lines.len() ==> (#[trigger] lines@[j])@.len() <= n,
            lines_of(text@) == lines@.map_values(|l: String| l@) + lines_of(cur@ + text@.skip(i as int)),
        decreases n - i,
    {
        let c = text[i];
        let ghost rest = text@.skip(i + 1);
        assert(text@.skip(i as int) =~= seq![c] + rest);
        if c == '\n' {
            let ghost line = cur@;
            proof {
                let s = line + seq!['\n'] + rest;
                assert(cur@ + text@.skip(i as int) =~= s);
                lemma_line_end_at(line, rest);
                assert(s.take(line.len() as int) =~= line);
                assert(s.skip(line.len() + 1int) =~= rest);
                assert(lines_of(s) == seq![strip_cr(line)] + lines_of(rest));
            }
            if cur.as_str().is_empty() == false && prev == '\r' {
                let _ = pop_char(&mut cur);
            }
            assert(cur@ == strip_cr(line));
            let ghost before = lines@.map_values(|l: String| l@);
            lines.push(cur);
            proof {
                assert(lines@.map_values(|l: String| l@) =~= before.push(strip_cr(line)));
                assert(before + (seq![strip_cr(line)] + lines_of(rest)) =~= before.push(strip_cr(line)) + lines_of(rest));
                assert(Seq::<char>::empty() + rest =~= rest);
            }
            cur = String::new();
            prev = '\n';
        } else {
            let ghost old_cur = cur@;
            push_char(&mut cur, c);
            prev = c;
            assert(cur@ + rest =~= old_cur + text@.skip(i as int));
        }
        i = i + 1;
    }
    proof {
        assert(text@.skip(n as int) =~= Seq::<char>::empty());
        assert(cur@ + text@.skip(n as int) =~= cur@);
    }
    let ghost before = lines@.map_values(|l: String| l@);
    if cur.as_str().is_empty() {
        assert(lines_of(cur@) =~= Seq::<Seq<char>>::empty());
        assert(before + Seq::<Seq<char>>::empty() =~= before);
    } else {
        proof {
            lemma_line_end_none(cur@);
        }
        lines.push(cur);
        assert(lines@.map_values(|l: String| l@) =~= before + seq![cur@]);
    }
    lines
}

/// Rows that one line takes in a terminal `term_width` columns wide.
pub fn count_visual_lines(line: &str, term_width: usize) -> (r: usize)
    requires
        line@.len() < usize::MAX,
    ensures
        r == visual_lines(line@, term_width as nat),
{
    let chars = chars_of(line);
    if chars.len() == 0 {
        return 1;
    }
    let n: usize = chars.len();
    let mut lines: usize = 0;
    let mut current_width: usize = 0;
    let mut i: usize = 0;
    assert(chars@.take(0) =~= Seq::<char>::empty());
    while i < n
        invariant
            n == chars@.len(),
            chars@ == line@,
            n < usize::MAX,
            i <= n,
            (lines as nat, current_width as nat) == wrap_state(chars@.take(i as int), term_width as nat),
            lines <= i,
        decreases n - i,
    {
        let c = chars[i];
        let w: usize = match char_width(c) {
            Some(w) => w,
            None => 0,
        };
        assert(chars@.take(i + 1).drop_last() =~= chars@.take(i as int));
        assert(chars@.take(i + 1).last() == c);
        if current_width > term_width || w > term_width - current_width {
            lines = lines + 1;
            current_width = w;
        } else {
            current_width = current_width + w;
        }
        i = i + 1;
    }
    assert(chars@.take(n as int) =~= chars@);
    if current_width > 0 {
        lines = lines + 1;
    }
    lines
}

/// The error type of [`count_lines_in_terminal`], which never fails.
#[derive(Debug)]
pub struct LineCountError;

/// Rows that `text` takes in a terminal `term_width` columns wide (see
/// [`terminal_lines`]).
pub fn count_lines_in_terminal(text: &str, term_width: usize) -> (r: Result<usize, LineCountError>)
    requires
        text@.len() <= isize::MAX,
    ensures
        r matches Ok(n) && n == terminal_lines(text@, term_width as nat),
{
    let chars = chars_of(text);
    let ghost width = term_width as nat;
    proof {
        lemma_lines_weight(text@);
        lemma_total_bound(lines_of(text@), width);
    }
    let mut result: usize = if str_width(text) == 0 {
        0
    } else {
        let lines = split_lines(&chars);
        let ghost ls = lines@.map_values(|l: String| l@);
        let mut sum: usize = 0;
        let mut k: usize = 0;
        assert(ls.skip(0) =~= ls);
        while k < lines.len()
            invariant
                ls == lines@.map_values(|l: String| l@),
                ls == lines_of(text@),
                width == term_width as nat,
                k <= lines.len(),
                forall|j: int| 0 <= j < lines.len() ==> (#[trigger] lines@[j])@.len() <= text@.len(),
                text@.len() <= isize::MAX,
                total_visual_lines(ls, width) <= text@.len() + 1,
                sum + total_visual_lines(ls.skip(k as int), width) == total_visual_lines(ls, width),
            decreases lines.len() - k,
        {
            assert(ls.skip(k as int).drop_first() =~= ls.skip(k + 1));
            assert(ls.skip(k as int)[0] == lines@[k as int]@);
            assert(total_visual_lines(ls.skip(k as int), width) == visual_lines(lines@[k as int]@, width)
                + total_visual_lines(ls.skip(k + 1), width));
            let v: usize = count_visual_lines(lines[k].as_str(), term_width);
            assert(sum + v <= text@.len() + 1);
            assert(isize::MAX + 1 <= usize::MAX);
            sum = sum + v;
            k = k + 1;
        }
        assert(ls.skip(k as int) =~= Seq::<Seq<char>>::empty());
        sum
    };
    if chars.len() > 0 && chars[chars.len() - 1] == '\n' {
        result = result + 1;
    }
    Ok(result)
}

/// The last line of `s` is a lone carriage return.
pub open spec fn last_line_is_cr(s: Seq<char>) -> bool {
    &&& s.len() >= 1
    &&& s.last() == '\r'
    &&& (s.len() == 1 || s[s.len() - 2] == '\n')
}

/// A text's first line ends where it ends in any longer text.
proof fn lemma_line_end_extend(s: Seq<char>, t: Seq<char>)
    requires
        line_end(s) < s.len(),
    ensures
        line_end(s + t) == line_end(s),
    decreases s.len(),
{
    if s[0] != '\n' {
        assert((s + t).drop_first() =~= s.drop_first() + t);
        lemma_line_end_extend(s.drop_first(), t);
    }
}

/// A carriage return at the end of a non-empty line takes no room.
proof fn lemma_visual_cr(t: Seq<char>, width: nat)
    requires
        t.len() > 0,
    ensures
        visual_lines(t.push('\r'), width) == visual_lines(t, width),
{
    let s = t.push('\r');
    assert(s.drop_last() =~= t);
    assert(is_control('\r'));
    let (rows, used) = wrap_state(t, width);
    assert(wrap_state(s, width) == (if used + 0 > width { (rows + 1, 0nat) } else { (rows, used) }));
}

proof fn lemma_total_cons(a: Seq<char>, rest: Seq<Seq<char>>, width: nat)
    ensures
        total_visual_lines(seq![a] + rest, width) == visual_lines(a, width) + total_visual_lines(rest, width),
{
    assert((seq![a] + rest).drop_first() =~= rest);
}

proof fn lemma_lines_newline(s: Seq<char>, width: nat)
    requires
        s.len() > 0,
        !last_line_is_cr(s),
    ensures
        total_visual_lines(lines_of(s.push('\n')), width)
            == total_visual_lines(lines_of(s), width) + (if ends_with_newline(s) { 1nat } else { 0 }),
    decreases s.len(),
{
    let n = s.push('\n');
    lemma_line_end_bound(s);
    let e: nat = line_end(s);
    if e < s.len() {
        lemma_line_end_extend(s, seq!['\n']);
        assert(n =~= s + seq!['\n']);
        let first = strip_cr(s.take(e as int));
        let rest = s.skip(e + 1int);
        assert(n.take(e as int) =~= s.take(e as int));
        assert(n.skip(e + 1int) =~= rest.push('\n'));
        assert(lines_of(s) == seq![first] + lines_of(rest));
        assert(lines_of(n) == seq![first] + lines_of(rest.push('\n')));
        lemma_total_cons(first, lines_of(rest), width);
        lemma_total_cons(first, lines_of(rest.push('\n')), width);
        if rest.len() == 0 {
            assert(e == s.len() - 1);
            assert(rest.push('\n') =~= seq!['\n']);
            assert(line_end(seq!['\n']) == 0);
            assert(seq!['\n'].take(0) =~= Seq::<char>::empty());
            assert(seq!['\n'].skip(1) =~= Seq::<char>::empty());
            assert(lines_of(Seq::<char>::empty()) == Seq::<Seq<char>>::empty());
            assert(strip_cr(Seq::<char>::empty()) == Seq::<char>::empty());
            assert(lines_of(seq!['\n']) == seq![strip_cr(seq!['\n'].take(0))] + lines_of(seq!['\n'].skip(1)));
            assert(lines_of(seq!['\n']) =~= seq![Seq::<char>::empty()] + Seq::<Seq<char>>::empty());
            lemma_total_cons(Seq::<char>::empty(), Seq::<Seq<char>>::empty(), width);
            assert(lines_of(rest) =~= Seq::<Seq<char>>::empty());
        } else {
            assert(!last_line_is_cr(rest)) by {
                if last_line_is_cr(rest) {
                    assert(rest.last() == s.last());
                    if rest.len() == 1 {
                        assert(s[s.len() - 2] == '\n');
                    } else {
                        assert(rest[rest.len() - 2] == s[s.len() - 2]);
                    }
                }
            }
            assert(rest.last() == s.last());
            lemma_lines_newline(rest, width);
        }
    } else {
        lemma_line_end_at(s, Seq::empty());
        assert(n =~= s + seq!['\n'] + Seq::<char>::empty());
        assert(n.take(s.len() as int) =~= s);
        assert(n.skip(s.len() + 1int) =~= Seq::<char>::empty());
        assert(lines_of(Seq::<char>::empty()) == Seq::<Seq<char>>::empty());
        assert(lines_of(n) == seq![strip_cr(n.take(s.len() as int))] + lines_of(n.skip(s.len() + 1int)));
        assert(lines_of(n) =~= seq![strip_cr(s)] + Seq::<Seq<char>>::empty());
        assert(lines_of(s) =~= seq![s] + Seq::<Seq<char>>::empty());
        lemma_total_cons(strip_cr(s), Seq::<Seq<char>>::empty(), width);
        lemma_total_cons(s, Seq::<Seq<char>>::empty(), width);
        assert(!ends_with_newline(s)) by {
            assert(s.last() == s[s.len() - 1]);
        }
        if s.last() == '\r' {
            assert(s.len() >= 2);
            let t = s.drop_last();
            assert(t.push('\r') =~= s);
            lemma_visual_cr(t, width);
        }
    }
}

/// A newline after a non-empty text adds one row: the empty line after it, or
/// the line it ends. The text's last line must not be a lone carriage return
/// (such a line takes no row, and no line at all once a newline follows it),
/// and both texts must have a display width (a text without one takes no
/// rows).
pub proof fn law_trailing_newline(s: Seq<char>, width: nat)
    requires
        s.len() > 0,
        !last_line_is_cr(s),
        crate_width(s) != 0,
        crate_width(s.push('\n')) != 0,
    ensures
        terminal_lines(s.push('\n'), width) == terminal_lines(s, width) + 1,
{
    lemma_lines_newline(s, width);
    assert(ends_with_newline(s.push('\n')));
}

/// A non-empty text without a newline takes the rows of its one line.
pub proof fn law_single_line(s: Seq<char>, width: nat)
    requires
        s.len() > 0,
        forall|i: int| 0 <= i < s.len() ==> s[i] != '\n',
        crate_width(s) != 0,
    ensures
        terminal_lines(s, width) == visual_lines(s, width),
{
    lemma_line_end_none(s);
    assert(lines_of(s) =~= seq![s] + Seq::<Seq<char>>::empty());
    lemma_total_cons(s, Seq::<Seq<char>>::empty(), width);
    assert(s.last() == s[s.len() - 1]);
}

proof fn lemma_total_concat(a: Seq<Seq<char>>, b: Seq<Seq<char>>, width: nat)
    ensures
        total_visual_lines(a + b, width) == total_visual_lines(a, width) + total_visual_lines(b, width),
    decreases a.len(),
{
    if a.len() == 0 {
        assert(a + b =~= b);
    } else {
        assert((a + b).drop_first() =~= a.drop_first() + b);
        assert((a + b)[0] == a[0]);
        lemma_total_concat(a.drop_first(), b, width);
    }
}

/// After a text that ends with a newline, the lines of what follows are
/// lines of their own.
proof fn lemma_lines_concat(s: Seq<char>, t: Seq<char>)
    requires
        ends_with_newline(s),
    ensures
        lines_of(s + t) == lines_of(s) + lines_of(t),
    decreases s.len(),
{
    lemma_line_end_bound(s);
    let e: nat = line_end(s);
    assert(e < s.len()) by {
        if e >= s.len() {
            assert(s[s.len() - 1] != '\n');
        }
    }
    lemma_line_end_extend(s, t);
    let st = s + t;
    let rest = s.skip(e + 1int);
    assert(st.take(e as int) =~= s.take(e as int));
    assert(st.skip(e + 1int) =~= rest + t);
    assert(lines_of(st) == seq![strip_cr(s.take(e as int))] + lines_of(rest + t));
    assert(lines_of(s) == seq![strip_cr(s.take(e as int))] + lines_of(rest));
    if rest.len() == 0 {
        assert(rest + t =~= t);
        assert(lines_of(rest) =~= Seq::<Seq<char>>::empty());
        assert(seq![strip_cr(s.take(e as int))] + Seq::<Seq<char>>::empty() =~= seq![strip_cr(s.take(e as int))]);
    } else {
        assert(rest.last() == s.last());
        lemma_lines_concat(rest, t);
        assert(seq![strip_cr(s.take(e as int))] + (lines_of(rest) + lines_of(t))
            =~= (seq![strip_cr(s.take(e as int))] + lines_of(rest)) + lines_of(t));
    }
}

/// Rows add up over joined texts: after a text that ends with a newline, a
/// text takes the rows it takes alone, in place of the empty row that the
/// newline added. Both texts must have a display width (a text without one
/// takes no rows), and their widths together must fit in a `usize`, in which
/// the width of the joined text is computed.
pub proof fn law_rows_concat(s: Seq<char>, t: Seq<char>, width: nat)
    requires
        ends_with_newline(s),
        crate_width(s) != 0,
        crate_width(t) != 0,
        display_width(s) + display_width(t) <= usize::MAX,
    ensures
        terminal_lines(s + t, width) + 1 == terminal_lines(s, width) + terminal_lines(t, width),
{
    let m = usize::MAX as int + 1;
    lemma_display_width_nonneg(s);
    lemma_display_width_nonneg(t);
    lemma_display_width_concat(s, t);
    vstd::arithmetic::div_mod::lemma_small_mod(display_width(s) as nat, m as nat);
    vstd::arithmetic::div_mod::lemma_small_mod(display_width(t) as nat, m as nat);
    vstd::arithmetic::div_mod::lemma_small_mod(display_width(s + t) as nat, m as nat);
    assert(crate_width(s + t) != 0);
    lemma_lines_concat(s, t);
    lemma_total_concat(lines_of(s), lines_of(t), width);
    assert(t.len() > 0) by {
        if t.len() == 0 {
            assert(display_width(t) == 0);
        }
    }
    assert((s + t).last() == t.last());
}

/// [`law_rows_concat`] for texts of characters up to U+00A0, whose width
/// is known: joined after a newline, a non-empty text takes the rows it takes
/// alone in place of the empty row after the newline.
pub proof fn law_rows_concat_basic(s: Seq<char>, t: Seq<char>, width: nat)
    requires
        ends_with_newline(s),
        t.len() > 0,
        all_basic(s),
        all_basic(t),
        s.len() + t.len() <= usize::MAX,
    ensures
        terminal_lines(s + t, width) + 1 == terminal_lines(s, width) + terminal_lines(t, width),
{
    law_basic_width(s);
    law_basic_width(t);
    law_rows_concat(s, t, width);
}

proof fn lemma_wrap_narrow(line: Seq<char>, width: nat)
    requires
        width >= 1,
        line.len() >= 1,
        forall|i: int| 0 <= i < line.len() ==> laid_width(#[trigger] line[i]) == 1,
    ensures
        wrap_state(line, width) == ((((line.len() - 1) as int) / (width as int)) as nat,
            ((((line.len() - 1) as int) % (width as int)) + 1) as nat),
    decreases line.len(),
{
    let w = width as int;
    if line.len() == 1 {
        assert(line.drop_last() =~= Seq::<char>::empty());
        assert(laid_width(line[0]) == 1);
        assert(0int / w == 0 && 0int % w == 0) by {
            vstd::arithmetic::div_mod::lemma_fundamental_div_mod_converse_div(0, w, 0, 0);
            vstd::arithmetic::div_mod::lemma_fundamental_div_mod_converse_mod(0, w, 0, 0);
        }
        assert(wrap_state(line.drop_last(), width) == (0nat, 0nat));
        assert(line.last() == line[0]);
        assert(wrap_state(line, width) == (0nat, 1nat));
    } else {
        let d = line.drop_last();
        assert forall|i: int| 0 <= i < d.len() implies laid_width(#[trigger] d[i]) == 1 by {
            assert(d[i] == line[i]);
        }
        lemma_wrap_narrow(d, width);
        assert(laid_width(line.last()) == 1) by {
            assert(line.last() == line[line.len() - 1]);
        }
        let n = (line.len() - 1) as int;
        let q = (n - 1) / w;
        let r = (n - 1) % w;
        vstd::arithmetic::div_mod::lemma_fundamental_div_mod(n - 1, w);
        assert(0 <= r < w) by {
            vstd::arithmetic::div_mod::lemma_mod_bound(n - 1, w);
        }
        if r + 1 + 1 > w {
            assert(n == (q + 1) * w + 0) by (nonlinear_arith)
                requires
                    n - 1 == w * q + r,
                    r == w - 1,
            ;
            vstd::arithmetic::div_mod::lemma_fundamental_div_mod_converse_div(n, w, q + 1, 0);
            vstd::arithmetic::div_mod::lemma_fundamental_div_mod_converse_mod(n, w, q + 1, 0);
            assert(wrap_state(d, width) == (q as nat, (r + 1) as nat));
            assert(wrap_state(line, width) == ((q + 1) as nat, 1nat));
            assert(n / w == q + 1 && n % w == 0);
            assert(wrap_state(line, width) == ((n / w) as nat, ((n % w) + 1) as nat));
        } else {
            assert(n == q * w + (r + 1)) by (nonlinear_arith)
                requires
                    n - 1 == w * q + r,
            ;
            vstd::arithmetic::div_mod::lemma_fundamental_div_mod_converse_div(n, w, q, r + 1);
            vstd::arithmetic::div_mod::lemma_fundamental_div_mod_converse_mod(n, w, q, r + 1);
            assert(wrap_state(d, width) == (q as nat, (r + 1) as nat));
            assert(wrap_state(line, width) == (q as nat, (r + 2) as nat));
            assert(n / w == q && n % w == r + 1);
            assert(wrap_state(line, width) == ((n / w) as nat, ((n % w) + 1) as nat));
        }
    }
}

/// A line of `n` characters that are each one column wide takes `n / width`
/// rows, rounded up, in a terminal at least one column wide.
pub proof fn law_narrow_line(line: Seq<char>, width: nat)
    requires
        width >= 1,
        line.len() >= 1,
        forall|i: int| 0 <= i < line.len() ==> laid_width(#[trigger] line[i]) == 1,
    ensures
        visual_lines(line, width) == ((line.len() + width - 1) as int) / (width as int),
{
    lemma_wrap_narrow(line, width);
    let w = width as int;
    let n = line.len() as int;
    let q = (n - 1) / w;
    let r = (n - 1) % w;
    vstd::arithmetic::div_mod::lemma_fundamental_div_mod(n - 1, w);
    vstd::arithmetic::div_mod::lemma_mod_bound(n - 1, w);
    assert(n + w - 1 == (q + 1) * w + r) by (nonlinear_arith)
        requires
            n - 1 == w * q + r,
    ;
    vstd::arithmetic::div_mod::lemma_fundamental_div_mod_converse_div(n + w - 1, w, q + 1, r);
}

/// How one message reads in the transcript: a tag naming its author, the
/// text, and a newline.
pub open spec fn message_text(m: Message) -> Seq<char> {
    match m {
        Message::User(c) => "[User] "@ + c@ + "\n"@,
        Message::Assistant(c) => "[Assistant] "@ + c@ + "\n"@,
        Message::Error(c) => "[Error] "@ + c@ + "\n"@,
    }
}

/// The transcript: the messages' texts one after the other.
pub open spec fn transcript_text(messages: Seq<Message>) -> Seq<char>
    decreases messages.len(),
{
    if messages.len() == 0 {
        Seq::empty()
    } else {
        transcript_text(messages.drop_last()) + message_text(messages.last())
    }
}

/// Writes the transcript as plain text, one message per line.
pub fn format_messages(messages: &[Message]) -> (r: String)
    ensures
        r@ == transcript_text(messages@),
{
    let mut text = String::new();
    let n = messages.len();
    let mut i: usize = 0;
    assert(messages@.take(0) =~= Seq::<Message>::empty());
    while i < n
        invariant
            n == messages@.len(),
            i <= n,
            text@ == transcript_text(messages@.take(i as int)),
        decreases n - i,
    {
        assert(messages@.take(i + 1).drop_last() =~= messages@.take(i as int));
        assert(messages@.take(i + 1).last() == messages@[i as int]);
        match &messages[i] {
            Message::User(content) => {
                text.append("[User] ");
                text.append(content.as_str());
                text.append("\n");
            },
            Message::Assistant(content) => {
                text.append("[Assistant] ");
                text.append(content.as_str());
                text.append("\n");
            },
            Message::Error(content) => {
                text.append("[Error] ");
                text.append(content.as_str());
                text.append("\n");
            },
        }
        i = i + 1;
    }
    assert(messages@.take(n as int) =~= messages@);
    text
}

/// The transcript of two runs of messages is the transcript of the first
/// followed by that of the second.
pub proof fn law_transcript_concat(a: Seq<Message>, b: Seq<Message>)
    ensures
        transcript_text(a + b) == transcript_text(a) + transcript_text(b),
    decreases b.len(),
{
    if b.len() == 0 {
        assert(a + b =~= a);
        assert(transcript_text(a) + Seq::<char>::empty() =~= transcript_text(a));
    } else {
        assert((a + b).drop_last() =~= a + b.drop_last());
        assert((a + b).last() == b.last());
        law_transcript_concat(a, b.drop_last());
        assert(transcript_text(a) + transcript_text(b.drop_last()) + message_text(b.last())
            =~= transcript_text(a) + (transcript_text(b.drop_last()) + message_text(b.last())));
    }
}

/// The columns of a line: the laid-out widths of its characters added up.
pub open spec fn line_columns(line: Seq<char>) -> nat
    decreases line.len(),
{
    if line.len() == 0 {
        0
    } else {
        line_columns(line.drop_last()) + laid_width(line.last())
    }
}

proof fn lemma_wrap_holds_columns(line: Seq<char>, width: nat)
    requires
        forall|i: int| 0 <= i < line.len() ==> laid_width(#[trigger] line[i]) <= width,
    ensures
        wrap_state(line, width).0 * width + wrap_state(line, width).1 >= line_columns(line),
        wrap_state(line, width).1 <= width,
    decreases line.len(),
{
    if line.len() > 0 {
        let d = line.drop_last();
        assert forall|i: int| 0 <= i < d.len() implies laid_width(#[trigger] d[i]) <= width by {
            assert(d[i] == line[i]);
        }
        lemma_wrap_holds_columns(d, width);
        assert(laid_width(line.last()) <= width) by {
            assert(line.last() == line[line.len() - 1]);
        }
        let (rows, used) = wrap_state(d, width);
        assert((rows + 1) * width == rows * width + width) by (nonlinear_arith);
    }
}

/// A row holds at most `width` columns: when every character fits on a row,
/// the rows a line takes, `width` columns each, hold all its columns. (Wide
/// characters count with their full width, whatever the terminal's width.)
pub proof fn law_rows_hold_columns(line: Seq<char>, width: nat)
    requires
        forall|i: int| 0 <= i < line.len() ==> laid_width(#[trigger] line[i]) <= width,
    ensures
        visual_lines(line, width) * width >= line_columns(line),
{
    lemma_wrap_holds_columns(line, width);
    if line.len() > 0 {
        let (rows, used) = wrap_state(line, width);
        assert((rows + 1) * width == rows * width + width) by (nonlinear_arith);
    } else {
        assert(1 * width >= 0) by (nonlinear_arith);
    }
}

/// Each message stands whole in the transcript: the transcript of one message
/// is its tag, then its content unchanged (newlines and all), then a newline.
pub proof fn law_message_in_transcript(m: Message)
    ensures
        ({
            let t = transcript_text(seq![m]);
            let (tag, c) = match m {
                Message::User(c) => ("[User] "@, c@),
                Message::Assistant(c) => ("[Assistant] "@, c@),
                Message::Error(c) => ("[Error] "@, c@),
            };
            &&& t.len() == tag.len() + c.len() + 1
            &&& t.take(tag.len() as int) == tag
            &&& t.subrange(tag.len() as int, (tag.len() + c.len()) as int) == c
            &&& t.last() == '\n'
        }),
{
    reveal_strlit("[User] ");
    reveal_strlit("[Assistant] ");
    reveal_strlit("[Error] ");
    reveal_strlit("\n");
    let ms = seq![m];
    assert(ms.drop_last() =~= Seq::<Message>::empty());
    assert(ms.last() == m);
    let t = transcript_text(ms);
    assert(transcript_text(Seq::<Message>::empty()) == Seq::<char>::empty());
    assert(t == transcript_text(ms.drop_last()) + message_text(ms.last()));
    assert(t =~= message_text(m));
    let (tag, c) = match m {
        Message::User(c) => ("[User] "@, c@),
        Message::Assistant(c) => ("[Assistant] "@, c@),
        Message::Error(c) => ("[Error] "@, c@),
    };
    assert(t =~= tag + c + "\n"@);
    assert(t.take(tag.len() as int) =~= tag);
    assert(t.subrange(tag.len() as int, (tag.len() + c.len()) as int) =~= c);
}

} // verus!
