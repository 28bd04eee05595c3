//! Splitting a text into its lines, and dropping the blank ones.
//!
//! A line ends at a line feed, or at the end of the text. The line feed is
//! not part of the line, nor is a carriage return that stands directly
//! before it; nothing else is taken from a line. A text that ends in a
//! line feed has no further, empty line after it.
//!
//! A line is blank if it holds no character at all: a line of spaces is
//! not. Blank lines only set the blocks of the format apart, so the
//! parsers never see them.

use crate::text::{
    byte_len, byte_offset, char_width, lemma_byte_offset_step, lemma_char_width, lemma_run_len,
    lemma_run_len_is, run_len, slice_between, texts,
};
use vstd::prelude::*;
use vstd::std_specs::iter::IteratorSpec;

verus! {

/// The number of characters of `s` before its first line feed; all of them
/// if it has none.
pub open spec fn line_len(s: Seq<char>) -> nat {
    run_len(s, |c: char| c == '\n')
}

/// A line without the carriage return at its end, if there is one.
pub open spec fn strip_cr(line: Seq<char>) -> Seq<char> {
    if line.len() > 0 && line.last() == '\r' {
        line.drop_last()
    } else {
        line
    }
}

/// All lines of a text, blank ones included, without their terminators.
pub open spec fn lines(s: Seq<char>) -> Seq<Seq<char>>
    decreases s.len(),
    via lines_decreases
{
    if s.len() == 0 {
        Seq::empty()
    } else {
        let n = line_len(s) as int;
        if n == s.len() {
            seq![s]
        } else {
            seq![strip_cr(s.subrange(0, n))] + lines(s.subrange(n + 1, s.len() as int))
        }
    }
}

#[via_fn]
proof fn lines_decreases(s: Seq<char>) {
    lemma_run_len(s, |c: char| c == '\n');
}

/// Whether a line holds at least one character.
pub open spec fn is_nonblank(line: Seq<char>) -> bool {
    line.len() > 0
}

/// The lines of a text that are not blank, in their order.
pub open spec fn logical_lines(s: Seq<char>) -> Seq<Seq<char>> {
    lines(s).filter(|line: Seq<char>| is_nonblank(line))
}

/// A line alone if it is not blank, nothing otherwise.
pub open spec fn kept(line: Seq<char>) -> Seq<Seq<char>> {
    if is_nonblank(line) {
        seq![line]
    } else {
        Seq::empty()
    }
}

/// The lines of a text from `i` on, where a line starts at `i` and ends
/// with the line feed at `k`.
pub proof fn lemma_lines_first(s: Seq<char>, i: int, k: int)
    requires
        0 <= i <= k < s.len(),
        forall|m: int| i <= m < k ==> #[trigger] s[m] != '\n',
        s[k] == '\n',
    ensures
        logical_lines(s.subrange(i, s.len() as int)) == kept(strip_cr(s.subrange(i, k)))
            + logical_lines(s.subrange(k + 1, s.len() as int)),
{
    let t = s.subrange(i, s.len() as int);
    let stop = |c: char| c == '\n';
    assert forall|m: int| 0 <= m < k - i implies !stop(#[trigger] t[m]) by {
        assert(t[m] == s[m + i]);
    }
    assert(t[k - i] == s[k]);
    lemma_run_len_is(t, stop, k - i);
    assert(t.subrange(0, k - i) =~= s.subrange(i, k));
    assert(t.subrange(k - i + 1, t.len() as int) =~= s.subrange(k + 1, s.len() as int));
    lines(s.subrange(k + 1, s.len() as int)).lemma_filter_prepend(
        strip_cr(s.subrange(i, k)),
        |line: Seq<char>| is_nonblank(line),
    );
}

/// The lines of a text from `i` on, where no line feed follows.
pub proof fn lemma_lines_last(s: Seq<char>, i: int)
    requires
        0 <= i <= s.len(),
        forall|m: int| i <= m < s.len() ==> #[trigger] s[m] != '\n',
    ensures
        logical_lines(s.subrange(i, s.len() as int)) == kept(s.subrange(i, s.len() as int)),
{
    let t = s.subrange(i, s.len() as int);
    let stop = |c: char| c == '\n';
    let keep = |line: Seq<char>| is_nonblank(line);
    assert forall|m: int| 0 <= m < t.len() implies !stop(#[trigger] t[m]) by {
        assert(t[m] == s[m + i]);
    }
    lemma_run_len_is(t, stop, t.len() as int);
    reveal_with_fuel(Seq::filter, 2);
    if t.len() > 0 {
        assert(seq![t].drop_last() =~= Seq::<Seq<char>>::empty());
        assert(seq![t].filter(keep) =~= seq![t]);
    } else {
        assert(lines(t) =~= Seq::<Seq<char>>::empty());
    }
}

/// No blank line is among the lines that are kept.
pub proof fn lemma_logical_lines_nonblank(s: Seq<char>)
    ensures
        forall|i: int| 0 <= i < logical_lines(s).len() ==> (#[trigger] logical_lines(s)[i]).len() > 0,
{
    let keep = |line: Seq<char>| is_nonblank(line);
    assert forall|i: int| 0 <= i < logical_lines(s).len() implies (#[trigger] logical_lines(
        s,
    )[i]).len() > 0 by {
        lines(s).lemma_filter_pred(keep, i);
    }
}

/// A text that is cut after a line feed has the lines of its first part,
/// then those of its second part.
pub proof fn lemma_lines_concat(before: Seq<char>, after: Seq<char>)
    requires
        before.len() == 0 || before.last() == '\n',
    ensures
        logical_lines(before + after) == logical_lines(before) + logical_lines(after),
    decreases before.len(),
{
    let whole = before + after;
    if before.len() == 0 {
        assert(whole =~= after);
        lemma_lines_last(before, 0);
        assert(before.subrange(0, 0) =~= before);
        assert(logical_lines(before) + logical_lines(after) =~= logical_lines(after));
    } else {
        let stop = |c: char| c == '\n';
        lemma_run_len(before, stop);
        let n = line_len(before) as int;
        assert(n < before.len()) by {
            if n == before.len() {
                assert(!stop(before[before.len() - 1]));
            }
        }
        let rest = before.subrange(n + 1, before.len() as int);
        assert(rest.len() == 0 || rest.last() == '\n') by {
            if rest.len() > 0 {
                assert(rest.last() == before.last());
            }
        }
        lemma_lines_concat(rest, after);
        assert forall|m: int| 0 <= m < n implies #[trigger] before[m] != '\n' by {
            assert(!stop(before[m]));
        }
        assert forall|m: int| 0 <= m < n implies #[trigger] whole[m] != '\n' by {
            assert(whole[m] == before[m]);
        }
        assert(whole[n] == before[n]);
        lemma_lines_first(before, 0, n);
        lemma_lines_first(whole, 0, n);
        assert(before.subrange(0, before.len() as int) =~= before);
        assert(whole.subrange(0, whole.len() as int) =~= whole);
        assert(whole.subrange(0, n) =~= before.subrange(0, n));
        assert(whole.subrange(n + 1, whole.len() as int) =~= rest + after);
        assert(logical_lines(whole) =~= logical_lines(before) + logical_lines(after));
    }
}

/// The line feed at the end of a text is optional: a text has the same
/// lines with it and without it, unless it ends in a carriage return,
/// which the line feed would take with it.
pub proof fn lemma_final_line_feed_is_optional(s: Seq<char>)
    requires
        s.len() == 0 || (s.last() != '\n' && s.last() != '\r'),
    ensures
        logical_lines(s + seq!['\n']) == logical_lines(s),
    decreases s.len(),
{
    let whole = s + seq!['\n'];
    let stop = |c: char| c == '\n';
    lemma_run_len(s, stop);
    let n = line_len(s) as int;
    assert forall|m: int| 0 <= m < n implies #[trigger] s[m] != '\n' by {
        assert(!stop(s[m]));
    }
    assert forall|m: int| 0 <= m < n implies #[trigger] whole[m] != '\n' by {
        assert(whole[m] == s[m]);
    }
    assert(s.subrange(0, s.len() as int) =~= s);
    assert(whole.subrange(0, whole.len() as int) =~= whole);
    assert(whole.subrange(0, n) =~= s.subrange(0, n));
    lemma_lines_first(whole, 0, n);
    if n == s.len() {
        lemma_lines_last(s, 0);
        lemma_lines_last(whole, n + 1);
        assert(whole.subrange(n + 1, whole.len() as int) =~= Seq::<char>::empty());
        assert(strip_cr(s) == s);
        assert(kept(s) + Seq::<Seq<char>>::empty() =~= kept(s));
    } else {
        assert(stop(s[n]));
        assert(whole[n] == s[n]);
        let rest = s.subrange(n + 1, s.len() as int);
        assert(rest.len() == 0 || rest.last() == s.last());
        lemma_final_line_feed_is_optional(rest);
        lemma_lines_first(s, 0, n);
        assert(whole.subrange(n + 1, whole.len() as int) =~= rest + seq!['\n']);
    }
}

/// Whether `s` is the text of one blank line: a line feed, alone or after
/// a carriage return.
pub open spec fn is_blank_line(s: Seq<char>) -> bool {
    s == seq!['\n'] || s == seq!['\r', '\n']
}

/// The text of a blank line has no lines that are kept.
pub proof fn lemma_blank_line_is_dropped(blank: Seq<char>)
    requires
        is_blank_line(blank),
    ensures
        logical_lines(blank) == Seq::<Seq<char>>::empty(),
{
    let k = blank.len() - 1;
    assert(blank[k] == '\n');
    lemma_lines_first(blank, 0, k);
    lemma_lines_last(blank, k + 1);
    assert(blank.subrange(0, blank.len() as int) =~= blank);
    assert(strip_cr(blank.subrange(0, k)) =~= Seq::<char>::empty());
    assert(blank.subrange(k + 1, blank.len() as int) =~= Seq::<char>::empty());
}

/// A blank line before the first line of a text, or after any line feed,
/// changes nothing: the lines that are kept, and so their positions, are
/// the same with it and without it.
pub proof fn lemma_blank_line_changes_nothing(before: Seq<char>, blank: Seq<char>, after: Seq<char>)
    requires
        before.len() == 0 || before.last() == '\n',
        is_blank_line(blank),
    ensures
        logical_lines(before + blank + after) == logical_lines(before + after),
{
    lemma_lines_concat(before, after);
    lemma_lines_concat(before, blank);
    lemma_lines_concat(before + blank, after);
    lemma_blank_line_is_dropped(blank);
    assert(logical_lines(before) + Seq::<Seq<char>>::empty() =~= logical_lines(before));
}

/// Splits a text into its lines and keeps those that are not blank, in
/// their order. Each line is a part of `text`, without its terminator.
pub fn split_lines(text: &str) -> (out: Vec<&str>)
    ensures
        texts(out@) == logical_lines(text@),
        forall|i: int| 0 <= i < out@.len() ==> (#[trigger] out@[i])@.len() > 0,
{
    let mut out: Vec<&str> = Vec::new();
    // The length of the text in bytes, which no offset below exceeds.
    let total: usize = text.as_bytes().len();
    // The byte offset of the character that comes next.
    let mut pos: usize = 0;
    // The byte offset and the character position at which the line begins
    // that is being read.
    let mut start: usize = 0;
    let ghost mut start_i: int = 0;
    // Whether the last character read belongs to this line and is a
    // carriage return.
    let mut after_cr: bool = false;
    proof {
        lemma_byte_offset_step(text@, 0, 0);
        assert(text@.subrange(0, text@.len() as int) =~= text@);
        assert(texts(out@) =~= Seq::<Seq<char>>::empty());
    }
    for c in it: text.chars()
        invariant
            it.seq() == text@,
            total == byte_len(text@),
            pos == byte_offset(text@, it.index() as int),
            start == byte_offset(text@, start_i),
            0 <= start_i <= it.index(),
            forall|m: int| start_i <= m < it.index() ==> #[trigger] text@[m] != '\n',
            after_cr == (start_i < it.index() && text@[it.index() - 1] == '\r'),
            texts(out@) + logical_lines(text@.subrange(start_i, text@.len() as int))
                == logical_lines(text@),
    {
        let ghost k = it.index() as int;
        let w: usize = char_width(c);
        proof {
            assert(text@.subrange(k, k + 1) =~= seq![c]);
            lemma_byte_offset_step(text@, k, k + 1);
            lemma_byte_offset_step(text@, start_i, k);
        }
        if c == '\n' {
            let ghost whole = text@.subrange(start_i, k);
            let ghost end_i = if after_cr { k - 1 } else { k };
            let end: usize = if after_cr { pos - 1 } else { pos };
            proof {
                lemma_lines_first(text@, start_i, k);
                if after_cr {
                    assert(whole.last() == '\r');
                    assert(text@.subrange(k - 1, k) =~= seq!['\r']);
                    lemma_char_width('\r');
                    lemma_byte_offset_step(text@, k - 1, k);
                }
                assert(strip_cr(whole) =~= text@.subrange(start_i, end_i));
                lemma_byte_offset_step(text@, start_i, end_i);
            }
            if end > start {
                let line = slice_between(text, start, end, Ghost(start_i), Ghost(end_i));
                proof {
                    assert(texts(out@.push(line)) =~= texts(out@) + seq![line@]);
                }
                out.push(line);
            } else {
                assert(end_i == start_i);
            }
            start = pos + w;
            after_cr = false;
            proof {
                start_i = k + 1;
            }
        } else {
            after_cr = c == '\r';
        }
        pos = pos + w;
    }
    let ghost n = text@.len() as int;
    proof {
        lemma_lines_last(text@, start_i);
        lemma_byte_offset_step(text@, start_i, n);
    }
    if pos > start {
        let line = slice_between(text, start, pos, Ghost(start_i), Ghost(n));
        proof {
            assert(texts(out@.push(line)) =~= texts(out@) + seq![line@]);
        }
        out.push(line);
    }
    proof {
        lemma_logical_lines_nonblank(text@);
        assert forall|i: int| 0 <= i < out@.len() implies (#[trigger] out@[i])@.len() > 0 by {
            assert(texts(out@)[i] == out@[i]@);
        }
    }
    out
}

} // verus!
