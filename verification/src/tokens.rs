//! Splitting a line into its fields.
//!
//! The fields of a line are the runs of characters between whitespace.
//! Whitespace at the start and at the end of a line, and any amount of it
//! between two fields, only separates.

use crate::text::{
    byte_len, byte_offset, char_width, lemma_byte_offset_step, lemma_run_len, lemma_run_len_is,
    run_len, slice_between, str_eq, texts,
};
use vstd::prelude::*;
use vstd::std_specs::iter::IteratorSpec;

verus! {

/// Whether `c` separates fields: the characters that Unicode gives the
/// property `White_Space`.
pub open spec fn is_whitespace(c: char) -> bool {
    let v = c as u32;
    ||| 0x09 <= v <= 0x0D
    ||| v == 0x20
    ||| v == 0x85
    ||| v == 0xA0
    ||| v == 0x1680
    ||| 0x2000 <= v <= 0x200A
    ||| v == 0x2028
    ||| v == 0x2029
    ||| v == 0x202F
    ||| v == 0x205F
    ||| v == 0x3000
}

/// The number of characters in the field that `s` starts with; zero if `s`
/// is empty or starts with whitespace.
pub open spec fn field_len(s: Seq<char>) -> nat {
    run_len(s, |c: char| is_whitespace(c))
}

/// The fields of a line: its maximal runs of characters that are not
/// whitespace, from left to right.
pub open spec fn tokens(s: Seq<char>) -> Seq<Seq<char>>
    decreases s.len(),
    via tokens_decreases
{
    if s.len() == 0 {
        Seq::empty()
    } else if is_whitespace(s[0]) {
        tokens(s.drop_first())
    } else {
        let n = field_len(s) as int;
        seq![s.subrange(0, n)] + tokens(s.subrange(n, s.len() as int))
    }
}

#[via_fn]
proof fn tokens_decreases(s: Seq<char>) {
    lemma_run_len(s, |c: char| is_whitespace(c));
}

/// Whether `s` holds at least one character and no whitespace.
pub open spec fn is_field(s: Seq<char>) -> bool {
    s.len() > 0 && forall|i: int| 0 <= i < s.len() ==> !is_whitespace(#[trigger] s[i])
}

/// Whether the line has a field `i` and it reads `word`.
pub open spec fn field_is(fields: Seq<Seq<char>>, i: int, word: Seq<char>) -> bool {
    0 <= i < fields.len() && fields[i] == word
}

/// A line that starts with whitespace has the fields of what follows it.
proof fn lemma_tokens_skip(s: Seq<char>, k: int)
    requires
        0 <= k < s.len(),
        is_whitespace(s[k]),
    ensures
        tokens(s.subrange(k, s.len() as int)) == tokens(s.subrange(k + 1, s.len() as int)),
{
    let t = s.subrange(k, s.len() as int);
    assert(t.drop_first() =~= s.subrange(k + 1, s.len() as int));
}

/// A field that runs from `i` up to whitespace at `k`, or up to the end of
/// the line, is the first field of the line from `i` on.
proof fn lemma_tokens_field(s: Seq<char>, i: int, k: int)
    requires
        0 <= i < k <= s.len(),
        forall|m: int| i <= m < k ==> !is_whitespace(#[trigger] s[m]),
        k < s.len() ==> is_whitespace(s[k]),
    ensures
        tokens(s.subrange(i, s.len() as int)) == seq![s.subrange(i, k)] + tokens(
            s.subrange(k, s.len() as int),
        ),
{
    let t = s.subrange(i, s.len() as int);
    let stop = |c: char| is_whitespace(c);
    assert forall|m: int| 0 <= m < k - i implies !stop(#[trigger] t[m]) by {
        assert(t[m] == s[m + i]);
    }
    lemma_run_len_is(t, stop, k - i);
    assert(t[0] == s[i]);
    assert(t.subrange(0, k - i) =~= s.subrange(i, k));
    assert(t.subrange(k - i, t.len() as int) =~= s.subrange(k, s.len() as int));
}

/// A run of characters without whitespace is the one field of itself.
pub proof fn lemma_tokens_of_field(s: Seq<char>)
    requires
        is_field(s),
    ensures
        tokens(s) == seq![s],
{
    lemma_tokens_field(s, 0, s.len() as int);
    assert(s.subrange(0, s.len() as int) =~= s);
    assert(s.subrange(s.len() as int, s.len() as int) =~= Seq::<char>::empty());
    assert(seq![s] + Seq::<Seq<char>>::empty() =~= seq![s]);
}

/// A line that is cut after whitespace has the fields of its first part,
/// then those of its second part.
pub proof fn lemma_tokens_concat(before: Seq<char>, after: Seq<char>)
    requires
        before.len() == 0 || is_whitespace(before.last()),
    ensures
        tokens(before + after) == tokens(before) + tokens(after),
    decreases before.len(),
{
    let whole = before + after;
    if before.len() == 0 {
        assert(whole =~= after);
        assert(tokens(before) + tokens(after) =~= tokens(after));
    } else if is_whitespace(before[0]) {
        let rest = before.drop_first();
        assert(whole.drop_first() =~= rest + after);
        assert(rest.len() == 0 || rest.last() == before.last());
        lemma_tokens_concat(rest, after);
    } else {
        let stop = |c: char| is_whitespace(c);
        lemma_run_len(before, stop);
        let n = field_len(before) as int;
        assert(n < before.len()) by {
            if n == before.len() {
                assert(!stop(before[before.len() - 1]));
            }
        }
        let rest = before.subrange(n, before.len() as int);
        assert(rest.last() == before.last());
        lemma_tokens_concat(rest, after);
        assert forall|m: int| 0 <= m < n implies !is_whitespace(#[trigger] before[m]) by {
            assert(!stop(before[m]));
        }
        assert(stop(before[n]));
        assert forall|m: int| 0 <= m < n implies !is_whitespace(#[trigger] whole[m]) by {
            assert(whole[m] == before[m]);
        }
        assert(whole[n] == before[n]);
        lemma_tokens_field(before, 0, n);
        lemma_tokens_field(whole, 0, n);
        assert(before.subrange(0, before.len() as int) =~= before);
        assert(whole.subrange(0, whole.len() as int) =~= whole);
        assert(whole.subrange(0, n) =~= before.subrange(0, n));
        assert(whole.subrange(n, whole.len() as int) =~= rest + after);
        assert(tokens(whole) =~= tokens(before) + tokens(after));
    }
}

/// Every field of a line holds at least one character and no whitespace.
pub proof fn lemma_tokens_are_fields(s: Seq<char>)
    ensures
        forall|i: int| 0 <= i < tokens(s).len() ==> is_field(#[trigger] tokens(s)[i]),
    decreases s.len(),
{
    if s.len() == 0 {
        assert(tokens(s).len() == 0);
    } else if is_whitespace(s[0]) {
        lemma_tokens_are_fields(s.drop_first());
        assert(tokens(s) == tokens(s.drop_first()));
    } else {
        let stop = |c: char| is_whitespace(c);
        lemma_run_len(s, stop);
        let n = field_len(s) as int;
        let first = s.subrange(0, n);
        let rest = s.subrange(n, s.len() as int);
        lemma_tokens_are_fields(rest);
        assert forall|m: int| 0 <= m < first.len() implies !is_whitespace(#[trigger] first[m]) by {
            assert(!stop(s[m]));
        }
        assert(n >= 1);
        assert(tokens(s) == seq![first] + tokens(rest));
        assert forall|i: int| 0 <= i < tokens(s).len() implies is_field(#[trigger] tokens(s)[i]) by {
            if i > 0 {
                assert(tokens(s)[i] == tokens(rest)[i - 1]);
            } else {
                assert(tokens(s)[0] == first);
            }
        }
    }
}

/// Whether `c` separates fields.
pub fn is_separator(c: char) -> (r: bool)
    ensures
        r == is_whitespace(c),
{
    let v: u32 = c as u32;
    (0x09 <= v && v <= 0x0D) || v == 0x20 || v == 0x85 || v == 0xA0 || v == 0x1680 || (0x2000 <= v
        && v <= 0x200A) || v == 0x2028 || v == 0x2029 || v == 0x202F || v == 0x205F || v == 0x3000
}

/// Tells whether a line has a field `i` that reads `word`.
pub(crate) fn field_reads(fields: &[&str], i: usize, word: &str) -> (r: bool)
    ensures
        r == field_is(texts(fields@), i as int, word@),
{
    i < fields.len() && str_eq(fields[i], word)
}

/// Splits a line into its fields, from left to right. Each field is a
/// part of `line`.
pub fn split_tokens(line: &str) -> (out: Vec<&str>)
    ensures
        texts(out@) == tokens(line@),
        forall|i: int| 0 <= i < out@.len() ==> is_field((#[trigger] out@[i])@),
{
    let mut out: Vec<&str> = Vec::new();
    // The length of the line in bytes, which no offset below exceeds.
    let total: usize = line.as_bytes().len();
    // The byte offset of the character that comes next.
    let mut pos: usize = 0;
    // Whether a field has begun and not yet ended, and the byte offset at
    // which it began.
    let mut inside: bool = false;
    let mut start: usize = 0;
    // The character position up to which the fields are in `out`.
    let ghost mut start_i: int = 0;
    proof {
        lemma_byte_offset_step(line@, 0, 0);
        assert(line@.subrange(0, line@.len() as int) =~= line@);
        assert(texts(out@) =~= Seq::<Seq<char>>::empty());
    }
    for c in it: line.chars()
        invariant
            it.seq() == line@,
            total == byte_len(line@),
            pos == byte_offset(line@, it.index() as int),
            0 <= start_i <= it.index(),
            inside ==> start_i < it.index(),
            inside ==> start == byte_offset(line@, start_i),
            inside ==> forall|m: int| start_i <= m < it.index() ==> !is_whitespace(#[trigger] line@[m]),
            !inside ==> start_i == it.index(),
            texts(out@) + tokens(line@.subrange(start_i, line@.len() as int)) == tokens(line@),
    {
        let ghost k = it.index() as int;
        let w: usize = char_width(c);
        proof {
            assert(line@.subrange(k, k + 1) =~= seq![c]);
            lemma_byte_offset_step(line@, k, k + 1);
        }
        if is_separator(c) {
            if inside {
                let field = slice_between(line, start, pos, Ghost(start_i), Ghost(k));
                proof {
                    lemma_tokens_field(line@, start_i, k);
                    lemma_tokens_skip(line@, k);
                    assert(texts(out@.push(field)) =~= texts(out@) + seq![field@]);
                }
                out.push(field);
                inside = false;
            } else {
                proof {
                    lemma_tokens_skip(line@, k);
                }
            }
            proof {
                start_i = k + 1;
            }
        } else if !inside {
            start = pos;
            inside = true;
        }
        pos = pos + w;
    }
    if inside {
        let ghost n = line@.len() as int;
        let field = slice_between(line, start, pos, Ghost(start_i), Ghost(n));
        proof {
            lemma_tokens_field(line@, start_i, n);
            assert(line@.subrange(n, n) =~= Seq::<char>::empty());
            assert(texts(out@.push(field)) =~= texts(out@) + seq![field@]);
        }
        out.push(field);
    } else {
        proof {
            assert(line@.subrange(start_i, line@.len() as int) =~= Seq::<char>::empty());
        }
    }
    proof {
        lemma_tokens_are_fields(line@);
        assert forall|i: int| 0 <= i < out@.len() implies is_field((#[trigger] out@[i])@) by {
            assert(texts(out@)[i] == out@[i]@);
        }
    }
    out
}

} // verus!
