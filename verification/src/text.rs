//! Strings as sequences of characters.
//!
//! A `&str` is viewed as the sequence of its characters, but Rust cuts it
//! at byte offsets. The functions here keep the two in step: a scan that
//! walks the characters of a string adds up their encoded widths, and the
//! offsets it reaches are exactly the places where the string may be cut.

use vstd::prelude::*;
use vstd::string::*;
use vstd::utf8::*;

verus! {

/// The character sequences of a list of strings.
pub open spec fn texts(v: Seq<&str>) -> Seq<Seq<char>> {
    Seq::new(v.len(), |i: int| v[i]@)
}

/// The number of characters at the start of `s` before the first one that
/// satisfies `stop`; all of `s` if none does.
pub open spec fn run_len(s: Seq<char>, stop: spec_fn(char) -> bool) -> nat
    decreases s.len(),
{
    if s.len() == 0 || stop(s[0]) {
        0
    } else {
        1 + run_len(s.drop_first(), stop)
    }
}

/// What `run_len` measures: a prefix free of stopping characters that ends
/// at one, or at the end of `s`.
pub proof fn lemma_run_len(s: Seq<char>, stop: spec_fn(char) -> bool)
    ensures
        run_len(s, stop) <= s.len(),
        forall|i: int| 0 <= i < run_len(s, stop) ==> !stop(#[trigger] s[i]),
        run_len(s, stop) < s.len() ==> stop(s[run_len(s, stop) as int]),
    decreases s.len(),
{
    if s.len() == 0 || stop(s[0]) {
    } else {
        let rest = s.drop_first();
        lemma_run_len(rest, stop);
        assert forall|i: int| 0 <= i < run_len(s, stop) implies !stop(#[trigger] s[i]) by {
            if i > 0 {
                assert(s[i] == rest[i - 1]);
            }
        }
    }
}

/// A prefix free of stopping characters that ends at one, or at the end of
/// `s`, has the length that `run_len` gives.
pub proof fn lemma_run_len_is(s: Seq<char>, stop: spec_fn(char) -> bool, n: int)
    requires
        0 <= n <= s.len(),
        forall|i: int| 0 <= i < n ==> !stop(#[trigger] s[i]),
        n < s.len() ==> stop(s[n]),
    ensures
        run_len(s, stop) == n,
    decreases s.len(),
{
    if n > 0 {
        let rest = s.drop_first();
        assert forall|i: int| 0 <= i < n - 1 implies !stop(#[trigger] rest[i]) by {
            assert(rest[i] == s[i + 1]);
        }
        assert(!stop(s[0]));
        lemma_run_len_is(rest, stop, n - 1);
    }
}

/// The number of bytes that the UTF-8 encoding of `chars` occupies.
pub open spec fn byte_len(chars: Seq<char>) -> nat {
    encode_utf8(chars).len()
}

/// The byte offset in the encoding of `chars` at which character `i` starts.
pub open spec fn byte_offset(chars: Seq<char>, i: int) -> nat
    recommends
        0 <= i <= chars.len(),
{
    byte_len(chars.subrange(0, i))
}

/// The encoding of two sequences in a row is the encoding of the first,
/// then that of the second.
pub proof fn lemma_encode_concat(a: Seq<char>, b: Seq<char>)
    ensures
        encode_utf8(a + b) == encode_utf8(a) + encode_utf8(b),
    decreases a.len(),
{
    if a.len() == 0 {
        assert(a + b =~= b);
        assert(encode_utf8(a) + encode_utf8(b) =~= encode_utf8(b));
    } else {
        assert((a + b).drop_first() =~= a.drop_first() + b);
        lemma_encode_concat(a.drop_first(), b);
        assert(encode_utf8(a + b) =~= encode_utf8(a) + encode_utf8(b));
    }
}

/// The end of an encoded prefix is a character boundary of the whole encoding.
pub proof fn lemma_boundary_after_prefix(a: Seq<char>, b: Seq<char>)
    ensures
        is_char_boundary(encode_utf8(a + b), byte_len(a) as int),
    decreases a.len(),
{
    let bytes = encode_utf8(a + b);
    encode_utf8_valid_utf8(a + b);
    if a.len() > 0 {
        let rest = a.drop_first();
        assert((a + b).drop_first() =~= rest + b);
        encode_utf8_first_scalar(a + b);
        assert(pop_first_scalar(bytes) =~= encode_utf8(rest + b));
        lemma_boundary_after_prefix(rest, b);
        lemma_encode_concat(a, b);
    }
}

/// A string holds the characters that its bytes encode.
pub proof fn lemma_view_of_bytes(s: &str, chars: Seq<char>)
    requires
        s.spec_bytes() == encode_utf8(chars),
    ensures
        s@ == chars,
{
    encode_utf8_decode_utf8(s@);
    encode_utf8_decode_utf8(chars);
}

/// Every character takes at least one byte.
pub proof fn lemma_byte_len_lower_bound(chars: Seq<char>)
    ensures
        byte_len(chars) >= chars.len(),
    decreases chars.len(),
{
    if chars.len() > 0 {
        char_is_scalar(chars[0]);
        lemma_byte_len_lower_bound(chars.drop_first());
    }
}

/// Byte offsets grow with the character position, by at least one byte for
/// each character, from zero up to the length of the encoding.
pub proof fn lemma_byte_offset_step(chars: Seq<char>, i: int, j: int)
    requires
        0 <= i <= j <= chars.len(),
    ensures
        byte_offset(chars, j) == byte_offset(chars, i) + byte_len(chars.subrange(i, j)),
        byte_len(chars.subrange(i, j)) >= j - i,
        byte_offset(chars, j) <= byte_len(chars),
        byte_offset(chars, 0) == 0,
        byte_offset(chars, chars.len() as int) == byte_len(chars),
{
    assert(chars.subrange(0, j) =~= chars.subrange(0, i) + chars.subrange(i, j));
    lemma_encode_concat(chars.subrange(0, i), chars.subrange(i, j));
    lemma_byte_len_lower_bound(chars.subrange(i, j));
    assert(chars =~= chars.subrange(0, j) + chars.subrange(j, chars.len() as int));
    lemma_encode_concat(chars.subrange(0, j), chars.subrange(j, chars.len() as int));
    assert(chars.subrange(0, 0) =~= Seq::<char>::empty());
    assert(chars.subrange(0, chars.len() as int) =~= chars);
}

/// The encoded width of a single character, by the range of its code point.
pub proof fn lemma_char_width(c: char)
    ensures
        byte_len(seq![c]) == if (c as u32) < 0x80 {
            1nat
        } else if (c as u32) < 0x800 {
            2nat
        } else if (c as u32) < 0x10000 {
            3nat
        } else {
            4nat
        },
{
    assert(seq![c].drop_first() =~= Seq::<char>::empty());
    reveal_with_fuel(encode_utf8, 2);
    char_is_scalar(c);
}

/// The number of bytes in the UTF-8 encoding of `c`.
pub fn char_width(c: char) -> (w: usize)
    ensures
        w == byte_len(seq![c]),
        1 <= w <= 4,
{
    proof {
        lemma_char_width(c);
    }
    let v: u32 = c as u32;
    if v < 0x80 {
        1
    } else if v < 0x800 {
        2
    } else if v < 0x10000 {
        3
    } else {
        4
    }
}

/// The characters `i..j` of `s`, found at the byte offsets `from..to`.
pub(crate) fn slice_between<'a>(
    s: &'a str,
    from: usize,
    to: usize,
    Ghost(i): Ghost<int>,
    Ghost(j): Ghost<int>,
) -> (r: &'a str)
    requires
        0 <= i <= j <= s@.len(),
        from == byte_offset(s@, i),
        to == byte_offset(s@, j),
    ensures
        r@ == s@.subrange(i, j),
{
    let ghost a = s@.subrange(0, i);
    let ghost b = s@.subrange(i, j);
    let ghost c = s@.subrange(j, s@.len() as int);
    proof {
        assert(s@ =~= a + (b + c));
        assert(s@.subrange(0, j) =~= a + b);
        lemma_boundary_after_prefix(a, b + c);
        lemma_encode_concat(a, b + c);
        lemma_encode_concat(a, b);
        lemma_encode_concat(b, c);
        lemma_boundary_after_prefix(b, c);
    }
    let (_, tail) = s.split_at(from);
    proof {
        assert(tail.spec_bytes() =~= encode_utf8(b + c));
        lemma_view_of_bytes(tail, b + c);
    }
    let (mid, _) = tail.split_at(to - from);
    proof {
        assert(mid.spec_bytes() =~= encode_utf8(b));
        lemma_view_of_bytes(mid, b);
    }
    mid
}

/// Whether two strings hold the same characters.
pub fn str_eq(a: &str, b: &str) -> (r: bool)
    ensures
        r == (a@ == b@),
{
    let x = a.as_bytes();
    let y = b.as_bytes();
    proof {
        // Equal encodings decode to equal characters.
        encode_utf8_decode_utf8(a@);
        encode_utf8_decode_utf8(b@);
    }
    if x.len() != y.len() {
        return false;
    }
    let mut k: usize = 0;
    while k < x.len()
        invariant
            x@ == encode_utf8(a@),
            y@ == encode_utf8(b@),
            x@.len() == y@.len(),
            k <= x@.len(),
            forall|m: int| 0 <= m < k ==> x@[m] == y@[m],
        decreases x.len() - k,
    {
        if x[k] != y[k] {
            return false;
        }
        k += 1;
    }
    assert(x@ =~= y@);
    true
}

} // verus!
