//! The plain-sequence model of document text, and the conversions between
//! strings and the character buffers the store keeps.
//!
//! Every contract on the text store is stated over `Seq<char>`: an edit is a
//! splice of that sequence, a line is the stretch between two terminators.

use vstd::prelude::*;
use vstd::utf8::{encode_scalar, encode_utf8, encode_utf8_decode_utf8};

verus! {

/// Longest document, in characters. No string this long can be built, and
/// staying below it keeps every offset and the line count within `usize`.
pub const MAX_TEXT_LEN: usize = usize::MAX / 2;

/// `s` with `ins` spliced in before position `offset`.
pub open spec fn splice_in<T>(s: Seq<T>, offset: int, ins: Seq<T>) -> Seq<T>
    recommends
        0 <= offset <= s.len(),
{
    s.subrange(0, offset) + ins + s.subrange(offset, s.len() as int)
}

/// `s` without the `length` items that start at `offset`.
pub open spec fn splice_out<T>(s: Seq<T>, offset: int, length: int) -> Seq<T>
    recommends
        0 <= offset,
        0 <= length,
        offset + length <= s.len(),
{
    s.subrange(0, offset) + s.subrange(offset + length, s.len() as int)
}

/// `n` times the same value.
pub open spec fn uniform<T>(n: nat, value: T) -> Seq<T> {
    Seq::new(n, |i: int| value)
}

/// The part of `s` that `[offset, offset + length)` covers; a range that
/// reaches past the end is cut at the end.
pub open spec fn text_range(s: Seq<char>, offset: int, length: int) -> Seq<char>
    recommends
        0 <= offset,
        0 <= length,
{
    let from = if offset < s.len() { offset } else { s.len() as int };
    let to = if offset + length < s.len() { offset + length } else { s.len() as int };
    s.subrange(from, to)
}

/// Positions of the line terminators of `s`, in increasing order.
pub open spec fn newline_positions(s: Seq<char>) -> Seq<int>
    decreases s.len(),
{
    if s.len() == 0 {
        Seq::empty()
    } else if s.last() == '\n' {
        newline_positions(s.drop_last()).push(s.len() - 1)
    } else {
        newline_positions(s.drop_last())
    }
}

/// Number of lines: one more than the number of terminators, and none at all
/// in an empty document.
pub open spec fn line_count(s: Seq<char>) -> nat {
    if s.len() == 0 {
        0
    } else {
        newline_positions(s).len() + 1
    }
}

/// Position of the first character of line `k`.
pub open spec fn line_start(s: Seq<char>, k: int) -> int
    recommends
        0 <= k < line_count(s),
{
    if k == 0 {
        0
    } else {
        newline_positions(s)[k - 1] + 1
    }
}

/// Position just past the last character of line `k`: that of its
/// terminator, or the end of the text for the last line.
pub open spec fn line_end(s: Seq<char>, k: int) -> int
    recommends
        0 <= k < line_count(s),
{
    if k < newline_positions(s).len() {
        newline_positions(s)[k]
    } else {
        s.len() as int
    }
}

/// Content of line `k`, its terminator left out.
pub open spec fn line_text(s: Seq<char>, k: int) -> Seq<char>
    recommends
        0 <= k < line_count(s),
{
    s.subrange(line_start(s, k), line_end(s, k))
}

/// `index` lists, in order, the terminator positions of `span`.
pub open spec fn is_line_index(index: Seq<usize>, span: Seq<char>) -> bool {
    &&& index.len() == newline_positions(span).len()
    &&& forall|i: int| 0 <= i < index.len() ==> #[trigger] index[i] as int == newline_positions(span)[i]
}

/// Each listed position is inside the text and holds a terminator, the list
/// is strictly increasing, and no terminator is missing from it.
pub proof fn lemma_newline_positions(s: Seq<char>)
    ensures
        newline_positions(s).len() <= s.len(),
        forall|i: int|
            0 <= i < newline_positions(s).len() ==> 0 <= #[trigger] newline_positions(s)[i] < s.len()
                && s[newline_positions(s)[i]] == '\n',
        forall|i: int, j: int|
            0 <= i < j < newline_positions(s).len() ==> #[trigger] newline_positions(s)[i]
                < #[trigger] newline_positions(s)[j],
        forall|p: int|
            0 <= p < s.len() && #[trigger] s[p] == '\n' ==> newline_positions(s).contains(p),
    decreases s.len(),
{
    if s.len() > 0 {
        let init = s.drop_last();
        lemma_newline_positions(init);
        let np = newline_positions(s);
        let rest = newline_positions(init);
        assert forall|p: int| 0 <= p < s.len() && #[trigger] s[p] == '\n' implies np.contains(p) by {
            if p < init.len() {
                assert(init[p] == '\n');
                let w = choose|w: int| 0 <= w < rest.len() && rest[w] == p;
                assert(np[w] == p);
            } else {
                assert(np[np.len() - 1] == p);
            }
        }
    }
}

/// The terminators of a concatenation are those of the first part followed by
/// those of the second, the latter moved right by the first part's length.
pub proof fn lemma_newline_positions_concat(a: Seq<char>, b: Seq<char>)
    ensures
        newline_positions(a + b).len() == newline_positions(a).len() + newline_positions(b).len(),
        forall|i: int|
            0 <= i < newline_positions(a).len() ==> #[trigger] newline_positions(a + b)[i]
                == newline_positions(a)[i],
        forall|i: int|
            0 <= i < newline_positions(b).len() ==> #[trigger] newline_positions(a + b)[
                newline_positions(a).len() + i
            ] == newline_positions(b)[i] + a.len(),
    decreases b.len(),
{
    if b.len() == 0 {
        assert(a + b =~= a);
    } else {
        assert((a + b).drop_last() =~= a + b.drop_last());
        lemma_newline_positions_concat(a, b.drop_last());
    }
}

/// Whether two strings hold the same characters.
pub fn str_eq(a: &str, b: &str) -> (r: bool)
    ensures
        r == (a@ == b@),
{
    let x = a.as_bytes();
    let y = b.as_bytes();
    proof {
        encode_utf8_decode_utf8(a@);
        encode_utf8_decode_utf8(b@);
    }
    if x.len() != y.len() {
        return false;
    }
    let mut i: usize = 0;
    while i < x.len()
        invariant
            i <= x.len(),
            x.len() == y.len(),
            a@ == b@ ==> x@ == y@,
            forall|k: int| 0 <= k < i ==> x@[k] == y@[k],
        decreases x.len() - i,
    {
        if x[i] != y[i] {
            return false;
        }
        i += 1;
    }
    proof {
        assert(x@ =~= y@);
        assert(vstd::utf8::decode_utf8(x@) == a@);
    }
    true
}

/// Characters of `s`, in order.
pub fn to_chars(s: &str) -> (v: Vec<char>)
    ensures
        v@ == s@,
{
    let mut v: Vec<char> = Vec::new();
    for c in it: s.chars()
        invariant
            v@ == it.seq().take(it.index() as int),
    {
        v.push(c);
    }
    v
}

/// `String::push`: the string grows by exactly the given character, at its end.
pub assume_specification[ String::push ](s: &mut String, c: char)
    ensures
        final(s)@ == old(s)@.push(c),
;

/// Appends `buffer[from..to]` to `out`.
pub fn append_chars(out: &mut String, buffer: &Vec<char>, from: usize, to: usize)
    requires
        from <= to <= buffer.len(),
    ensures
        final(out)@ == old(out)@ + buffer@.subrange(from as int, to as int),
{
    let mut i: usize = from;
    while i < to
        invariant
            from <= i <= to <= buffer.len(),
            out@ == old(out)@ + buffer@.subrange(from as int, i as int),
        decreases to - i,
    {
        out.push(buffer[i]);
        assert(buffer@.subrange(from as int, i + 1) =~= buffer@.subrange(from as int, i as int).push(
            buffer@[i as int],
        ));
        i += 1;
    }
}

/// The string made of the characters of `chars`.
pub fn to_text(chars: &Vec<char>) -> (s: String)
    ensures
        s@ == chars@,
{
    let mut s = String::new();
    append_chars(&mut s, chars, 0, chars.len());
    assert(chars@.subrange(0, chars.len() as int) =~= chars@);
    s
}

/// Terminator positions of `buffer[start..start + length]`, counted from
/// `start`.
pub fn scan_line_starts(buffer: &Vec<char>, start: usize, length: usize) -> (index: Vec<usize>)
    requires
        start + length <= buffer.len(),
    ensures
        is_line_index(index@, buffer@.subrange(start as int, start + length)),
{
    let mut index: Vec<usize> = Vec::new();
    let mut i: usize = 0;
    while i < length
        invariant
            i <= length,
            start + length <= buffer.len(),
            is_line_index(index@, buffer@.subrange(start as int, start + i)),
        decreases length - i,
    {
        let ghost seen = buffer@.subrange(start as int, start + i);
        let ghost next = buffer@.subrange(start as int, start + i + 1);
        assert(next.drop_last() =~= seen);
        assert(next.last() == buffer@[start + i]);
        if buffer[start + i] == '\n' {
            index.push(i);
        }
        i += 1;
    }
    index
}

/// Number of bytes that `c` takes in UTF-8.
pub open spec fn utf8_width(c: char) -> nat {
    encode_scalar(c as u32).len()
}

/// Number of bytes that the characters before `position` take in UTF-8, and
/// so the byte offset in a string of its character number `position`; for a
/// position at or past the end, the length of the string in bytes.
pub open spec fn byte_offset_of(t: Seq<char>, position: int) -> nat {
    if position <= t.len() {
        encode_utf8(t.take(position)).len()
    } else {
        encode_utf8(t).len()
    }
}

/// The encoding of a text is that of its parts, one after the other.
pub proof fn lemma_encode_concat(a: Seq<char>, b: Seq<char>)
    ensures
        encode_utf8(a + b) == encode_utf8(a) + encode_utf8(b),
    decreases a.len(),
{
    if a.len() == 0 {
        assert(a + b =~= b);
        assert(encode_utf8(a) + encode_utf8(b) =~= encode_utf8(b));
    } else {
        assert((a + b).drop_first() =~= a.drop_first() + b);
        assert((a + b)[0] == a[0]);
        lemma_encode_concat(a.drop_first(), b);
        assert(encode_utf8(a + b) =~= encode_utf8(a) + encode_utf8(b));
    }
}

/// One character more takes its own bytes more, and no prefix takes more
/// bytes than the whole.
pub proof fn lemma_byte_offset_step(t: Seq<char>, i: int)
    requires
        0 <= i < t.len(),
    ensures
        encode_utf8(t.take(i + 1)).len() == encode_utf8(t.take(i)).len() + utf8_width(t[i]),
        encode_utf8(t.take(i + 1)).len() <= encode_utf8(t).len(),
        1 <= utf8_width(t[i]) <= 4,
{
    let one = seq![t[i]];
    assert(t.take(i + 1) =~= t.take(i) + one);
    lemma_encode_concat(t.take(i), one);
    let c = t[i];
    vstd::utf8::char_is_scalar(c);
    assert(one.drop_first() =~= Seq::<char>::empty());
    assert(encode_utf8(Seq::<char>::empty()) =~= Seq::<u8>::empty());
    assert(one[0] == c);
    assert(encode_utf8(one) =~= encode_scalar(c as u32) + encode_utf8(one.drop_first()));
    assert(encode_utf8(one) =~= encode_scalar(c as u32));
    assert(t =~= t.take(i + 1) + t.skip(i + 1));
    lemma_encode_concat(t.take(i + 1), t.skip(i + 1));
}

/// Number of bytes that `c` takes in UTF-8.
pub fn utf8_width_of(c: char) -> (w: usize)
    ensures
        w == utf8_width(c),
        1 <= w <= 4,
{
    let u = c as u32;
    if u < 0x80 {
        1
    } else if u < 0x800 {
        2
    } else if u < 0x10000 {
        3
    } else {
        4
    }
}

/// Byte offset in `text` of its character number `position`; the length of
/// `text` in bytes for a position at or past its end.
pub fn byte_offset(text: &str, position: usize) -> (r: usize)
    ensures
        r == byte_offset_of(text@, position as int),
{
    let chars = to_chars(text);
    let total = text.as_bytes().len();
    let limit = if position < chars.len() { position } else { chars.len() };
    let mut i: usize = 0;
    let mut r: usize = 0;
    proof {
        assert(chars@.take(0) =~= Seq::<char>::empty());
    }
    while i < limit
        invariant
            i <= limit <= chars.len(),
            chars@ == text@,
            total == encode_utf8(chars@).len(),
            r == encode_utf8(chars@.take(i as int)).len(),
        decreases limit - i,
    {
        proof {
            lemma_byte_offset_step(chars@, i as int);
        }
        r += utf8_width_of(chars[i]);
        i += 1;
    }
    proof {
        if position >= chars.len() {
            assert(chars@.take(i as int) =~= chars@);
        }
    }
    r
}

} // verus!
