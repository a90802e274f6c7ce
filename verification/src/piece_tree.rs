//! The text store: a document held as an ordered list of pieces, each a span
//! of one of two append-only buffers together with the positions of the line
//! terminators inside it.
//!
//! Edits never move text. An insertion appends to the added buffer and puts
//! one new piece into the list; a deletion drops or trims pieces. A piece is
//! cut in two wherever an edit lands inside it, and each half inherits its
//! share of the terminator positions, so no edit rescans the document.

use crate::error::CommandError;
use crate::text::{
    append_chars, is_line_index, lemma_newline_positions, lemma_newline_positions_concat,
    line_count, line_text, newline_positions, scan_line_starts, splice_in, splice_out,
    text_range, to_chars, uniform, MAX_TEXT_LEN,
};
use vstd::prelude::*;

verus! {

/// Names one of the two backing buffers.
#[derive(Clone, Copy, Debug, PartialEq, Eq, Structural)]
pub enum BufferId {
    /// Text present when the document was loaded; never written again.
    Original,
    /// Text inserted since; only ever appended to.
    Added,
}

/// Character formatting, uniform over one piece.
#[derive(Debug, PartialEq, Eq)]
pub struct TextAttributes {
    pub bold: bool,
    pub italic: bool,
    pub underline: bool,
    pub font_family: Option<String>,
    /// Size in half-points.
    pub font_size: Option<u32>,
    /// Colour as hexadecimal RGB.
    pub color: Option<String>,
}

fn clone_name(name: &Option<String>) -> (r: Option<String>)
    ensures
        r == *name,
{
    match name {
        Some(s) => Some(s.clone()),
        None => None,
    }
}

impl Clone for TextAttributes {
    fn clone(&self) -> (r: Self)
        ensures
            r == *self,
    {
        TextAttributes {
            bold: self.bold,
            italic: self.italic,
            underline: self.underline,
            font_family: clone_name(&self.font_family),
            font_size: self.font_size,
            color: clone_name(&self.color),
        }
    }
}

/// A copy of optional formatting.
pub fn clone_attributes(attributes: &Option<TextAttributes>) -> (r: Option<TextAttributes>)
    ensures
        r == *attributes,
{
    match attributes {
        Some(a) => Some(a.clone()),
        None => None,
    }
}

/// A span `[start, start + length)` of one buffer.
#[derive(Debug)]
pub struct Piece {
    pub buffer_id: BufferId,
    pub start: usize,
    pub length: usize,
    /// Offsets, counted from `start`, of the line terminators in the span.
    pub line_starts: Vec<usize>,
    pub attributes: Option<TextAttributes>,
}

pub open spec fn buffer_of(id: BufferId, original: Seq<char>, added: Seq<char>) -> Seq<char> {
    match id {
        BufferId::Original => original,
        BufferId::Added => added,
    }
}

/// The characters a piece stands for.
pub open spec fn piece_text(p: Piece, original: Seq<char>, added: Seq<char>) -> Seq<char> {
    buffer_of(p.buffer_id, original, added).subrange(p.start as int, p.start + p.length)
}

/// The formatting of a piece, once per character.
pub open spec fn piece_formats(p: Piece) -> Seq<Option<TextAttributes>> {
    uniform(p.length as nat, p.attributes)
}

/// A piece is never empty, lies inside its buffer, and lists exactly the
/// terminators of its span.
pub open spec fn piece_wf(p: Piece, original: Seq<char>, added: Seq<char>) -> bool {
    &&& p.length > 0
    &&& p.start + p.length <= buffer_of(p.buffer_id, original, added).len()
    &&& p.start + p.length <= usize::MAX
    &&& is_line_index(p.line_starts@, piece_text(p, original, added))
}

pub open spec fn pieces_wf(ps: Seq<Piece>, original: Seq<char>, added: Seq<char>) -> bool {
    forall|i: int| 0 <= i < ps.len() ==> piece_wf(#[trigger] ps[i], original, added)
}

/// Sum of the lengths of the pieces.
pub open spec fn pieces_len(ps: Seq<Piece>) -> int
    decreases ps.len(),
{
    if ps.len() == 0 {
        0
    } else {
        pieces_len(ps.drop_last()) + ps.last().length
    }
}

/// Number of terminators that the pieces list.
pub open spec fn pieces_newlines(ps: Seq<Piece>) -> int
    decreases ps.len(),
{
    if ps.len() == 0 {
        0
    } else {
        pieces_newlines(ps.drop_last()) + ps.last().line_starts@.len()
    }
}

/// The text of the pieces, one after another.
pub open spec fn pieces_text(ps: Seq<Piece>, original: Seq<char>, added: Seq<char>) -> Seq<char>
    decreases ps.len(),
{
    if ps.len() == 0 {
        Seq::empty()
    } else {
        pieces_text(ps.drop_last(), original, added) + piece_text(ps.last(), original, added)
    }
}

/// The formatting of the pieces, character by character.
pub open spec fn pieces_formats(ps: Seq<Piece>) -> Seq<Option<TextAttributes>>
    decreases ps.len(),
{
    if ps.len() == 0 {
        Seq::empty()
    } else {
        pieces_formats(ps.drop_last()) + piece_formats(ps.last())
    }
}

/// What a piece describes: a span of a buffer and its formatting. The
/// terminator positions that a piece also carries follow from these.
pub struct PieceSpan {
    pub buffer_id: BufferId,
    pub start: nat,
    pub length: nat,
    pub attributes: Option<TextAttributes>,
}

impl View for Piece {
    type V = PieceSpan;

    open spec fn view(&self) -> PieceSpan {
        PieceSpan {
            buffer_id: self.buffer_id,
            start: self.start as nat,
            length: self.length as nat,
            attributes: self.attributes,
        }
    }
}

/// The spans of the pieces.
pub open spec fn spans_of(ps: Seq<Piece>) -> Seq<PieceSpan> {
    Seq::new(ps.len(), |i: int| ps[i]@)
}

/// Sum of the lengths of the spans.
pub open spec fn spans_len(spans: Seq<PieceSpan>) -> int
    decreases spans.len(),
{
    if spans.len() == 0 {
        0
    } else {
        spans_len(spans.drop_last()) + spans.last().length
    }
}

/// Where position `offset` of the text falls: the index of the span that
/// holds it and how far into that span it lies. The end of the text falls
/// behind the last span.
pub open spec fn span_at(spans: Seq<PieceSpan>, offset: int) -> (int, int)
    decreases spans.len(),
{
    if spans.len() == 0 {
        (0, 0)
    } else if offset >= spans_len(spans) {
        (spans.len() as int, 0)
    } else if offset >= spans_len(spans.drop_last()) {
        (spans.len() - 1, offset - spans_len(spans.drop_last()))
    } else {
        span_at(spans.drop_last(), offset)
    }
}

/// The spans with a boundary at `offset`: the span that `offset` falls into
/// is replaced by its part before `offset` and its part from `offset` on;
/// where `offset` falls between two spans, nothing changes.
pub open spec fn cut_at(spans: Seq<PieceSpan>, offset: int) -> Seq<PieceSpan> {
    let i = span_at(spans, offset).0;
    let k = span_at(spans, offset).1;
    if k <= 0 || i < 0 || i >= spans.len() {
        spans
    } else {
        spans.take(i) + seq![
            PieceSpan { length: k as nat, ..spans[i] },
            PieceSpan {
                start: spans[i].start + k as nat,
                length: (spans[i].length - k) as nat,
                ..spans[i]
            },
        ] + spans.skip(i + 1)
    }
}

/// Index at which a span starts at `offset` once there is a boundary there.
pub open spec fn boundary_index(spans: Seq<PieceSpan>, offset: int) -> int {
    if span_at(spans, offset).1 > 0 {
        span_at(spans, offset).0 + 1
    } else {
        span_at(spans, offset).0
    }
}

/// The spans after an insertion at `offset`: a boundary is made there and the
/// new span put at it.
pub open spec fn spans_with_insert(spans: Seq<PieceSpan>, offset: int, new: PieceSpan) -> Seq<
    PieceSpan,
> {
    cut_at(spans, offset).insert(boundary_index(spans, offset), new)
}

/// The spans after the deletion of `[offset, offset + length)`: boundaries
/// are made at both ends and the spans between them dropped.
pub open spec fn spans_with_delete(spans: Seq<PieceSpan>, offset: int, length: int) -> Seq<
    PieceSpan,
> {
    let cut = cut_at(cut_at(spans, offset), offset + length);
    cut.take(span_at(cut, offset).0) + cut.skip(span_at(cut, offset + length).0)
}

proof fn lemma_pieces_concat(x: Seq<Piece>, y: Seq<Piece>, original: Seq<char>, added: Seq<char>)
    ensures
        pieces_len(x + y) == pieces_len(x) + pieces_len(y),
        pieces_newlines(x + y) == pieces_newlines(x) + pieces_newlines(y),
        pieces_text(x + y, original, added) == pieces_text(x, original, added) + pieces_text(
            y,
            original,
            added,
        ),
        pieces_formats(x + y) == pieces_formats(x) + pieces_formats(y),
    decreases y.len(),
{
    if y.len() == 0 {
        assert(x + y =~= x);
        assert(pieces_text(x, original, added) + Seq::<char>::empty() =~= pieces_text(
            x,
            original,
            added,
        ));
        assert(pieces_formats(x) + Seq::<Option<TextAttributes>>::empty() =~= pieces_formats(x));
    } else {
        assert((x + y).drop_last() =~= x + y.drop_last());
        lemma_pieces_concat(x, y.drop_last(), original, added);
        assert(pieces_text(x + y, original, added) =~= pieces_text(x, original, added)
            + pieces_text(y, original, added));
        assert(pieces_formats(x + y) =~= pieces_formats(x) + pieces_formats(y));
    }
}

proof fn lemma_pieces_single(p: Piece, original: Seq<char>, added: Seq<char>)
    ensures
        pieces_len(seq![p]) == p.length,
        pieces_newlines(seq![p]) == p.line_starts@.len(),
        pieces_text(seq![p], original, added) == piece_text(p, original, added),
        pieces_formats(seq![p]) == piece_formats(p),
{
    let s = seq![p];
    assert(s.drop_last() =~= Seq::<Piece>::empty());
    assert(s.last() == p);
    let e = Seq::<Piece>::empty();
    assert(pieces_len(e) == 0);
    assert(pieces_newlines(e) == 0);
    assert(pieces_text(e, original, added) =~= Seq::<char>::empty());
    assert(pieces_formats(e) =~= Seq::<Option<TextAttributes>>::empty());
    assert(pieces_text(s, original, added) =~= piece_text(p, original, added));
    assert(pieces_formats(s) =~= piece_formats(p));
}

/// What the sums and concatenations of well-formed pieces amount to.
proof fn lemma_pieces_measure(ps: Seq<Piece>, original: Seq<char>, added: Seq<char>)
    requires
        pieces_wf(ps, original, added),
    ensures
        pieces_len(ps) >= ps.len(),
        pieces_text(ps, original, added).len() == pieces_len(ps),
        pieces_formats(ps).len() == pieces_len(ps),
        pieces_newlines(ps) == newline_positions(pieces_text(ps, original, added)).len(),
    decreases ps.len(),
{
    if ps.len() > 0 {
        lemma_pieces_measure(ps.drop_last(), original, added);
        lemma_newline_positions_concat(
            pieces_text(ps.drop_last(), original, added),
            piece_text(ps.last(), original, added),
        );
    }
}

/// A list of pieces cut at `i`: the text of the front part is the front of
/// the text, as long as the front pieces are, and likewise for the rest.
proof fn lemma_pieces_cut(ps: Seq<Piece>, i: int, original: Seq<char>, added: Seq<char>)
    requires
        pieces_wf(ps, original, added),
        0 <= i <= ps.len(),
    ensures
        pieces_wf(ps.take(i), original, added),
        pieces_wf(ps.skip(i), original, added),
        0 <= pieces_len(ps.take(i)) <= pieces_len(ps),
        pieces_len(ps.take(i)) + pieces_len(ps.skip(i)) == pieces_len(ps),
        pieces_newlines(ps.take(i)) + pieces_newlines(ps.skip(i)) == pieces_newlines(ps),
        0 <= pieces_newlines(ps.take(i)),
        0 <= pieces_newlines(ps.skip(i)),
        pieces_text(ps.take(i), original, added) == pieces_text(ps, original, added).subrange(
            0,
            pieces_len(ps.take(i)),
        ),
        pieces_text(ps.skip(i), original, added) == pieces_text(ps, original, added).subrange(
            pieces_len(ps.take(i)),
            pieces_len(ps),
        ),
        pieces_formats(ps.take(i)) == pieces_formats(ps).subrange(0, pieces_len(ps.take(i))),
        pieces_formats(ps.skip(i)) == pieces_formats(ps).subrange(
            pieces_len(ps.take(i)),
            pieces_len(ps),
        ),
{
    assert(ps =~= ps.take(i) + ps.skip(i));
    lemma_pieces_concat(ps.take(i), ps.skip(i), original, added);
    lemma_pieces_measure(ps.take(i), original, added);
    lemma_pieces_measure(ps.skip(i), original, added);
    lemma_pieces_measure(ps, original, added);
    let t = pieces_text(ps, original, added);
    let n = pieces_len(ps.take(i));
    assert(pieces_text(ps.take(i), original, added) =~= t.subrange(0, n));
    assert(pieces_text(ps.skip(i), original, added) =~= t.subrange(n, pieces_len(ps)));
    let f = pieces_formats(ps);
    assert(pieces_formats(ps.take(i)) =~= f.subrange(0, n));
    assert(pieces_formats(ps.skip(i)) =~= f.subrange(n, pieces_len(ps)));
}

/// Piece `i` occupies, in the text, the stretch right after the pieces
/// before it.
proof fn lemma_piece_place(ps: Seq<Piece>, i: int, original: Seq<char>, added: Seq<char>)
    requires
        pieces_wf(ps, original, added),
        0 <= i < ps.len(),
    ensures
        pieces_len(ps.take(i + 1)) == pieces_len(ps.take(i)) + ps[i].length,
        pieces_newlines(ps.take(i + 1)) == pieces_newlines(ps.take(i)) + ps[i].line_starts@.len(),
        0 <= pieces_len(ps.take(i)),
        pieces_len(ps.take(i + 1)) <= pieces_len(ps),
        0 <= pieces_newlines(ps.take(i)),
        pieces_newlines(ps.take(i + 1)) <= pieces_newlines(ps),
        piece_text(ps[i], original, added) == pieces_text(ps, original, added).subrange(
            pieces_len(ps.take(i)),
            pieces_len(ps.take(i + 1)),
        ),
        piece_formats(ps[i]) == pieces_formats(ps).subrange(
            pieces_len(ps.take(i)),
            pieces_len(ps.take(i + 1)),
        ),
{
    let front = ps.take(i + 1);
    assert(front.drop_last() =~= ps.take(i));
    assert(front.last() == ps[i]);
    lemma_pieces_cut(ps, i, original, added);
    lemma_pieces_cut(ps, i + 1, original, added);
    lemma_pieces_measure(ps, original, added);
    lemma_pieces_measure(ps.take(i), original, added);
    lemma_pieces_measure(front, original, added);
    let t = pieces_text(ps, original, added);
    let f = pieces_formats(ps);
    let a = pieces_len(ps.take(i));
    let b = pieces_len(front);
    let pt = piece_text(ps[i], original, added);
    let pf = piece_formats(ps[i]);
    assert(t.subrange(0, b) == t.subrange(0, a) + pt);
    assert(f.subrange(0, b) == f.subrange(0, a) + pf);
    assert forall|k: int| 0 <= k < b - a implies pt[k] == t.subrange(a, b)[k] by {
        assert(t.subrange(0, b)[a + k] == (t.subrange(0, a) + pt)[a + k]);
    }
    assert forall|k: int| 0 <= k < b - a implies pf[k] == f.subrange(a, b)[k] by {
        assert(f.subrange(0, b)[a + k] == (f.subrange(0, a) + pf)[a + k]);
    }
    assert(pt =~= t.subrange(a, b));
    assert(pf =~= f.subrange(a, b));
}

/// Growing a buffer at its end changes neither the pieces' validity nor
/// their text.
proof fn lemma_buffers_grow(
    ps: Seq<Piece>,
    original: Seq<char>,
    added: Seq<char>,
    grown_original: Seq<char>,
    grown_added: Seq<char>,
)
    requires
        pieces_wf(ps, original, added),
        original.len() <= grown_original.len(),
        grown_original.subrange(0, original.len() as int) =~= original,
        added.len() <= grown_added.len(),
        grown_added.subrange(0, added.len() as int) =~= added,
    ensures
        pieces_wf(ps, grown_original, grown_added),
        pieces_text(ps, grown_original, grown_added) == pieces_text(ps, original, added),
    decreases ps.len(),
{
    if ps.len() > 0 {
        lemma_buffers_grow(ps.drop_last(), original, added, grown_original, grown_added);
        assert forall|i: int| 0 <= i < ps.len() implies piece_wf(
            #[trigger] ps[i],
            grown_original,
            grown_added,
        ) by {
            let p = ps[i];
            assert(piece_wf(p, original, added));
            assert(piece_text(p, grown_original, grown_added) =~= piece_text(p, original, added)) by {
                assert forall|k: int| 0 <= k < p.length implies piece_text(
                    p,
                    grown_original,
                    grown_added,
                )[k] == piece_text(p, original, added)[k] by {
                    if p.buffer_id == BufferId::Added {
                        assert(grown_added.subrange(0, added.len() as int)[p.start + k] == added[p.start
                            + k]);
                    } else {
                        assert(grown_original.subrange(0, original.len() as int)[p.start + k]
                            == original[p.start + k]);
                    }
                }
            }
        }
        assert(piece_text(ps.last(), grown_original, grown_added) == piece_text(
            ps.last(),
            original,
            added,
        ));
    }
}

/// Prefix sums of piece lengths grow with the prefix, strictly so among
/// well-formed pieces.
proof fn lemma_prefix_monotone(ps: Seq<Piece>, i: int, j: int, original: Seq<char>, added: Seq<char>)
    requires
        pieces_wf(ps, original, added),
        0 <= i <= j <= ps.len(),
    ensures
        pieces_len(ps.take(i)) <= pieces_len(ps.take(j)),
        i < j ==> pieces_len(ps.take(i)) < pieces_len(ps.take(j)),
        pieces_newlines(ps.take(i)) <= pieces_newlines(ps.take(j)),
{
    lemma_pieces_cut(ps, j, original, added);
    assert(ps.take(j).take(i) =~= ps.take(i));
    lemma_pieces_cut(ps.take(j), i, original, added);
    lemma_pieces_measure(ps.take(j).skip(i), original, added);
}

proof fn lemma_spans_len(ps: Seq<Piece>)
    ensures
        spans_len(spans_of(ps)) == pieces_len(ps),
    decreases ps.len(),
{
    if ps.len() > 0 {
        lemma_spans_len(ps.drop_last());
        assert(spans_of(ps).drop_last() =~= spans_of(ps.drop_last()));
    }
}

/// Prefix sums of span lengths do not fall.
proof fn lemma_spans_prefix(spans: Seq<PieceSpan>, i: int)
    requires
        0 <= i <= spans.len(),
    ensures
        0 <= spans_len(spans.take(i)) <= spans_len(spans),
    decreases spans.len(),
{
    if i == spans.len() {
        assert(spans.take(i) =~= spans);
        if spans.len() > 0 {
            lemma_spans_prefix(spans.drop_last(), i - 1);
        }
    } else {
        lemma_spans_prefix(spans.drop_last(), i);
        assert(spans.drop_last().take(i) =~= spans.take(i));
    }
}

/// A position that lies `k` characters into span `i`, or at the very end for
/// `i` behind the last span, is found there.
proof fn lemma_span_found(spans: Seq<PieceSpan>, offset: int, i: int, k: int)
    requires
        0 <= i <= spans.len(),
        spans_len(spans.take(i)) + k == offset,
        (i < spans.len() && 0 <= k < spans[i].length) || (i == spans.len() && k == 0),
    ensures
        span_at(spans, offset) == (i, k),
    decreases spans.len(),
{
    if spans.len() > 0 {
        let front = spans.drop_last();
        if i == spans.len() {
            assert(spans.take(i) =~= spans);
        } else if i == spans.len() - 1 {
            assert(spans.take(i) =~= front);
        } else {
            assert(front.take(i) =~= spans.take(i));
            assert(front.take(i + 1).drop_last() =~= front.take(i));
            assert(front.take(i + 1).last() == spans[i]);
            lemma_spans_prefix(front, i + 1);
            lemma_span_found(front, offset, i, k);
        }
    }
}

/// A position that lies `k` characters into piece `i`, or at the very end
/// for `i` behind the last piece, is found there.
proof fn lemma_span_at(ps: Seq<Piece>, offset: int, i: int, k: int)
    requires
        0 <= i <= ps.len(),
        pieces_len(ps.take(i)) + k == offset,
        (i < ps.len() && 0 <= k < ps[i].length) || (i == ps.len() && k == 0),
    ensures
        span_at(spans_of(ps), offset) == (i, k),
{
    lemma_spans_len(ps.take(i));
    assert(spans_of(ps).take(i) =~= spans_of(ps.take(i)));
    lemma_span_found(spans_of(ps), offset, i, k);
}

/// Cuts the terminator list of a piece in two at character `k` of its span.
fn split_line_starts(index: &Vec<usize>, k: usize, Ghost(span): Ghost<Seq<char>>) -> (r: (
    Vec<usize>,
    Vec<usize>,
))
    requires
        is_line_index(index@, span),
        0 <= k <= span.len(),
    ensures
        is_line_index(r.0@, span.subrange(0, k as int)),
        is_line_index(r.1@, span.subrange(k as int, span.len() as int)),
{
    let ghost head = span.subrange(0, k as int);
    let ghost tail = span.subrange(k as int, span.len() as int);
    let ghost m = newline_positions(head).len();
    let mut left: Vec<usize> = Vec::new();
    let mut right: Vec<usize> = Vec::new();
    let mut i: usize = 0;
    proof {
        assert(span =~= head + tail);
        lemma_newline_positions_concat(head, tail);
    }
    while i < index.len()
        invariant
            i <= index.len(),
            is_line_index(index@, span),
            span == head + tail,
            head.len() == k,
            m == newline_positions(head).len(),
            index@.len() == m + newline_positions(tail).len(),
            left@.len() == if i <= m { i as int } else { m as int },
            right@.len() == i - left@.len(),
            forall|j: int| 0 <= j < left@.len() ==> #[trigger] left@[j] as int == newline_positions(head)[j],
            forall|j: int| 0 <= j < right@.len() ==> #[trigger] right@[j] as int == newline_positions(tail)[j],
        decreases index.len() - i,
    {
        let pos = index[i];
        proof {
            lemma_newline_positions_concat(head, tail);
            lemma_newline_positions(head);
            lemma_newline_positions(tail);
            if i < m {
                assert(newline_positions(head + tail)[i as int] == newline_positions(head)[i as int]);
            } else {
                assert(newline_positions(head + tail)[m + (i - m)] == newline_positions(tail)[i - m]
                    + head.len());
            }
        }
        if pos < k {
            left.push(pos);
        } else {
            right.push(pos - k);
        }
        i += 1;
    }
    (left, right)
}

/// The two pieces that `p` falls into when cut at character `k` of its span.
fn split_piece(p: &Piece, k: usize, Ghost(original): Ghost<Seq<char>>, Ghost(added): Ghost<
    Seq<char>,
>) -> (r: (Piece, Piece))
    requires
        piece_wf(*p, original, added),
        0 < k < p.length,
    ensures
        piece_wf(r.0, original, added),
        piece_wf(r.1, original, added),
        r.0@ == (PieceSpan { length: k as nat, ..p@ }),
        r.1@ == (PieceSpan { start: (p.start + k) as nat, length: (p.length - k) as nat, ..p@ }),
        piece_text(r.0, original, added) + piece_text(r.1, original, added) == piece_text(
            *p,
            original,
            added,
        ),
        piece_formats(r.0) + piece_formats(r.1) == piece_formats(*p),
        r.0.line_starts@.len() + r.1.line_starts@.len() == p.line_starts@.len(),
{
    let ghost span = piece_text(*p, original, added);
    let (left_index, right_index) = split_line_starts(&p.line_starts, k, Ghost(span));
    let left = Piece {
        buffer_id: p.buffer_id,
        start: p.start,
        length: k,
        line_starts: left_index,
        attributes: clone_attributes(&p.attributes),
    };
    let right = Piece {
        buffer_id: p.buffer_id,
        start: p.start + k,
        length: p.length - k,
        line_starts: right_index,
        attributes: clone_attributes(&p.attributes),
    };
    proof {
        let head = span.subrange(0, k as int);
        let tail = span.subrange(k as int, span.len() as int);
        assert(piece_text(left, original, added) =~= head);
        assert(piece_text(right, original, added) =~= tail);
        assert(head + tail =~= span);
        assert(piece_formats(left) + piece_formats(right) =~= piece_formats(*p));
        lemma_newline_positions_concat(head, tail);
    }
    (left, right)
}

/// Number of characters that the pieces hold.
fn total_len(pieces: &Vec<Piece>, Ghost(original): Ghost<Seq<char>>, Ghost(added): Ghost<Seq<char>>) -> (n: usize)
    requires
        pieces_wf(pieces@, original, added),
        pieces_len(pieces@) <= MAX_TEXT_LEN,
    ensures
        n == pieces_len(pieces@),
{
    let mut n: usize = 0;
    let mut i: usize = 0;
    while i < pieces.len()
        invariant
            i <= pieces.len(),
            pieces_wf(pieces@, original, added),
            pieces_len(pieces@) <= MAX_TEXT_LEN,
            n == pieces_len(pieces@.take(i as int)),
        decreases pieces.len() - i,
    {
        proof {
            lemma_piece_place(pieces@, i as int, original, added);
        }
        n += pieces[i].length;
        i += 1;
    }
    assert(pieces@.take(i as int) =~= pieces@);
    n
}

/// Putting the two halves of a piece in its place keeps the text, its
/// formatting and its length.
proof fn lemma_split_keeps_text(
    before: Seq<Piece>,
    after: Seq<Piece>,
    i: int,
    l: Piece,
    r: Piece,
    original: Seq<char>,
    added: Seq<char>,
)
    requires
        pieces_wf(before, original, added),
        0 <= i < before.len(),
        piece_wf(l, original, added),
        piece_wf(r, original, added),
        l.length + r.length == before[i].length,
        piece_text(l, original, added) + piece_text(r, original, added) == piece_text(
            before[i],
            original,
            added,
        ),
        piece_formats(l) + piece_formats(r) == piece_formats(before[i]),
        after == before.take(i) + seq![l, r] + before.skip(i + 1),
    ensures
        pieces_wf(after, original, added),
        pieces_len(after) == pieces_len(before),
        pieces_text(after, original, added) == pieces_text(before, original, added),
        pieces_formats(after) == pieces_formats(before),
        pieces_len(after.take(i + 1)) == pieces_len(before.take(i)) + l.length,
{
    let front = before.take(i);
    let back = before.skip(i + 1);
    let whole = before[i];
    assert(before =~= front + seq![whole] + back);
    assert(seq![l, r] =~= seq![l] + seq![r]);
    lemma_pieces_single(l, original, added);
    lemma_pieces_single(r, original, added);
    lemma_pieces_single(whole, original, added);
    lemma_pieces_concat(seq![l], seq![r], original, added);
    lemma_pieces_concat(front, seq![l, r], original, added);
    lemma_pieces_concat(front + seq![l, r], back, original, added);
    lemma_pieces_concat(front, seq![whole], original, added);
    lemma_pieces_concat(front + seq![whole], back, original, added);
    assert(after.take(i + 1) =~= front + seq![l]);
    lemma_pieces_concat(front, seq![l], original, added);
}

/// Putting the two halves of a piece in its place cuts the spans where the
/// piece was cut.
proof fn lemma_split_spans(
    before: Seq<Piece>,
    after: Seq<Piece>,
    i: int,
    l: Piece,
    r: Piece,
    k: int,
    original: Seq<char>,
    added: Seq<char>,
)
    requires
        0 <= i < before.len(),
        0 < k < before[i].length,
        l@ == (PieceSpan { length: k as nat, ..before[i]@ }),
        r@ == (PieceSpan {
            start: (before[i].start + k) as nat,
            length: (before[i].length - k) as nat,
            ..before[i]@
        }),
        after == before.take(i) + seq![l, r] + before.skip(i + 1),
        pieces_len(after.take(i + 1)) == pieces_len(before.take(i)) + k,
    ensures
        spans_of(after) == cut_at(spans_of(before), pieces_len(before.take(i)) + k),
        boundary_index(spans_of(before), pieces_len(before.take(i)) + k) == i + 1,
        span_at(spans_of(after), pieces_len(before.take(i)) + k) == (i + 1, 0int),
{
    let offset = pieces_len(before.take(i)) + k;
    lemma_span_at(before, offset, i, k);
    assert(spans_of(after) =~= cut_at(spans_of(before), offset));
    lemma_span_at(after, offset, i + 1, 0);
}

/// Putting the two halves of a piece in its place leaves the pieces before
/// it as they were.
proof fn lemma_split_frame(
    before: Seq<Piece>,
    after: Seq<Piece>,
    i: int,
    l: Piece,
    r: Piece,
    offset: int,
    original: Seq<char>,
    added: Seq<char>,
)
    requires
        pieces_wf(before, original, added),
        0 <= i < before.len(),
        offset < pieces_len(before.take(i + 1)),
        after == before.take(i) + seq![l, r] + before.skip(i + 1),
    ensures
        forall|m: int|
            0 <= m <= before.len() && pieces_len(before.take(m)) <= offset ==> #[trigger] after.take(
                m,
            ) == before.take(m),
{
    assert forall|m: int|
        0 <= m <= before.len() && pieces_len(before.take(m)) <= offset implies #[trigger] after.take(
        m,
    ) == before.take(m) by {
        if m > i {
            lemma_prefix_monotone(before, i + 1, m, original, added);
        }
        assert(after.take(m) =~= before.take(m));
    }
}

/// Makes `offset` a boundary between two pieces, cutting the piece it falls
/// into if it falls into one, and returns the index of the piece that then
/// starts there. The text and its formatting stay as they were, and so does
/// every piece that ends at or before `offset`.
fn split_at(
    pieces: &mut Vec<Piece>,
    offset: usize,
    Ghost(original): Ghost<Seq<char>>,
    Ghost(added): Ghost<Seq<char>>,
) -> (idx: usize)
    requires
        pieces_wf(old(pieces)@, original, added),
        offset <= pieces_len(old(pieces)@) <= MAX_TEXT_LEN,
    ensures
        pieces_wf(final(pieces)@, original, added),
        pieces_len(final(pieces)@) == pieces_len(old(pieces)@),
        pieces_text(final(pieces)@, original, added) == pieces_text(old(pieces)@, original, added),
        pieces_formats(final(pieces)@) == pieces_formats(old(pieces)@),
        idx <= final(pieces)@.len(),
        old(pieces)@.len() <= final(pieces)@.len(),
        pieces_len(final(pieces)@.take(idx as int)) == offset,
        spans_of(final(pieces)@) == cut_at(spans_of(old(pieces)@), offset as int),
        idx == boundary_index(spans_of(old(pieces)@), offset as int),
        span_at(spans_of(final(pieces)@), offset as int) == (idx as int, 0int),
        forall|m: int|
            0 <= m <= old(pieces)@.len() && pieces_len(old(pieces)@.take(m)) <= offset
                ==> #[trigger] final(pieces)@.take(m) == old(pieces)@.take(m),
{
    let mut i: usize = 0;
    let mut pos: usize = 0;
    while i < pieces.len()
        invariant
            i <= pieces.len(),
            pieces@ == old(pieces)@,
            pieces_wf(pieces@, original, added),
            offset <= pieces_len(pieces@) <= MAX_TEXT_LEN,
            pos == pieces_len(pieces@.take(i as int)),
            pos <= offset,
        decreases pieces.len() - i,
    {
        let length = pieces[i].length;
        proof {
            lemma_piece_place(pieces@, i as int, original, added);
        }
        if offset == pos {
            proof {
                lemma_span_at(pieces@, offset as int, i as int, 0);
            }
            return i;
        }
        if offset < pos + length {
            let ghost before = pieces@;
            let ghost whole = pieces@[i as int];
            let (left, right) = split_piece(&pieces[i], offset - pos, Ghost(original), Ghost(added));
            let ghost l = left;
            let ghost r = right;
            pieces[i] = right;
            pieces.insert(i, left);
            proof {
                assert(pieces@ =~= before.take(i as int) + seq![l, r] + before.skip(i + 1));
                lemma_split_keeps_text(before, pieces@, i as int, l, r, original, added);
                lemma_split_spans(before, pieces@, i as int, l, r, offset - pos, original, added);
                lemma_split_frame(before, pieces@, i as int, l, r, offset as int, original, added);
            }
            return i + 1;
        }
        pos += length;
        i += 1;
    }
    proof {
        assert(pieces@.take(i as int) =~= pieces@);
        lemma_span_at(pieces@, offset as int, i as int, 0);
    }
    i
}

fn buffer_ref<'a>(id: BufferId, original: &'a Vec<char>, added: &'a Vec<char>) -> (b: &'a Vec<char>)
    ensures
        b@ == buffer_of(id, original@, added@),
{
    match id {
        BufferId::Original => original,
        BufferId::Added => added,
    }
}

/// A slice of piece `i`, read from its buffer, is the matching slice of the
/// text.
proof fn lemma_piece_slice(
    ps: Seq<Piece>,
    i: int,
    x: int,
    y: int,
    original: Seq<char>,
    added: Seq<char>,
)
    requires
        pieces_wf(ps, original, added),
        0 <= i < ps.len(),
        0 <= x <= y <= ps[i].length,
    ensures
        buffer_of(ps[i].buffer_id, original, added).subrange(ps[i].start + x, ps[i].start + y)
            == pieces_text(ps, original, added).subrange(
            pieces_len(ps.take(i)) + x,
            pieces_len(ps.take(i)) + y,
        ),
{
    lemma_piece_place(ps, i, original, added);
    lemma_pieces_measure(ps, original, added);
    let span = piece_text(ps[i], original, added);
    let text = pieces_text(ps, original, added);
    let base = pieces_len(ps.take(i));
    assert(buffer_of(ps[i].buffer_id, original, added).subrange(ps[i].start + x, ps[i].start + y)
        =~= span.subrange(x, y));
    assert(span.subrange(x, y) =~= text.subrange(base + x, base + y));
}

proof fn lemma_range_grows(head: Seq<char>, text: Seq<char>, from: int, mid: int, to: int)
    requires
        0 <= from <= mid <= to <= text.len(),
    ensures
        (head + text.subrange(from, mid)) + text.subrange(mid, to) == head + text.subrange(from, to),
{
    assert((head + text.subrange(from, mid)) + text.subrange(mid, to) =~= head + text.subrange(
        from,
        to,
    ));
}

/// Appends the characters `[from, to)` of the pieces' text to `out`, reading
/// only the pieces that the range touches.
fn append_range(
    out: &mut String,
    pieces: &Vec<Piece>,
    original: &Vec<char>,
    added: &Vec<char>,
    from: usize,
    to: usize,
)
    requires
        pieces_wf(pieces@, original@, added@),
        pieces_len(pieces@) <= MAX_TEXT_LEN,
        from <= to <= pieces_len(pieces@),
    ensures
        final(out)@ == old(out)@ + pieces_text(pieces@, original@, added@).subrange(
            from as int,
            to as int,
        ),
{
    let ghost text = pieces_text(pieces@, original@, added@);
    let mut i: usize = 0;
    let mut pos: usize = 0;
    let mut next: usize = from;
    proof {
        lemma_pieces_measure(pieces@, original@, added@);
        assert(old(out)@ + text.subrange(from as int, from as int) =~= old(out)@);
    }
    while i < pieces.len() && next < to
        invariant
            i <= pieces.len(),
            pieces_wf(pieces@, original@, added@),
            pieces_len(pieces@) <= MAX_TEXT_LEN,
            from <= next <= to <= pieces_len(pieces@),
            text == pieces_text(pieces@, original@, added@),
            text.len() == pieces_len(pieces@),
            pos == pieces_len(pieces@.take(i as int)),
            i == pieces.len() ==> pos == pieces_len(pieces@),
            next < to ==> pos <= next,
            out@ == old(out)@ + text.subrange(from as int, next as int),
        decreases pieces.len() - i,
    {
        let p = &pieces[i];
        proof {
            lemma_piece_place(pieces@, i as int, original@, added@);
            if i + 1 == pieces.len() {
                assert(pieces@.take(i + 1) =~= pieces@);
            }
        }
        let end = pos + p.length;
        if end > next {
            let stop = if to < end { to } else { end };
            let buffer = buffer_ref(p.buffer_id, original, added);
            append_chars(out, buffer, p.start + (next - pos), p.start + (stop - pos));
            proof {
                lemma_piece_slice(pieces@, i as int, next - pos, stop - pos, original@, added@);
                lemma_range_grows(old(out)@, text, from as int, next as int, stop as int);
            }
            next = stop;
        }
        pos = end;
        i += 1;
    }
}

/// Number of line terminators that the pieces list.
fn count_newlines(pieces: &Vec<Piece>, Ghost(original): Ghost<Seq<char>>, Ghost(added): Ghost<Seq<char>>) -> (n: usize)
    requires
        pieces_wf(pieces@, original, added),
        pieces_len(pieces@) <= MAX_TEXT_LEN,
    ensures
        n == newline_positions(pieces_text(pieces@, original, added)).len(),
        n <= MAX_TEXT_LEN,
{
    let mut n: usize = 0;
    let mut i: usize = 0;
    proof {
        lemma_pieces_measure(pieces@, original, added);
        lemma_newline_positions(pieces_text(pieces@, original, added));
    }
    while i < pieces.len()
        invariant
            i <= pieces.len(),
            pieces_wf(pieces@, original, added),
            pieces_newlines(pieces@) <= MAX_TEXT_LEN,
            n == pieces_newlines(pieces@.take(i as int)),
        decreases pieces.len() - i,
    {
        proof {
            lemma_piece_place(pieces@, i as int, original, added);
        }
        n += pieces[i].line_starts.len();
        i += 1;
    }
    assert(pieces@.take(i as int) =~= pieces@);
    n
}

/// Terminator `j` of piece `i` is terminator number `j` plus the terminators
/// before the piece, and sits at its offset plus the text before the piece.
proof fn lemma_newline_in_piece(ps: Seq<Piece>, i: int, j: int, original: Seq<char>, added: Seq<char>)
    requires
        pieces_wf(ps, original, added),
        0 <= i < ps.len(),
        0 <= j < ps[i].line_starts@.len(),
    ensures
        0 <= pieces_newlines(ps.take(i)),
        ps[i].line_starts@[j] < ps[i].length,
        pieces_newlines(ps.take(i)) + j < newline_positions(pieces_text(ps, original, added)).len(),
        newline_positions(pieces_text(ps, original, added))[pieces_newlines(ps.take(i)) + j]
            == pieces_len(ps.take(i)) + ps[i].line_starts@[j],
{
    let front = pieces_text(ps.take(i), original, added);
    let span = piece_text(ps[i], original, added);
    let back = pieces_text(ps.skip(i + 1), original, added);
    let text = pieces_text(ps, original, added);
    lemma_piece_place(ps, i, original, added);
    lemma_pieces_cut(ps, i, original, added);
    lemma_pieces_cut(ps, i + 1, original, added);
    lemma_pieces_measure(ps, original, added);
    lemma_pieces_measure(ps.take(i), original, added);
    assert(text =~= (front + span) + back);
    lemma_newline_positions_concat(front, span);
    lemma_newline_positions_concat(front + span, back);
    let k = newline_positions(front).len() as int;
    assert(newline_positions(front + span)[k + j] == newline_positions(span)[j] + front.len());
    assert(newline_positions((front + span) + back)[k + j] == newline_positions(front + span)[k
        + j]);
    assert(ps[i].line_starts@[j] as int == newline_positions(span)[j]);
    lemma_newline_positions(span);
}

/// Position in the text of terminator number `m`, if there are that many.
fn newline_offset(pieces: &Vec<Piece>, m: usize, Ghost(original): Ghost<Seq<char>>, Ghost(added): Ghost<
    Seq<char>,
>) -> (r: Option<usize>)
    requires
        pieces_wf(pieces@, original, added),
        pieces_len(pieces@) <= MAX_TEXT_LEN,
    ensures
        match r {
            Some(p) => m < newline_positions(pieces_text(pieces@, original, added)).len() && p
                == newline_positions(pieces_text(pieces@, original, added))[m as int],
            None => m >= newline_positions(pieces_text(pieces@, original, added)).len(),
        },
{
    let mut i: usize = 0;
    let mut pos: usize = 0;
    let mut seen: usize = 0;
    proof {
        lemma_pieces_measure(pieces@, original, added);
        lemma_newline_positions(pieces_text(pieces@, original, added));
    }
    while i < pieces.len()
        invariant
            i <= pieces.len(),
            pieces_wf(pieces@, original, added),
            pieces_len(pieces@) <= MAX_TEXT_LEN,
            pieces_newlines(pieces@) <= MAX_TEXT_LEN,
            pieces_newlines(pieces@) == newline_positions(
                pieces_text(pieces@, original, added),
            ).len(),
            pos == pieces_len(pieces@.take(i as int)),
            seen == pieces_newlines(pieces@.take(i as int)),
            seen <= m,
        decreases pieces.len() - i,
    {
        let p = &pieces[i];
        proof {
            lemma_piece_place(pieces@, i as int, original, added);
        }
        let here = p.line_starts.len();
        if m - seen < here {
            proof {
                lemma_newline_in_piece(pieces@, i as int, m - seen, original, added);
                lemma_newline_positions(pieces_text(pieces@, original, added));
            }
            return Some(pos + p.line_starts[m - seen]);
        }
        seen += here;
        pos += p.length;
        i += 1;
    }
    assert(pieces@.take(i as int) =~= pieces@);
    None
}

/// A stretch of text with its formatting, as an importer hands it over.
#[derive(Debug, Clone, PartialEq, Eq)]
pub struct TextSegment {
    pub text: String,
    pub attributes: Option<TextAttributes>,
}

/// A segment as contracts see it.
pub struct SegmentView {
    pub text: Seq<char>,
    pub attributes: Option<TextAttributes>,
}

impl View for TextSegment {
    type V = SegmentView;

    open spec fn view(&self) -> SegmentView {
        SegmentView { text: self.text@, attributes: self.attributes }
    }
}

/// The segments of a list as contracts see them.
pub open spec fn segment_views(segments: Seq<TextSegment>) -> Seq<SegmentView> {
    Seq::new(segments.len(), |i: int| segments[i]@)
}

/// The text of the segments, one after another.
pub open spec fn segments_text(segments: Seq<TextSegment>) -> Seq<char>
    decreases segments.len(),
{
    if segments.len() == 0 {
        Seq::empty()
    } else {
        segments_text(segments.drop_last()) + segments.last().text@
    }
}

/// The formatting of the segments, character by character.
pub open spec fn segments_formats(segments: Seq<TextSegment>) -> Seq<Option<TextAttributes>>
    decreases segments.len(),
{
    if segments.len() == 0 {
        Seq::empty()
    } else {
        segments_formats(segments.drop_last()) + uniform(
            segments.last().text@.len(),
            segments.last().attributes,
        )
    }
}

/// The spans that the segments are loaded as: one over the original buffer
/// for each segment that is not empty, in order.
pub open spec fn segments_spans(segments: Seq<TextSegment>) -> Seq<PieceSpan>
    decreases segments.len(),
{
    if segments.len() == 0 {
        Seq::empty()
    } else if segments.last().text@.len() == 0 {
        segments_spans(segments.drop_last())
    } else {
        segments_spans(segments.drop_last()).push(
            PieceSpan {
                buffer_id: BufferId::Original,
                start: segments_text(segments.drop_last()).len(),
                length: segments.last().text@.len(),
                attributes: segments.last().attributes,
            },
        )
    }
}

proof fn lemma_segments_prefix(segments: Seq<TextSegment>, i: int)
    requires
        0 <= i <= segments.len(),
    ensures
        segments_text(segments.take(i)).len() <= segments_text(segments).len(),
    decreases segments.len() - i,
{
    if i < segments.len() {
        lemma_segments_prefix(segments, i + 1);
        assert(segments.take(i + 1).drop_last() =~= segments.take(i));
    } else {
        assert(segments.take(i) =~= segments);
    }
}

/// Adds one segment to a document that is being loaded: its text goes to
/// the end of the original buffer and, unless it is empty, one piece comes
/// to stand for it. Says whether the segment still fitted; if it did not,
/// nothing changes.
fn load_segment(original: &mut Vec<char>, pieces: &mut Vec<Piece>, segment: &TextSegment) -> (fits:
    bool)
    requires
        pieces_wf(old(pieces)@, old(original)@, Seq::empty()),
        pieces_len(old(pieces)@) == old(original)@.len(),
        old(original)@.len() <= MAX_TEXT_LEN,
    ensures
        fits == (old(original)@.len() + segment.text@.len() <= MAX_TEXT_LEN),
        !fits ==> final(original)@ == old(original)@ && final(pieces)@ == old(pieces)@,
        fits ==> final(original)@ == old(original)@ + segment.text@,
        pieces_wf(final(pieces)@, final(original)@, Seq::empty()),
        pieces_len(final(pieces)@) == final(original)@.len(),
        fits ==> pieces_text(final(pieces)@, final(original)@, Seq::empty()) == pieces_text(
            old(pieces)@,
            old(original)@,
            Seq::empty(),
        ) + segment.text@,
        fits ==> pieces_formats(final(pieces)@) == pieces_formats(old(pieces)@) + uniform(
            segment.text@.len(),
            segment.attributes,
        ),
        fits ==> spans_of(final(pieces)@) == if segment.text@.len() == 0 {
            spans_of(old(pieces)@)
        } else {
            spans_of(old(pieces)@).push(
                PieceSpan {
                    buffer_id: BufferId::Original,
                    start: old(original)@.len(),
                    length: segment.text@.len(),
                    attributes: segment.attributes,
                },
            )
        },
{
    let ghost none = Seq::<char>::empty();
    let ghost before = original@;
    let ghost held = pieces@;
    let mut chars = to_chars(segment.text.as_str());
    let n = chars.len();
    let start = original.len();
    if n > MAX_TEXT_LEN - start {
        return false;
    }
    original.append(&mut chars);
    proof {
        assert(original@.subrange(0, before.len() as int) =~= before);
        lemma_buffers_grow(held, before, none, original@, none);
    }
    if n > 0 {
        let line_starts = scan_line_starts(original, start, n);
        let piece = Piece {
            buffer_id: BufferId::Original,
            start,
            length: n,
            line_starts,
            attributes: clone_attributes(&segment.attributes),
        };
        pieces.push(piece);
        proof {
            assert(pieces@.drop_last() =~= held);
            assert(pieces@.last() == piece);
            assert(piece_text(piece, original@, none) =~= segment.text@);
            assert(spans_of(pieces@) =~= spans_of(held).push(piece@));
        }
    } else {
        proof {
            assert(original@ =~= before);
            assert(pieces_text(held, before, none) + segment.text@ =~= pieces_text(
                held,
                before,
                none,
            ));
            assert(pieces_formats(held) + uniform(0, segment.attributes) =~= pieces_formats(held));
        }
    }
    true
}

/// The original buffer and the pieces of a document loaded from the
/// segments; none if the segments together are too long.
fn load_segments(segments: &Vec<TextSegment>) -> (r: Option<(Vec<char>, Vec<Piece>)>)
    ensures
        r is Some <==> segments_text(segments@).len() <= MAX_TEXT_LEN,
        match r {
            Some((original, pieces)) => {
                &&& pieces_wf(pieces@, original@, Seq::empty())
                &&& pieces_len(pieces@) <= MAX_TEXT_LEN
                &&& original@ == segments_text(segments@)
                &&& pieces_text(pieces@, original@, Seq::empty()) == segments_text(segments@)
                &&& pieces_formats(pieces@) == segments_formats(segments@)
                &&& spans_of(pieces@) == segments_spans(segments@)
            },
            None => true,
        },
{
    let mut original: Vec<char> = Vec::new();
    let mut pieces: Vec<Piece> = Vec::new();
    let mut i: usize = 0;
    let ghost none = Seq::<char>::empty();
    proof {
        assert(spans_of(pieces@) =~= Seq::<PieceSpan>::empty());
    }
    while i < segments.len()
        invariant
            i <= segments.len(),
            none == Seq::<char>::empty(),
            pieces_wf(pieces@, original@, none),
            pieces_len(pieces@) == original@.len(),
            original@.len() <= MAX_TEXT_LEN,
            pieces_text(pieces@, original@, none) == segments_text(segments@.take(i as int)),
            pieces_formats(pieces@) == segments_formats(segments@.take(i as int)),
            spans_of(pieces@) == segments_spans(segments@.take(i as int)),
            original@ == segments_text(segments@.take(i as int)),
        decreases segments.len() - i,
    {
        proof {
            assert(segments@.take(i + 1).drop_last() =~= segments@.take(i as int));
            assert(segments@.take(i + 1).last() == segments@[i as int]);
        }
        if !load_segment(&mut original, &mut pieces, &segments[i]) {
            proof {
                lemma_segments_prefix(segments@, i + 1);
            }
            return None;
        }
        i += 1;
    }
    proof {
        assert(segments@.take(i as int) =~= segments@);
    }
    Some((original, pieces))
}

/// The text store.
pub struct PieceTree {
    original: Vec<char>,
    added: Vec<char>,
    pieces: Vec<Piece>,
}

impl View for PieceTree {
    type V = Seq<char>;

    /// The document text.
    closed spec fn view(&self) -> Seq<char> {
        pieces_text(self.pieces@, self.original@, self.added@)
    }
}

impl PieceTree {
    #[verifier::type_invariant]
    spec fn inv(self) -> bool {
        &&& pieces_wf(self.pieces@, self.original@, self.added@)
        &&& pieces_len(self.pieces@) <= MAX_TEXT_LEN
    }

    /// The formatting of each character of the document.
    pub closed spec fn formats(&self) -> Seq<Option<TextAttributes>> {
        pieces_formats(self.pieces@)
    }

    /// The pieces, in document order.
    pub closed spec fn pieces(&self) -> Seq<Piece> {
        self.pieces@
    }

    /// The buffer that holds the text the document was loaded with.
    pub closed spec fn original_buffer(&self) -> Seq<char> {
        self.original@
    }

    /// The buffer that holds the text inserted since.
    pub closed spec fn added_buffer(&self) -> Seq<char> {
        self.added@
    }

    /// What the pieces describe, in document order.
    pub open spec fn spans(&self) -> Seq<PieceSpan> {
        spans_of(self.pieces())
    }

    /// What holds of every store: no piece is empty, each lies within its
    /// buffer and lists the line terminators of its span, the pieces
    /// together are no longer than a document may be, and the text and its
    /// formatting are those of the pieces, one after another.
    pub open spec fn well_formed(&self) -> bool {
        &&& pieces_wf(self.pieces(), self.original_buffer(), self.added_buffer())
        &&& pieces_len(self.pieces()) <= MAX_TEXT_LEN
        &&& self@ == pieces_text(self.pieces(), self.original_buffer(), self.added_buffer())
        &&& self.formats() == pieces_formats(self.pieces())
    }

    /// How an insertion of `text` at `offset` changes the pieces: the text
    /// goes to the end of the added buffer, and one new piece over it comes
    /// to stand at `offset`, the piece that `offset` falls into being cut in
    /// two around it. An empty text changes nothing.
    pub open spec fn inserts_to(
        &self,
        post: &PieceTree,
        offset: int,
        text: Seq<char>,
        attributes: Option<TextAttributes>,
    ) -> bool {
        &&& post.original_buffer() == self.original_buffer()
        &&& post.added_buffer() == self.added_buffer() + text
        &&& post.spans() == if text.len() == 0 {
            self.spans()
        } else {
            spans_with_insert(
                self.spans(),
                offset,
                PieceSpan {
                    buffer_id: BufferId::Added,
                    start: self.added_buffer().len(),
                    length: text.len(),
                    attributes,
                },
            )
        }
    }

    /// How a deletion of `[offset, offset + length)` changes the pieces:
    /// the buffers stay as they are, the pieces are cut at both ends of the
    /// range, and those between the cuts go. An empty range changes nothing.
    pub open spec fn deletes_to(&self, post: &PieceTree, offset: int, length: int) -> bool {
        &&& post.original_buffer() == self.original_buffer()
        &&& post.added_buffer() == self.added_buffer()
        &&& post.spans() == if length == 0 {
            self.spans()
        } else {
            spans_with_delete(self.spans(), offset, length)
        }
    }

    /// Whether this is the store that the segments are loaded as: their
    /// text, one after another, is the original buffer, nothing has been
    /// added, and each segment that is not empty is one piece with the
    /// segment's formatting.
    pub open spec fn is_loaded_from(&self, segments: Seq<TextSegment>) -> bool {
        &&& self@ == segments_text(segments)
        &&& self.formats() == segments_formats(segments)
        &&& self.original_buffer() == segments_text(segments)
        &&& self.added_buffer() == Seq::<char>::empty()
        &&& self.spans() == segments_spans(segments)
    }

    /// Makes known to the caller what holds of every store. Does nothing
    /// when run.
    pub fn note_well_formed(&self)
        ensures
            self.well_formed(),
    {
        proof {
            use_type_invariant(self);
        }
    }

    /// Number of pieces.
    pub fn piece_count(&self) -> (n: usize)
        ensures
            n == self.pieces().len(),
            self.well_formed(),
    {
        proof {
            use_type_invariant(self);
        }
        self.pieces.len()
    }

    /// A copy of piece `index`, the first piece of the document being piece
    /// 0.
    pub fn get_piece(&self, index: usize) -> (r: Option<Piece>)
        ensures
            index < self.pieces().len() ==> r is Some && r->0@ == self.pieces()[index as int]@
                && r->0.line_starts@ == self.pieces()[index as int].line_starts@,
            index >= self.pieces().len() ==> r is None,
    {
        if index < self.pieces.len() {
            let p = &self.pieces[index];
            let mut line_starts: Vec<usize> = Vec::new();
            let mut i: usize = 0;
            while i < p.line_starts.len()
                invariant
                    i <= p.line_starts.len(),
                    line_starts@ == p.line_starts@.take(i as int),
                decreases p.line_starts.len() - i,
            {
                line_starts.push(p.line_starts[i]);
                proof {
                    assert(p.line_starts@.take(i + 1) =~= p.line_starts@.take(i as int).push(
                        p.line_starts@[i as int],
                    ));
                }
                i += 1;
            }
            proof {
                assert(p.line_starts@.take(i as int) =~= p.line_starts@);
            }
            Some(
                Piece {
                    buffer_id: p.buffer_id,
                    start: p.start,
                    length: p.length,
                    line_starts,
                    attributes: clone_attributes(&p.attributes),
                },
            )
        } else {
            None
        }
    }

    /// A store with no text.
    pub fn empty() -> (r: Self)
        ensures
            r@ == Seq::<char>::empty(),
            r.formats() == Seq::<Option<TextAttributes>>::empty(),
            r.pieces() == Seq::<Piece>::empty(),
            r.original_buffer() == Seq::<char>::empty(),
            r.added_buffer() == Seq::<char>::empty(),
            r.well_formed(),
    {
        PieceTree { original: Vec::new(), added: Vec::new(), pieces: Vec::new() }
    }

    /// A store whose original buffer holds `text`, unformatted.
    pub fn new(text: String) -> (r: Self)
        requires
            text@.len() <= MAX_TEXT_LEN,
        ensures
            r@ == text@,
            r.formats() == uniform(text@.len(), None::<TextAttributes>),
            r.original_buffer() == text@,
            r.added_buffer() == Seq::<char>::empty(),
            r.spans() == if text@.len() == 0 {
                Seq::<PieceSpan>::empty()
            } else {
                seq![
                    PieceSpan {
                        buffer_id: BufferId::Original,
                        start: 0,
                        length: text@.len(),
                        attributes: None,
                    },
                ]
            },
            r.well_formed(),
    {
        let original = to_chars(text.as_str());
        let n = original.len();
        let mut pieces: Vec<Piece> = Vec::new();
        if n > 0 {
            let line_starts = scan_line_starts(&original, 0, n);
            let piece = Piece {
                buffer_id: BufferId::Original,
                start: 0,
                length: n,
                line_starts,
                attributes: None,
            };
            pieces.push(piece);
            proof {
                assert(pieces@ =~= seq![piece]);
                lemma_pieces_single(piece, original@, Seq::empty());
                assert(piece_text(piece, original@, Seq::empty()) =~= original@);
                assert(spans_of(pieces@) =~= seq![piece@]);
            }
        } else {
            proof {
                assert(text@ =~= Seq::<char>::empty());
                assert(uniform(0, None::<TextAttributes>) =~= Seq::<Option<TextAttributes>>::empty());
                assert(spans_of(pieces@) =~= Seq::<PieceSpan>::empty());
            }
        }
        PieceTree { original, added: Vec::new(), pieces }
    }

    /// Number of characters in the document.
    pub fn len(&self) -> (n: usize)
        ensures
            n == self@.len(),
            n == self.formats().len(),
            n <= MAX_TEXT_LEN,
            self.well_formed(),
    {
        proof {
            use_type_invariant(self);
            lemma_pieces_measure(self.pieces@, self.original@, self.added@);
        }
        total_len(&self.pieces, Ghost(self.original@), Ghost(self.added@))
    }

    /// Whether the document has no text.
    pub fn is_empty(&self) -> (b: bool)
        ensures
            b == (self@.len() == 0),
    {
        proof {
            use_type_invariant(self);
            lemma_pieces_measure(self.pieces@, self.original@, self.added@);
        }
        self.pieces.len() == 0
    }

    /// The whole text.
    pub fn get_text(&self) -> (s: String)
        ensures
            s@ == self@,
    {
        proof {
            use_type_invariant(self);
            lemma_pieces_measure(self.pieces@, self.original@, self.added@);
        }
        let total = total_len(&self.pieces, Ghost(self.original@), Ghost(self.added@));
        let mut s = String::new();
        append_range(&mut s, &self.pieces, &self.original, &self.added, 0, total);
        proof {
            assert(self@.subrange(0, total as int) =~= self@);
            assert(Seq::<char>::empty() + self@ =~= self@);
        }
        s
    }

    /// The text in `[offset, offset + length)`. A range that reaches past the
    /// end of the document is cut at the end; this never fails.
    pub fn get_text_range(&self, offset: usize, length: usize) -> (s: String)
        ensures
            s@ == text_range(self@, offset as int, length as int),
    {
        proof {
            use_type_invariant(self);
            lemma_pieces_measure(self.pieces@, self.original@, self.added@);
        }
        let total = total_len(&self.pieces, Ghost(self.original@), Ghost(self.added@));
        let from = if offset < total { offset } else { total };
        let to = if length < total - from { from + length } else { total };
        let mut s = String::new();
        append_range(&mut s, &self.pieces, &self.original, &self.added, from, to);
        proof {
            assert(Seq::<char>::empty() + self@.subrange(from as int, to as int) =~= self@.subrange(
                from as int,
                to as int,
            ));
        }
        s
    }

    /// Number of lines: the terminators plus one, and zero for an empty
    /// document.
    pub fn get_line_count(&self) -> (n: usize)
        ensures
            n == line_count(self@),
    {
        proof {
            use_type_invariant(self);
            lemma_pieces_measure(self.pieces@, self.original@, self.added@);
        }
        if self.pieces.len() == 0 {
            0
        } else {
            count_newlines(&self.pieces, Ghost(self.original@), Ghost(self.added@)) + 1
        }
    }

    /// Line `line_number`, counted from zero, without its terminator; `None`
    /// from the line count on.
    pub fn get_line(&self, line_number: usize) -> (r: Option<String>)
        ensures
            line_number < line_count(self@) ==> r is Some && r->0@ == line_text(
                self@,
                line_number as int,
            ),
            line_number >= line_count(self@) ==> r is None,
    {
        proof {
            use_type_invariant(self);
            lemma_pieces_measure(self.pieces@, self.original@, self.added@);
            lemma_newline_positions(self@);
        }
        if self.pieces.len() == 0 {
            return None;
        }
        let start = if line_number == 0 {
            0
        } else {
            match newline_offset(
                &self.pieces,
                line_number - 1,
                Ghost(self.original@),
                Ghost(self.added@),
            ) {
                Some(p) => p + 1,
                None => {
                    return None;
                },
            }
        };
        let end = match newline_offset(
            &self.pieces,
            line_number,
            Ghost(self.original@),
            Ghost(self.added@),
        ) {
            Some(p) => p,
            None => total_len(&self.pieces, Ghost(self.original@), Ghost(self.added@)),
        };
        Some(self.get_text_range(start, end - start))
    }

    /// Inserts unformatted `text` before position `offset`.
    ///
    /// Fails, and changes nothing, when `offset` lies past the end of the
    /// document or the document would grow past `MAX_TEXT_LEN`.
    pub fn insert(&mut self, offset: usize, text: &str) -> (r: Result<(), CommandError>)
        ensures
            r is Ok <==> offset <= old(self)@.len() && old(self)@.len() + text@.len()
                <= MAX_TEXT_LEN,
            r is Ok ==> final(self)@ == splice_in(old(self)@, offset as int, text@)
                && final(self).formats() == splice_in(
                old(self).formats(),
                offset as int,
                uniform(text@.len(), None::<TextAttributes>),
            ),
            r is Ok ==> old(self).inserts_to(final(self), offset as int, text@, None),
            r is Err ==> r == Err::<(), CommandError>(CommandError::OutOfRange) && *final(self)
                == *old(self),
            final(self).well_formed(),
    {
        self.insert_with_attributes(offset, text, None)
    }

    /// Inserts `text` before position `offset`, formatted with `attributes`.
    ///
    /// The text goes to the end of the added buffer and one new piece comes
    /// to stand for it; a piece that `offset` falls into is cut in two around
    /// it. Fails, and changes nothing, when `offset` lies past the end of the
    /// document or the document would grow past `MAX_TEXT_LEN`.
    pub fn insert_with_attributes(
        &mut self,
        offset: usize,
        text: &str,
        attributes: Option<TextAttributes>,
    ) -> (r: Result<(), CommandError>)
        ensures
            r is Ok <==> offset <= old(self)@.len() && old(self)@.len() + text@.len()
                <= MAX_TEXT_LEN,
            r is Ok ==> final(self)@ == splice_in(old(self)@, offset as int, text@)
                && final(self).formats() == splice_in(
                old(self).formats(),
                offset as int,
                uniform(text@.len(), attributes),
            ),
            r is Ok ==> old(self).inserts_to(final(self), offset as int, text@, attributes),
            r is Err ==> r == Err::<(), CommandError>(CommandError::OutOfRange) && *final(self)
                == *old(self),
            final(self).well_formed(),
    {
        proof {
            use_type_invariant(&*self);
            lemma_pieces_measure(self.pieces@, self.original@, self.added@);
        }
        let mut chars = to_chars(text);
        let n = chars.len();
        let total = total_len(&self.pieces, Ghost(self.original@), Ghost(self.added@));
        if offset > total || n > MAX_TEXT_LEN - total {
            return Err(CommandError::OutOfRange);
        }
        if n == 0 {
            proof {
                assert(splice_in(self@, offset as int, text@) =~= self@);
                assert(splice_in(
                    self.formats(),
                    offset as int,
                    uniform(text@.len(), attributes),
                ) =~= self.formats());
                assert(self.added@ + text@ =~= self.added@);
            }
            return Ok(());
        }
        let ghost original = self.original@;
        let ghost old_added = self.added@;
        let ghost old_text = self@;
        let ghost old_formats = self.formats();
        let mut pieces: Vec<Piece> = Vec::new();
        let mut added: Vec<char> = Vec::new();
        std::mem::swap(&mut self.pieces, &mut pieces);
        std::mem::swap(&mut self.added, &mut added);
        let start = added.len();
        added.append(&mut chars);
        let grown = added.len();
        proof {
            assert(added@.subrange(0, old_added.len() as int) =~= old_added);
            lemma_buffers_grow(pieces@, original, old_added, original, added@);
        }
        let line_starts = scan_line_starts(&added, start, n);
        let piece = Piece { buffer_id: BufferId::Added, start, length: n, line_starts, attributes };
        let idx = split_at(&mut pieces, offset, Ghost(original), Ghost(added@));
        let ghost cut = pieces@;
        pieces.insert(idx, piece);
        proof {
            let front = cut.take(idx as int);
            let back = cut.skip(idx as int);
            assert(pieces@ =~= front + seq![piece] + back);
            assert(piece_text(piece, original, added@) =~= text@);
            lemma_pieces_cut(cut, idx as int, original, added@);
            lemma_pieces_measure(cut, original, added@);
            lemma_pieces_single(piece, original, added@);
            lemma_pieces_concat(front, seq![piece], original, added@);
            lemma_pieces_concat(front + seq![piece], back, original, added@);
            assert(pieces_len(cut) == total);
            assert(spans_of(pieces@) =~= spans_of(cut).insert(idx as int, piece@));
        }
        self.added = added;
        self.pieces = pieces;
        Ok(())
    }

    /// Deletes the `length` characters that start at `offset` and returns
    /// them.
    ///
    /// Pieces inside the range go, pieces that straddle one of its ends are
    /// trimmed, and a piece that contains the whole range is left as the two
    /// parts around it. Fails, and changes nothing, when the range reaches
    /// past the end of the document.
    pub fn delete(&mut self, offset: usize, length: usize) -> (r: Result<String, CommandError>)
        ensures
            r is Ok <==> offset + length <= old(self)@.len(),
            r is Ok ==> r->Ok_0@ == old(self)@.subrange(offset as int, offset + length)
                && final(self)@ == splice_out(old(self)@, offset as int, length as int)
                && final(self).formats() == splice_out(
                old(self).formats(),
                offset as int,
                length as int,
            ),
            r is Ok ==> old(self).deletes_to(final(self), offset as int, length as int),
            r is Err ==> r == Err::<String, CommandError>(CommandError::OutOfRange) && *final(self)
                == *old(self),
            final(self).well_formed(),
    {
        proof {
            use_type_invariant(&*self);
            lemma_pieces_measure(self.pieces@, self.original@, self.added@);
        }
        let total = total_len(&self.pieces, Ghost(self.original@), Ghost(self.added@));
        if length > total || offset > total - length {
            return Err(CommandError::OutOfRange);
        }
        let mut removed = String::new();
        if length == 0 {
            proof {
                assert(splice_out(self@, offset as int, 0) =~= self@);
                assert(splice_out(self.formats(), offset as int, 0) =~= self.formats());
                assert(self@.subrange(offset as int, offset as int) =~= Seq::<char>::empty());
            }
            return Ok(removed);
        }
        let end = offset + length;
        append_range(&mut removed, &self.pieces, &self.original, &self.added, offset, end);
        proof {
            assert(Seq::<char>::empty() + self@.subrange(offset as int, end as int)
                =~= self@.subrange(offset as int, end as int));
        }
        let ghost original = self.original@;
        let ghost added = self.added@;
        let mut pieces: Vec<Piece> = Vec::new();
        std::mem::swap(&mut self.pieces, &mut pieces);
        let i = split_at(&mut pieces, offset, Ghost(original), Ghost(added));
        let ghost first_cut = pieces@;
        let j = split_at(&mut pieces, end, Ghost(original), Ghost(added));
        let ghost cut = pieces@;
        proof {
            assert(cut.take(i as int) == first_cut.take(i as int));
            if j < i {
                lemma_prefix_monotone(cut, j as int, i as int, original, added);
            }
        }
        let mut tail = pieces.split_off(j);
        pieces.truncate(i);
        pieces.append(&mut tail);
        proof {
            let front = cut.take(i as int);
            let back = cut.skip(j as int);
            assert(pieces@ =~= front + back);
            lemma_pieces_cut(cut, i as int, original, added);
            lemma_pieces_cut(cut, j as int, original, added);
            lemma_pieces_measure(cut, original, added);
            lemma_pieces_concat(front, back, original, added);
            lemma_span_at(cut, offset as int, i as int, 0);
            assert(spans_of(pieces@) =~= spans_of(cut).take(i as int) + spans_of(cut).skip(
                j as int,
            ));
        }
        self.pieces = pieces;
        Ok(removed)
    }

    /// Replaces the content by the given segments, in order. Each segment
    /// that is not empty becomes one piece over the original buffer, with the
    /// segment's formatting.
    ///
    /// Fails, and changes nothing, when the segments together are longer
    /// than `MAX_TEXT_LEN`.
    pub fn load(&mut self, segments: &Vec<TextSegment>) -> (r: Result<(), CommandError>)
        ensures
            r is Ok <==> segments_text(segments@).len() <= MAX_TEXT_LEN,
            r is Ok ==> final(self).is_loaded_from(segments@),
            r is Err ==> r == Err::<(), CommandError>(CommandError::OutOfRange) && *final(self)
                == *old(self),
            final(self).well_formed(),
    {
        proof {
            use_type_invariant(&*self);
        }
        let (original, pieces) = match load_segments(segments) {
            Some(built) => built,
            None => {
                return Err(CommandError::OutOfRange);
            },
        };
        self.pieces = Vec::new();
        self.added = Vec::new();
        self.original = original;
        self.pieces = pieces;
        Ok(())
    }

    /// Formatting of the character at `offset`; `None` where the character
    /// has none or there is no such character.
    pub fn get_attributes_at(&self, offset: usize) -> (r: Option<TextAttributes>)
        ensures
            r == if offset < self@.len() {
                self.formats()[offset as int]
            } else {
                None
            },
    {
        proof {
            use_type_invariant(self);
            lemma_pieces_measure(self.pieces@, self.original@, self.added@);
        }
        let mut i: usize = 0;
        let mut pos: usize = 0;
        while i < self.pieces.len()
            invariant
                i <= self.pieces.len(),
                pieces_wf(self.pieces@, self.original@, self.added@),
                pieces_len(self.pieces@) <= MAX_TEXT_LEN,
                self@.len() == pieces_len(self.pieces@),
                self.formats().len() == pieces_len(self.pieces@),
                pos == pieces_len(self.pieces@.take(i as int)),
                pos <= offset,
            decreases self.pieces.len() - i,
        {
            let p = &self.pieces[i];
            proof {
                lemma_piece_place(self.pieces@, i as int, self.original@, self.added@);
            }
            if offset - pos < p.length {
                proof {
                    assert(self.formats().subrange(pos as int, pos + p.length)[offset - pos]
                        == piece_formats(*p)[offset - pos]);
                }
                return clone_attributes(&p.attributes);
            }
            pos += p.length;
            i += 1;
        }
        proof {
            assert(self.pieces@.take(i as int) =~= self.pieces@);
        }
        None
    }
}

} // verus!
