//! Handing a document that was read from a package over to the text store:
//! as a list of segments, each a stretch of text with its formatting, in
//! document order. A session loads them as they are, so every run comes to
//! stand as a piece of its own and no piece spans a change of formatting.

use crate::ooxml::document::{
    joined_text, paragraphs_view, runs_text, runs_view, WordDocument,
};
use crate::ooxml::types::{Paragraph, Run, RunProperties};
use crate::piece_tree::{
    segment_views, segments_text, SegmentView, TextAttributes, TextSegment,
};
use crate::text::str_eq;
use vstd::prelude::*;

verus! {

/// The formatting that run properties stand for in the text store: none
/// where nothing is set; else bold and italic where they are switched on,
/// underlined where a kind of underline other than `none` is given, the
/// font name as the family, the size in half-points, and the colour.
pub open spec fn attributes_of(p: RunProperties) -> Option<TextAttributes> {
    if p == RunProperties::blank() {
        None
    } else {
        Some(
            TextAttributes {
                bold: p.bold == Some(true),
                italic: p.italic == Some(true),
                underline: p.underline is Some && p.underline->0@ != "none"@,
                font_family: p.font_name,
                font_size: match p.font_size {
                    Some(n) => if n >= 0 {
                        Some((2 * n) as u32)
                    } else {
                        None
                    },
                    None => None,
                },
                color: p.color,
            },
        )
    }
}

/// One segment for each run, in order.
pub open spec fn run_segments(runs: Seq<Run>) -> Seq<SegmentView> {
    Seq::new(
        runs.len(),
        |i: int| SegmentView { text: runs[i].text@, attributes: attributes_of(runs[i].properties) },
    )
}

/// The segment that stands between two paragraphs: a line terminator,
/// unformatted.
pub open spec fn paragraph_break() -> SegmentView {
    SegmentView { text: seq!['\n'], attributes: None }
}

/// The segments of the paragraphs, in order: those of the runs of each, a
/// paragraph break between each two paragraphs.
pub open spec fn paragraph_segments(paragraphs: Seq<Paragraph>) -> Seq<SegmentView>
    decreases paragraphs.len(),
{
    if paragraphs.len() == 0 {
        Seq::empty()
    } else if paragraphs.len() == 1 {
        run_segments(paragraphs[0].runs@)
    } else {
        paragraph_segments(paragraphs.drop_last()) + seq![paragraph_break()] + run_segments(
            paragraphs.last().runs@,
        )
    }
}

/// The texts of the segments, one after another.
pub open spec fn views_text(segments: Seq<SegmentView>) -> Seq<char>
    decreases segments.len(),
{
    if segments.len() == 0 {
        Seq::empty()
    } else {
        views_text(segments.drop_last()) + segments.last().text
    }
}

/// The texts of the paragraphs' runs, a line terminator between each two
/// paragraphs.
pub open spec fn runs_joined(paragraphs: Seq<Paragraph>) -> Seq<char>
    decreases paragraphs.len(),
{
    if paragraphs.len() == 0 {
        Seq::empty()
    } else if paragraphs.len() == 1 {
        runs_text(runs_view(paragraphs[0].runs@))
    } else {
        runs_joined(paragraphs.drop_last()) + seq!['\n'] + runs_text(
            runs_view(paragraphs.last().runs@),
        )
    }
}

fn clone_text(text: &Option<String>) -> (r: Option<String>)
    ensures
        r == *text,
{
    match text {
        Some(s) => Some(s.clone()),
        None => None,
    }
}

impl RunProperties {
    /// The formatting that these properties stand for in the text store.
    pub fn to_attributes(&self) -> (r: Option<TextAttributes>)
        ensures
            r == attributes_of(*self),
    {
        if self.is_default() {
            return None;
        }
        let underline = match &self.underline {
            Some(kind) => !str_eq(kind.as_str(), "none"),
            None => false,
        };
        let font_size = match self.font_size {
            Some(n) => if n >= 0 {
                Some(2 * (n as u32))
            } else {
                None
            },
            None => None,
        };
        Some(
            TextAttributes {
                bold: match self.bold {
                    Some(on) => on,
                    None => false,
                },
                italic: match self.italic {
                    Some(on) => on,
                    None => false,
                },
                underline,
                font_family: clone_text(&self.font_name),
                font_size,
                color: clone_text(&self.color),
            },
        )
    }
}

/// Adds one segment for each of `runs` to `out`, in order.
pub fn push_run_segments(out: &mut Vec<TextSegment>, runs: &Vec<Run>)
    ensures
        segment_views(final(out)@) == segment_views(old(out)@) + run_segments(runs@),
{
    let mut i: usize = 0;
    proof {
        assert(segment_views(out@) =~= segment_views(old(out)@) + run_segments(runs@).take(0));
    }
    while i < runs.len()
        invariant
            i <= runs.len(),
            segment_views(out@) == segment_views(old(out)@) + run_segments(runs@).take(i as int),
        decreases runs.len() - i,
    {
        let ghost held = out@;
        let segment = TextSegment {
            text: runs[i].text.clone(),
            attributes: runs[i].properties.to_attributes(),
        };
        out.push(segment);
        proof {
            assert(segment_views(out@) =~= segment_views(held).push(segment@));
            assert(segment_views(old(out)@) + run_segments(runs@).take(i + 1) =~= (segment_views(
                old(out)@,
            ) + run_segments(runs@).take(i as int)).push(run_segments(runs@)[i as int]));
        }
        i += 1;
    }
    proof {
        assert(run_segments(runs@).take(i as int) =~= run_segments(runs@));
    }
}

impl WordDocument {
    /// The document as segments for the text store to load: one for each
    /// run, in document order, and a paragraph break between each two
    /// paragraphs.
    pub fn to_segments(&self) -> (r: Vec<TextSegment>)
        ensures
            segment_views(r@) == paragraph_segments(self.paragraphs@),
    {
        let mut out: Vec<TextSegment> = Vec::new();
        let mut k: usize = 0;
        proof {
            assert(segment_views(out@) =~= Seq::empty());
        }
        while k < self.paragraphs.len()
            invariant
                k <= self.paragraphs.len(),
                segment_views(out@) == paragraph_segments(self.paragraphs@.take(k as int)),
            decreases self.paragraphs.len() - k,
        {
            let ghost all = self.paragraphs@;
            let ghost held = out@;
            proof {
                assert(all.take(k + 1).drop_last() =~= all.take(k as int));
                assert(all.take(k + 1).last() == all[k as int]);
                assert(all.take(k + 1)[0] == all[0]);
                reveal_strlit("\n");
                assert("\n"@ =~= seq!['\n']);
            }
            if k > 0 {
                let separator = TextSegment { text: "\n".to_owned(), attributes: None };
                out.push(separator);
                proof {
                    assert(segment_views(out@) =~= segment_views(held) + seq![paragraph_break()]);
                }
            } else {
                proof {
                    assert(segment_views(held) + run_segments(all[0].runs@) =~= run_segments(
                        all[0].runs@,
                    ));
                }
            }
            push_run_segments(&mut out, &self.paragraphs[k].runs);
            k += 1;
        }
        proof {
            assert(self.paragraphs@.take(k as int) =~= self.paragraphs@);
        }
        out
    }
}

proof fn lemma_views_text(segments: Seq<TextSegment>)
    ensures
        views_text(segment_views(segments)) == segments_text(segments),
    decreases segments.len(),
{
    if segments.len() > 0 {
        lemma_views_text(segments.drop_last());
        assert(segment_views(segments).drop_last() =~= segment_views(segments.drop_last()));
    }
}

proof fn lemma_views_text_concat(a: Seq<SegmentView>, b: Seq<SegmentView>)
    ensures
        views_text(a + b) == views_text(a) + views_text(b),
    decreases b.len(),
{
    if b.len() == 0 {
        assert(a + b =~= a);
        assert(views_text(a) + views_text(b) =~= views_text(a));
    } else {
        assert((a + b).drop_last() =~= a + b.drop_last());
        lemma_views_text_concat(a, b.drop_last());
        assert(views_text(a + b) =~= views_text(a) + views_text(b));
    }
}

proof fn lemma_run_segments_text(runs: Seq<Run>)
    ensures
        views_text(run_segments(runs)) == runs_text(runs_view(runs)),
    decreases runs.len(),
{
    if runs.len() > 0 {
        lemma_run_segments_text(runs.drop_last());
        assert(run_segments(runs).drop_last() =~= run_segments(runs.drop_last()));
        assert(runs_view(runs).drop_last() =~= runs_view(runs.drop_last()));
    }
}

/// The segments that a document is handed over as carry its text: what a
/// store holds that loaded them is the texts of the runs, paragraph by
/// paragraph, a line terminator between each two paragraphs.
pub proof fn law_segments_carry_text(segments: Seq<TextSegment>, paragraphs: Seq<Paragraph>)
    requires
        segment_views(segments) == paragraph_segments(paragraphs),
    ensures
        segments_text(segments) == runs_joined(paragraphs),
{
    lemma_views_text(segments);
    lemma_segments_text(paragraphs);
}

proof fn lemma_segments_text(paragraphs: Seq<Paragraph>)
    ensures
        views_text(paragraph_segments(paragraphs)) == runs_joined(paragraphs),
    decreases paragraphs.len(),
{
    if paragraphs.len() == 1 {
        lemma_run_segments_text(paragraphs[0].runs@);
    } else if paragraphs.len() > 1 {
        lemma_segments_text(paragraphs.drop_last());
        lemma_run_segments_text(paragraphs.last().runs@);
        let front = paragraph_segments(paragraphs.drop_last());
        let last = run_segments(paragraphs.last().runs@);
        lemma_views_text_concat(front, seq![paragraph_break()]);
        lemma_views_text_concat(front + seq![paragraph_break()], last);
        assert(views_text(seq![paragraph_break()]) =~= seq!['\n']) by {
            let one = seq![paragraph_break()];
            assert(one.drop_last() =~= Seq::<SegmentView>::empty());
            assert(views_text(one.drop_last()) =~= Seq::<char>::empty());
        }
    }
}

/// Where the text of each paragraph is that of its runs, as it is in every
/// document read from a package, a store that loaded the segments holds the
/// text of the document as the document itself gives it.
pub proof fn law_segments_carry_document_text(
    segments: Seq<TextSegment>,
    paragraphs: Seq<Paragraph>,
)
    requires
        segment_views(segments) == paragraph_segments(paragraphs),
        forall|i: int|
            0 <= i < paragraphs.len() ==> (#[trigger] paragraphs[i]).text@ == runs_text(
                runs_view(paragraphs[i].runs@),
            ),
    ensures
        segments_text(segments) == joined_text(paragraphs_view(paragraphs)),
{
    law_segments_carry_text(segments, paragraphs);
    lemma_runs_joined(paragraphs);
}

proof fn lemma_runs_joined(paragraphs: Seq<Paragraph>)
    requires
        forall|i: int|
            0 <= i < paragraphs.len() ==> (#[trigger] paragraphs[i]).text@ == runs_text(
                runs_view(paragraphs[i].runs@),
            ),
    ensures
        runs_joined(paragraphs) == joined_text(paragraphs_view(paragraphs)),
    decreases paragraphs.len(),
{
    let views = paragraphs_view(paragraphs);
    if paragraphs.len() == 1 {
        assert(views[0].text == paragraphs[0].text@);
    } else if paragraphs.len() > 1 {
        let front = paragraphs.drop_last();
        assert forall|i: int| 0 <= i < front.len() implies (#[trigger] front[i]).text@
            == runs_text(runs_view(front[i].runs@)) by {
            assert(front[i] == paragraphs[i]);
        }
        lemma_runs_joined(front);
        assert(views.drop_last() =~= paragraphs_view(front));
        assert(views.last().text == paragraphs.last().text@);
    }
}

} // verus!
