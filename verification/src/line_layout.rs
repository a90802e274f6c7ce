//! Laying out paragraphs: the lines of a text with what a renderer needs to
//! know of each. Lengths are whole units, as the line breaker counts them;
//! turning them into heights on a page is left to the caller.

use crate::line_breaking::{
    break_chars, law_lines_fit, lemma_width_one, lemma_width_split, lines_from, text_width,
    width_of, BreakType, Line,
};
use crate::text::{
    is_line_index, lemma_newline_positions, line_end, line_start, newline_positions,
    scan_line_starts, to_chars, to_text,
};
use vstd::prelude::*;
use vstd::string::StrSliceExecFns;

verus! {

/// What to lay out for.
#[derive(Clone, Copy, Debug, PartialEq, Eq, Structural)]
pub struct LayoutOptions {
    /// Most units a line may be wide.
    pub max_width: u32,
    /// Whether lines are examined for right-to-left text.
    pub bidi_enabled: bool,
    /// Whether the width of trailing white space is measured.
    pub trim_trailing: bool,
}

/// One line of a laid-out paragraph.
#[derive(Clone, Copy, Debug, PartialEq, Eq, Structural)]
pub struct LineLayoutInfo {
    /// Line index (0-based)
    pub line_number: usize,
    /// First character of the line
    pub start: usize,
    /// Position after the last character of the line
    pub end: usize,
    /// Line width
    pub width: u32,
    /// How the line came to end
    pub break_type: BreakType,
    /// Character count on line
    pub char_count: usize,
    /// Whether line contains right-to-left text
    pub is_bidi: bool,
    /// Width of the white space at the end of the line
    pub trailing_whitespace: u32,
}

/// A laid-out paragraph.
#[derive(Debug, Clone, PartialEq, Eq)]
pub struct ParagraphLayout {
    /// Original text
    pub text: String,
    /// Maximum line width used
    pub max_width: u32,
    /// Individual line layouts
    pub lines: Vec<LineLayoutInfo>,
    /// Whether text contains right-to-left content
    pub has_bidi: bool,
}

/// A laid-out document.
#[derive(Debug, Clone, PartialEq, Eq)]
pub struct DocumentLayout {
    /// All paragraphs
    pub paragraphs: Vec<ParagraphLayout>,
    /// Width of the widest line
    pub total_width: u32,
}

/// The name of a kind of line end.
pub fn break_type_name(break_type: BreakType) -> (name: &'static str)
    ensures
        name@ == match break_type {
            BreakType::HardBreak => "HardBreak"@,
            BreakType::SoftBreak => "SoftBreak"@,
            BreakType::Hyphenated => "Hyphenated"@,
        },
{
    match break_type {
        BreakType::HardBreak => "HardBreak",
        BreakType::SoftBreak => "SoftBreak",
        BreakType::Hyphenated => "Hyphenated",
    }
}

/// Whether `c` belongs to a script written from right to left: Hebrew,
/// Arabic and its supplements and presentation forms, and the scripts of
/// the range from U+10800 on.
pub open spec fn is_rtl(c: char) -> bool {
    let u = c as u32;
    ||| 0x0590 <= u <= 0x05FF
    ||| 0x0600 <= u <= 0x06FF
    ||| 0x0750 <= u <= 0x077F
    ||| 0x08A0 <= u <= 0x08FF
    ||| 0xFB50 <= u <= 0xFDFF
    ||| 0xFE70 <= u <= 0xFEFF
    ||| 0x10800 <= u <= 0x10FFF
}

/// Whether `c` belongs to a script written from right to left.
pub fn is_rtl_char(c: char) -> (b: bool)
    ensures
        b == is_rtl(c),
{
    let u = c as u32;
    (0x0590 <= u && u <= 0x05FF) || (0x0600 <= u && u <= 0x06FF) || (0x0750 <= u && u <= 0x077F)
        || (0x08A0 <= u && u <= 0x08FF) || (0xFB50 <= u && u <= 0xFDFF) || (0xFE70 <= u && u
        <= 0xFEFF) || (0x10800 <= u && u <= 0x10FFF)
}

/// Whether `c` is white space.
pub open spec fn is_white(c: char) -> bool {
    let u = c as u32;
    ||| 0x0009 <= u <= 0x000D
    ||| u == 0x0020
    ||| u == 0x0085
    ||| u == 0x00A0
    ||| u == 0x1680
    ||| 0x2000 <= u <= 0x200A
    ||| u == 0x2028
    ||| u == 0x2029
    ||| u == 0x202F
    ||| u == 0x205F
    ||| u == 0x3000
}

/// Whether `c` is white space.
pub fn is_white_char(c: char) -> (b: bool)
    ensures
        b == is_white(c),
{
    let u = c as u32;
    (0x0009 <= u && u <= 0x000D) || u == 0x0020 || u == 0x0085 || u == 0x00A0 || u == 0x1680 || (
    0x2000 <= u && u <= 0x200A) || u == 0x2028 || u == 0x2029 || u == 0x202F || u == 0x205F || u
        == 0x3000
}

/// Whether some character of `t` in `[start, end)` is written from right to
/// left.
pub open spec fn has_rtl(t: Seq<char>, start: int, end: int) -> bool {
    exists|i: int| start <= i < end && is_rtl(#[trigger] t[i])
}

/// Where the white space at the end of `[start, end)` begins.
pub open spec fn trailing_start(t: Seq<char>, start: int, end: int) -> int
    decreases end - start,
{
    if end <= start || !is_white(t[end - 1]) {
        end
    } else {
        trailing_start(t, start, end - 1)
    }
}

/// The line lies within the text.
pub open spec fn line_ok(t: Seq<char>, line: Line) -> bool {
    line.start <= line.end <= t.len()
}

/// A width as it is held: `u32::MAX` stands for that and for all above.
pub open spec fn held_width(width: nat) -> u32 {
    if width <= u32::MAX {
        width as u32
    } else {
        u32::MAX
    }
}

/// Where the last line of `lines` that is not empty ends; 0 if there is
/// none.
pub open spec fn offset_after(lines: Seq<Line>) -> int
    decreases lines.len(),
{
    if lines.len() == 0 {
        0
    } else if lines.last().start < lines.last().end {
        lines.last().end as int
    } else {
        offset_after(lines.drop_last())
    }
}

/// What is known of line number `number`: an empty line is placed where the
/// last line before it that was not empty ended; of any other line, its
/// extent, its width as the breaker gave it and its kind of end are kept,
/// its characters counted, and, as the options ask, right-to-left text
/// looked for and the white space at its end measured.
pub open spec fn info_of(t: Seq<char>, lines: Seq<Line>, number: int, options: LayoutOptions) -> LineLayoutInfo {
    let line = lines[number];
    if line.start >= line.end {
        LineLayoutInfo {
            line_number: number as usize,
            start: offset_after(lines.take(number)) as usize,
            end: offset_after(lines.take(number)) as usize,
            width: 0,
            break_type: BreakType::HardBreak,
            char_count: 0,
            is_bidi: false,
            trailing_whitespace: 0,
        }
    } else {
        LineLayoutInfo {
            line_number: number as usize,
            start: line.start,
            end: line.end,
            width: line.width,
            break_type: line.break_type,
            char_count: (line.end - line.start) as usize,
            is_bidi: options.bidi_enabled && has_rtl(t, line.start as int, line.end as int),
            trailing_whitespace: if options.trim_trailing {
                held_width(
                    text_width(
                        t.subrange(
                            trailing_start(t, line.start as int, line.end as int),
                            line.end as int,
                        ),
                    ),
                )
            } else {
                0
            },
        }
    }
}

/// What is known of each line.
pub open spec fn infos_of(t: Seq<char>, lines: Seq<Line>, options: LayoutOptions) -> Seq<
    LineLayoutInfo,
> {
    Seq::new(lines.len(), |i: int| info_of(t, lines, i, options))
}

/// Whether some line holds right-to-left text.
pub open spec fn any_bidi(infos: Seq<LineLayoutInfo>) -> bool {
    exists|i: int| 0 <= i < infos.len() && (#[trigger] infos[i]).is_bidi
}

/// Whether some character of `chars` in `[start, end)` is written from right
/// to left.
fn scan_rtl(chars: &Vec<char>, start: usize, end: usize) -> (b: bool)
    requires
        start <= end <= chars.len(),
    ensures
        b == has_rtl(chars@, start as int, end as int),
{
    let mut i: usize = start;
    while i < end
        invariant
            start <= i <= end <= chars.len(),
            !has_rtl(chars@, start as int, i as int),
        decreases end - i,
    {
        if is_rtl_char(chars[i]) {
            return true;
        }
        i += 1;
    }
    false
}

/// Width of the white space at the end of `[start, end)`, as it is held.
fn trailing_width(chars: &Vec<char>, start: usize, end: usize) -> (w: u32)
    requires
        start <= end <= chars.len(),
    ensures
        w == held_width(
            text_width(
                chars@.subrange(trailing_start(chars@, start as int, end as int), end as int),
            ),
        ),
{
    let ghost t = chars@;
    let mut i: usize = end;
    let mut w: u32 = 0;
    proof {
        assert(t.subrange(end as int, end as int) =~= Seq::<char>::empty());
    }
    while i > start && is_white_char(chars[i - 1])
        invariant
            start <= i <= end <= chars.len(),
            t == chars@,
            w == held_width(text_width(t.subrange(i as int, end as int))),
            trailing_start(t, start as int, end as int) == trailing_start(
                t,
                start as int,
                i as int,
            ),
        decreases i - start,
    {
        proof {
            lemma_width_split(t, i - 1, i as int, end as int);
            lemma_width_one(t, i - 1);
        }
        let c = width_of(chars[i - 1]);
        w = if c > u32::MAX - w { u32::MAX } else { w + c };
        i -= 1;
    }
    w
}

/// What is known of each of the given lines of the text `chars`, and whether
/// any of them holds right-to-left text.
pub fn describe_lines(chars: &Vec<char>, lines: &Vec<Line>, options: LayoutOptions) -> (r: (
    Vec<LineLayoutInfo>,
    bool,
))
    requires
        forall|i: int| 0 <= i < lines@.len() ==> line_ok(chars@, #[trigger] lines@[i]),
    ensures
        r.0@ == infos_of(chars@, lines@, options),
        r.1 == any_bidi(r.0@),
{
    let mut infos: Vec<LineLayoutInfo> = Vec::new();
    let mut has_bidi = false;
    let mut offset: usize = 0;
    let mut i: usize = 0;
    while i < lines.len()
        invariant
            i <= lines.len(),
            forall|k: int| 0 <= k < lines@.len() ==> line_ok(chars@, #[trigger] lines@[k]),
            infos@ == infos_of(chars@, lines@, options).take(i as int),
            has_bidi == any_bidi(infos@),
            offset == offset_after(lines@.take(i as int)),
        decreases lines.len() - i,
    {
        let line = lines[i];
        let ghost before = infos@;
        proof {
            assert(line_ok(chars@, lines@[i as int]));
            assert(lines@.take(i + 1).drop_last() =~= lines@.take(i as int));
            assert(lines@.take(i + 1).last() == line);
        }
        let info = if line.is_empty() {
            LineLayoutInfo {
                line_number: i,
                start: offset,
                end: offset,
                width: 0,
                break_type: BreakType::HardBreak,
                char_count: 0,
                is_bidi: false,
                trailing_whitespace: 0,
            }
        } else {
            let is_bidi = options.bidi_enabled && scan_rtl(chars, line.start, line.end);
            let trailing_whitespace = if options.trim_trailing {
                trailing_width(chars, line.start, line.end)
            } else {
                0
            };
            offset = line.end;
            LineLayoutInfo {
                line_number: i,
                start: line.start,
                end: line.end,
                width: line.width,
                break_type: line.break_type,
                char_count: line.end - line.start,
                is_bidi,
                trailing_whitespace,
            }
        };
        infos.push(info);
        proof {
            let all = infos_of(chars@, lines@, options);
            assert(info == all[i as int]);
            assert(infos@ =~= all.take(i + 1));
            if info.is_bidi {
                assert(infos@[i as int].is_bidi);
            } else if any_bidi(infos@) {
                let k = choose|k: int| 0 <= k < infos@.len() && (#[trigger] infos@[k]).is_bidi;
                assert(before[k].is_bidi);
            } else if any_bidi(before) {
                let k = choose|k: int| 0 <= k < before.len() && (#[trigger] before[k]).is_bidi;
                assert(infos@[k].is_bidi);
            }
        }
        has_bidi = has_bidi || info.is_bidi;
        i += 1;
    }
    proof {
        assert(infos@ =~= infos_of(chars@, lines@, options));
    }
    (infos, has_bidi)
}

/// The layout of the paragraph `chars`.
pub fn layout_chars(chars: &Vec<char>, options: LayoutOptions) -> (r: ParagraphLayout)
    ensures
        r.text@ == chars@,
        r.max_width == options.max_width,
        r.lines@ == infos_of(chars@, lines_from(chars@, 0, options.max_width as int), options),
        r.has_bidi == any_bidi(r.lines@),
{
    let lines = break_chars(chars, options.max_width);
    proof {
        assert(chars.len() == chars@.len());
        law_lines_fit(chars@, 0, options.max_width as int);
    }
    let (infos, has_bidi) = describe_lines(chars, &lines, options);
    ParagraphLayout { text: to_text(chars), max_width: options.max_width, lines: infos, has_bidi }
}

/// The layout of the paragraph `text`: its lines for the width that the
/// options give, with what is known of each.
pub fn layout_paragraph(text: &str, options: LayoutOptions) -> (r: ParagraphLayout)
    ensures
        r.text@ == text@,
        r.max_width == options.max_width,
        r.lines@ == infos_of(text@, lines_from(text@, 0, options.max_width as int), options),
        r.has_bidi == any_bidi(r.lines@),
{
    let chars = to_chars(text);
    layout_chars(&chars, options)
}

/// Paragraph `k` of the text `t`: what stands between its line terminators
/// number `k - 1` and `k`, the start and the end of the text taking the
/// place of the terminators that are not there.
pub open spec fn paragraph_text(t: Seq<char>, k: int) -> Seq<char>
    recommends
        0 <= k <= newline_positions(t).len(),
{
    t.subrange(line_start(t, k), line_end(t, k))
}

/// Whether `p` is the layout of the paragraph `t`.
pub open spec fn is_layout_of(p: ParagraphLayout, t: Seq<char>, options: LayoutOptions) -> bool {
    &&& p.text@ == t
    &&& p.max_width == options.max_width
    &&& p.lines@ == infos_of(t, lines_from(t, 0, options.max_width as int), options)
    &&& p.has_bidi == any_bidi(p.lines@)
}

/// Width of the widest of the lines; 0 if there is none.
pub open spec fn widest_line(lines: Seq<LineLayoutInfo>) -> u32
    decreases lines.len(),
{
    if lines.len() == 0 {
        0
    } else if lines.last().width > widest_line(lines.drop_last()) {
        lines.last().width
    } else {
        widest_line(lines.drop_last())
    }
}

/// Width of the widest line of the paragraphs; 0 if there is none.
pub open spec fn widest(paragraphs: Seq<ParagraphLayout>) -> u32
    decreases paragraphs.len(),
{
    if paragraphs.len() == 0 {
        0
    } else if widest_line(paragraphs.last().lines@) > widest(paragraphs.drop_last()) {
        widest_line(paragraphs.last().lines@)
    } else {
        widest(paragraphs.drop_last())
    }
}

/// Width of the widest of the lines; 0 if there is none.
pub fn widest_of(lines: &Vec<LineLayoutInfo>) -> (w: u32)
    ensures
        w == widest_line(lines@),
{
    let mut w: u32 = 0;
    let mut i: usize = 0;
    while i < lines.len()
        invariant
            i <= lines.len(),
            w == widest_line(lines@.take(i as int)),
        decreases lines.len() - i,
    {
        proof {
            assert(lines@.take(i + 1).drop_last() =~= lines@.take(i as int));
        }
        if lines[i].width > w {
            w = lines[i].width;
        }
        i += 1;
    }
    proof {
        assert(lines@.take(i as int) =~= lines@);
    }
    w
}

/// The characters `[start, end)` of `chars`.
fn copy_chars(chars: &Vec<char>, start: usize, end: usize) -> (r: Vec<char>)
    requires
        start <= end <= chars.len(),
    ensures
        r@ == chars@.subrange(start as int, end as int),
{
    let mut r: Vec<char> = Vec::new();
    let mut i: usize = start;
    while i < end
        invariant
            start <= i <= end <= chars.len(),
            r@ == chars@.subrange(start as int, i as int),
        decreases end - i,
    {
        r.push(chars[i]);
        proof {
            assert(chars@.subrange(start as int, i + 1) =~= chars@.subrange(
                start as int,
                i as int,
            ).push(chars@[i as int]));
        }
        i += 1;
    }
    r
}

/// The layout of a document: its text is cut at the line terminators into
/// paragraphs, one more than there are terminators, and each is laid out by
/// itself.
pub fn layout_document(text: &str, options: LayoutOptions) -> (r: DocumentLayout)
    ensures
        r.paragraphs@.len() == newline_positions(text@).len() + 1,
        forall|k: int|
            0 <= k < r.paragraphs@.len() ==> is_layout_of(
                #[trigger] r.paragraphs@[k],
                paragraph_text(text@, k),
                options,
            ),
        r.total_width == widest(r.paragraphs@),
{
    let chars = to_chars(text);
    let n = chars.len();
    let index = scan_line_starts(&chars, 0, n);
    let ghost t = chars@;
    proof {
        assert(t.subrange(0, n as int) =~= t);
        lemma_newline_positions(t);
    }
    let mut paragraphs: Vec<ParagraphLayout> = Vec::new();
    let mut total_width: u32 = 0;
    let mut start: usize = 0;
    let mut k: usize = 0;
    while k < index.len()
        invariant
            k <= index.len(),
            t == chars@,
            n == t.len(),
            is_line_index(index@, t),
            start == line_start(t, k as int),
            start <= n,
            paragraphs@.len() == k,
            forall|j: int|
                0 <= j < k ==> is_layout_of(
                    #[trigger] paragraphs@[j],
                    paragraph_text(t, j),
                    options,
                ),
            total_width == widest(paragraphs@),
        decreases index.len() - k,
    {
        proof {
            lemma_newline_positions(t);
            assert(index@[k as int] as int == newline_positions(t)[k as int]);
            if k > 0 {
                assert(index@[k - 1] as int == newline_positions(t)[k - 1]);
            }
        }
        let end = index[k];
        let part = copy_chars(&chars, start, end);
        let layout = layout_chars(&part, options);
        let w = widest_of(&layout.lines);
        if w > total_width {
            total_width = w;
        }
        let ghost before = paragraphs@;
        paragraphs.push(layout);
        proof {
            assert(paragraphs@.drop_last() =~= before);
            assert forall|j: int| 0 <= j < k + 1 implies is_layout_of(
                #[trigger] paragraphs@[j],
                paragraph_text(t, j),
                options,
            ) by {
                if j < k {
                    assert(paragraphs@[j] == before[j]);
                }
            }
        }
        start = end + 1;
        k += 1;
    }
    let part = copy_chars(&chars, start, n);
    let layout = layout_chars(&part, options);
    let w = widest_of(&layout.lines);
    if w > total_width {
        total_width = w;
    }
    let ghost before = paragraphs@;
    paragraphs.push(layout);
    proof {
        assert(paragraphs@.drop_last() =~= before);
        assert forall|j: int| 0 <= j < k + 1 implies is_layout_of(
            #[trigger] paragraphs@[j],
            paragraph_text(t, j),
            options,
        ) by {
            if j < k {
                assert(paragraphs@[j] == before[j]);
            }
        }
    }
    DocumentLayout { paragraphs, total_width }
}

/// Where to take each character of a line from to show the line: nothing
/// for an empty text, and else the whole text as one stretch, from its first
/// character to its last, in the order in which it is stored.
pub fn calculate_visual_order(text: &str) -> (order: Vec<(usize, usize)>)
    ensures
        order@ == if text@.len() == 0 {
            Seq::<(usize, usize)>::empty()
        } else {
            seq![(0usize, text@.len() as usize)]
        },
{
    let mut order: Vec<(usize, usize)> = Vec::new();
    let length = text.unicode_len();
    if length > 0 {
        order.push((0, length));
    }
    order
}

/// Number of lines that `text` takes at the given width.
pub fn get_line_count(text: &str, max_width: u32) -> (n: usize)
    ensures
        n == lines_from(text@, 0, max_width as int).len(),
{
    let chars = to_chars(text);
    break_chars(&chars, max_width).len()
}

} // verus!
