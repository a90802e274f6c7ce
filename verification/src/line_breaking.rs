//! Breaking text into lines that fit a width.
//!
//! Widths are whole units: a character is one unit wide, two if it is an
//! East Asian wide character, four if it is a tab, and none if it is another
//! control character. Positions count characters.
//!
//! A line runs as far as the width allows and no further than the next line
//! terminator. Where the width cuts it short, it is ended after the last
//! space or tab it holds, or, having none, right where the width ran out; a
//! character wider than the whole width stands on a line of its own.

use crate::text::to_chars;
use vstd::prelude::*;

verus! {

/// Width in units of a line unless told otherwise.
pub const DEFAULT_MAX_WIDTH: u32 = 80;

/// Width in units of a tab.
pub const TAB_WIDTH: u32 = 4;

/// How a line came to end.
#[derive(Clone, Copy, Debug, PartialEq, Eq, Structural)]
pub enum BreakType {
    /// At a line terminator, or at the end of the text.
    HardBreak,
    /// Where the width ran out.
    SoftBreak,
    /// Inside a word, with a hyphen. No line is broken this way yet.
    Hyphenated,
}

/// One line: the characters `[start, end)` of the text.
#[derive(Clone, Copy, Debug, PartialEq, Eq, Structural)]
pub struct Line {
    pub start: usize,
    pub end: usize,
    /// Sum of the widths of the line's characters.
    pub width: u32,
    pub break_type: BreakType,
}

impl Line {
    /// Whether the line holds no character.
    pub fn is_empty(&self) -> (b: bool)
        ensures
            b == (self.start >= self.end),
    {
        self.start >= self.end
    }
}

/// What a line breaker goes by.
#[derive(Clone, Copy, Debug, PartialEq, Eq, Structural)]
pub struct LineBreakerConfig {
    /// Most units a line may be wide.
    pub max_width: u32,
}

/// Breaks text into lines.
#[derive(Clone, Copy, Debug, PartialEq, Eq, Structural)]
pub struct LineBreaker {
    pub config: LineBreakerConfig,
}

/// Whether `c` is an East Asian wide character.
pub open spec fn is_wide(c: char) -> bool {
    let u = c as u32;
    ||| 0x1100 <= u <= 0x115F
    ||| 0x2E80 <= u <= 0xA4CF
    ||| 0xAC00 <= u <= 0xD7A3
    ||| 0xF900 <= u <= 0xFAFF
    ||| 0xFE30 <= u <= 0xFE4F
    ||| 0xFF00 <= u <= 0xFF60
    ||| 0xFFE0 <= u <= 0xFFE6
}

/// Width of `c` in units.
pub open spec fn char_width(c: char) -> nat {
    if c == '\t' {
        TAB_WIDTH as nat
    } else if (c as u32) < 0x20 || c as u32 == 0x7F {
        0
    } else if is_wide(c) {
        2
    } else {
        1
    }
}

/// Sum of the widths of the characters of `s`.
pub open spec fn text_width(s: Seq<char>) -> nat
    decreases s.len(),
{
    if s.len() == 0 {
        0
    } else {
        text_width(s.drop_last()) + char_width(s.last())
    }
}

/// Whether a line may be ended after `c`.
pub open spec fn is_break_space(c: char) -> bool {
    c == ' ' || c == '\t'
}

/// How far a line reaches that is at `pos` with `room` units left: to the
/// end of the text, to a line terminator, or to the first character wider
/// than the room left.
pub open spec fn fit_end(t: Seq<char>, pos: int, room: int) -> int
    decreases t.len() - pos,
{
    if pos < 0 || pos >= t.len() || t[pos] == '\n' || char_width(t[pos]) > room {
        pos
    } else {
        fit_end(t, pos + 1, room - char_width(t[pos]))
    }
}

/// The position after the last space or tab in `[start, end)`, or `start`
/// if there is none.
pub open spec fn after_last_space(t: Seq<char>, start: int, end: int) -> int
    decreases end - start,
{
    if end <= start {
        start
    } else if is_break_space(t[end - 1]) {
        end
    } else {
        after_last_space(t, start, end - 1)
    }
}

/// Whether the line that starts at `start` ends at a line terminator or at
/// the end of the text.
pub open spec fn ends_hard(t: Seq<char>, start: int, max: int) -> bool {
    fit_end(t, start, max) >= t.len() || t[fit_end(t, start, max)] == '\n'
}

/// Where the line that starts at `start` ends.
pub open spec fn break_end(t: Seq<char>, start: int, max: int) -> int {
    let reach = fit_end(t, start, max);
    if ends_hard(t, start, max) {
        reach
    } else if reach == start {
        start + 1
    } else if after_last_space(t, start, reach) > start {
        after_last_space(t, start, reach)
    } else {
        reach
    }
}

/// Where the line after the one that starts at `start` starts: at the end of
/// that line, the line terminator skipped if the line ends at one.
pub open spec fn next_start(t: Seq<char>, start: int, max: int) -> int {
    if ends_hard(t, start, max) && break_end(t, start, max) < t.len() {
        break_end(t, start, max) + 1
    } else {
        break_end(t, start, max)
    }
}

/// The line that starts at `start`.
pub open spec fn line_at(t: Seq<char>, start: int, max: int) -> Line {
    Line {
        start: start as usize,
        end: break_end(t, start, max) as usize,
        width: text_width(t.subrange(start, break_end(t, start, max))) as u32,
        break_type: if ends_hard(t, start, max) {
            BreakType::HardBreak
        } else {
            BreakType::SoftBreak
        },
    }
}

/// The lines of `t` from position `start` on.
pub open spec fn lines_from(t: Seq<char>, start: int, max: int) -> Seq<Line>
    decreases t.len() - start,
{
    if start < 0 || start >= t.len() || next_start(t, start, max) <= start || next_start(
        t,
        start,
        max,
    ) > t.len() {
        Seq::empty()
    } else {
        seq![line_at(t, start, max)] + lines_from(t, next_start(t, start, max), max)
    }
}

/// A line reaches no further than the text and holds no more than the room
/// it had.
pub proof fn lemma_fit_end(t: Seq<char>, pos: int, room: int)
    requires
        0 <= pos <= t.len(),
        0 <= room,
    ensures
        pos <= fit_end(t, pos, room) <= t.len(),
        text_width(t.subrange(pos, fit_end(t, pos, room))) <= room,
    decreases t.len() - pos,
{
    if pos >= t.len() || t[pos] == '\n' || char_width(t[pos]) > room {
        assert(t.subrange(pos, pos) =~= Seq::<char>::empty());
    } else {
        let rest = room - char_width(t[pos]);
        lemma_fit_end(t, pos + 1, rest);
        let e = fit_end(t, pos + 1, rest);
        lemma_width_split(t, pos, pos + 1, e);
        lemma_width_one(t, pos);
    }
}

/// The width of one character taken as a text.
pub proof fn lemma_width_one(t: Seq<char>, pos: int)
    requires
        0 <= pos < t.len(),
    ensures
        text_width(t.subrange(pos, pos + 1)) == char_width(t[pos]),
{
    let one = t.subrange(pos, pos + 1);
    assert(one.drop_last() =~= Seq::<char>::empty());
    assert(text_width(one.drop_last()) == 0);
    assert(one.last() == t[pos]);
}

/// Widths add up over adjoining stretches.
pub proof fn lemma_width_split(t: Seq<char>, from: int, mid: int, to: int)
    requires
        0 <= from <= mid <= to <= t.len(),
    ensures
        text_width(t.subrange(from, to)) == text_width(t.subrange(from, mid)) + text_width(
            t.subrange(mid, to),
        ),
    decreases to - mid,
{
    if mid == to {
        assert(t.subrange(mid, to) =~= Seq::<char>::empty());
    } else {
        lemma_width_split(t, from, mid, to - 1);
        assert(t.subrange(from, to).drop_last() =~= t.subrange(from, to - 1));
        assert(t.subrange(mid, to).drop_last() =~= t.subrange(mid, to - 1));
    }
}

/// The position after the last space lies within the stretch searched.
pub proof fn lemma_after_last_space(t: Seq<char>, start: int, end: int)
    requires
        0 <= start <= end <= t.len(),
    ensures
        start <= after_last_space(t, start, end) <= end,
    decreases end - start,
{
    if end > start && !is_break_space(t[end - 1]) {
        lemma_after_last_space(t, start, end - 1);
    }
}

/// Every line ends after it starts or at a line terminator, ends within the
/// text, and is no wider than the width allows unless it is a single
/// character; and the next line starts further on.
pub proof fn lemma_line_fits(t: Seq<char>, start: int, max: int)
    requires
        0 <= start < t.len(),
        0 <= max,
    ensures
        start <= break_end(t, start, max) <= t.len(),
        start < next_start(t, start, max) <= t.len(),
        text_width(t.subrange(start, break_end(t, start, max))) <= max || break_end(t, start, max)
            == start + 1,
        break_end(t, start, max) == start + 1 ==> text_width(
            t.subrange(start, break_end(t, start, max)),
        ) == char_width(t[start]),
{
    lemma_fit_end(t, start, max);
    let reach = fit_end(t, start, max);
    lemma_after_last_space(t, start, reach);
    let end = break_end(t, start, max);
    if end <= reach {
        lemma_width_split(t, start, end, reach);
    }
    lemma_width_one(t, start);
}

/// No line terminator stands in `[from, to)`.
pub open spec fn no_terminator(t: Seq<char>, from: int, to: int) -> bool {
    forall|p: int| from <= p < to ==> #[trigger] t[p] != '\n'
}

/// `next` starts where `line` ends: right behind the line terminator if
/// `line` ends at one, and at the end of `line` itself if it does not.
pub open spec fn follows(t: Seq<char>, line: Line, next: Line) -> bool {
    if line.break_type == BreakType::HardBreak {
        line.end < t.len() && t[line.end as int] == '\n' && next.start == line.end + 1
    } else {
        next.start == line.end
    }
}

/// A line reaches no line terminator.
pub proof fn lemma_fit_end_plain(t: Seq<char>, pos: int, room: int)
    requires
        0 <= pos <= t.len(),
    ensures
        no_terminator(t, pos, fit_end(t, pos, room)),
    decreases t.len() - pos,
{
    if !(pos >= t.len() || t[pos] == '\n' || char_width(t[pos]) > room) {
        lemma_fit_end_plain(t, pos + 1, room - char_width(t[pos]));
    }
}

/// The lines tile the text. There are lines exactly if there is text; the
/// first starts where the text starts; each lies within the text and holds
/// no line terminator; each next one starts where the one before it ends,
/// a line terminator between them being skipped; and the last ends where
/// the text ends, or at the line terminator that ends the text.
pub proof fn law_lines_tile(t: Seq<char>, start: int, max: int)
    requires
        0 <= start <= t.len(),
        0 <= max <= u32::MAX,
        t.len() <= usize::MAX,
    ensures
        (lines_from(t, start, max).len() > 0) == (start < t.len()),
        start < t.len() ==> lines_from(t, start, max)[0].start == start,
        forall|i: int|
            0 <= i < lines_from(t, start, max).len() ==> {
                let line = #[trigger] lines_from(t, start, max)[i];
                line.start <= line.end <= t.len() && no_terminator(
                    t,
                    line.start as int,
                    line.end as int,
                )
            },
        forall|i: int|
            0 <= i < lines_from(t, start, max).len() - 1 ==> follows(
                t,
                #[trigger] lines_from(t, start, max)[i],
                lines_from(t, start, max)[i + 1],
            ),
        start < t.len() ==> {
            let last = lines_from(t, start, max).last();
            last.end == t.len() || (last.break_type == BreakType::HardBreak && last.end == t.len()
                - 1 && t[last.end as int] == '\n')
        },
    decreases t.len() - start,
{
    if start < t.len() {
        lemma_line_fits(t, start, max);
        lemma_fit_end(t, start, max);
        lemma_fit_end_plain(t, start, max);
        let first = line_at(t, start, max);
        let next = next_start(t, start, max);
        let rest = lines_from(t, next, max);
        let all = lines_from(t, start, max);
        law_lines_tile(t, next, max);
        assert(all =~= seq![first] + rest);
        assert(all[0] == first);
        assert(first.start == start);
        assert(first.end == break_end(t, start, max));
        lemma_after_last_space(t, start, fit_end(t, start, max));
        assert(no_terminator(t, first.start as int, first.end as int)) by {
            let reach = fit_end(t, start, max);
            assert forall|p: int| start <= p < first.end implies #[trigger] t[p] != '\n' by {
                if p < reach {
                    assert(no_terminator(t, start, reach));
                }
            }
        }
        assert forall|i: int| 0 <= i < all.len() implies {
            let line = #[trigger] all[i];
            line.start <= line.end <= t.len() && no_terminator(
                t,
                line.start as int,
                line.end as int,
            )
        } by {
            if i > 0 {
                assert(all[i] == rest[i - 1]);
            }
        }
        assert forall|i: int| 0 <= i < all.len() - 1 implies follows(
            t,
            #[trigger] all[i],
            all[i + 1],
        ) by {
            if i > 0 {
                assert(all[i] == rest[i - 1]);
                assert(all[i + 1] == rest[i]);
            } else {
                assert(all[1] == rest[0]);
            }
        }
        if rest.len() > 0 {
            assert(all.last() == rest.last());
        }
    }
}

/// Every line is as wide as its characters are together, and no line is
/// wider than the width allows, unless it is a single character that is.
pub proof fn law_lines_fit(t: Seq<char>, start: int, max: int)
    requires
        0 <= start <= t.len(),
        0 <= max <= u32::MAX,
        t.len() <= usize::MAX,
    ensures
        forall|i: int|
            0 <= i < lines_from(t, start, max).len() ==> {
                let line = #[trigger] lines_from(t, start, max)[i];
                &&& line.start <= line.end <= t.len()
                &&& line.width == text_width(t.subrange(line.start as int, line.end as int))
                &&& (line.width <= max || line.end == line.start + 1)
            },
    decreases t.len() - start,
{
    if start < t.len() {
        lemma_line_fits(t, start, max);
        let next = next_start(t, start, max);
        law_lines_fit(t, next, max);
        let rest = lines_from(t, next, max);
        let all = lines_from(t, start, max);
        assert forall|i: int| 0 <= i < all.len() implies {
            let line = #[trigger] all[i];
            &&& line.start <= line.end <= t.len()
            &&& line.width == text_width(t.subrange(line.start as int, line.end as int))
            &&& (line.width <= max || line.end == line.start + 1)
        } by {
            if i > 0 {
                assert(all[i] == rest[i - 1]);
            }
        }
    }
}

/// Width of `c` in units.
pub fn width_of(c: char) -> (w: u32)
    ensures
        w == char_width(c),
        w <= TAB_WIDTH,
{
    let u = c as u32;
    if c == '\t' {
        TAB_WIDTH
    } else if u < 0x20 || u == 0x7F {
        0
    } else if (0x1100 <= u && u <= 0x115F) || (0x2E80 <= u && u <= 0xA4CF) || (0xAC00 <= u && u
        <= 0xD7A3) || (0xF900 <= u && u <= 0xFAFF) || (0xFE30 <= u && u <= 0xFE4F) || (0xFF00 <= u
        && u <= 0xFF60) || (0xFFE0 <= u && u <= 0xFFE6) {
        2
    } else {
        1
    }
}

/// The line of `chars` that starts at `start`, and where the next one
/// starts.
fn break_line(chars: &Vec<char>, start: usize, max: u32) -> (r: (Line, usize))
    requires
        start < chars.len(),
    ensures
        r.0 == line_at(chars@, start as int, max as int),
        r.1 == next_start(chars@, start as int, max as int),
        start < r.1 <= chars.len(),
{
    let ghost t = chars@;
    proof {
        lemma_line_fits(t, start as int, max as int);
        lemma_fit_end(t, start as int, max as int);
    }
    let mut reach: usize = start;
    let mut room: u32 = max;
    let mut used: u32 = 0;
    while reach < chars.len() && chars[reach] != '\n' && width_of(chars[reach]) <= room
        invariant
            start <= reach <= chars.len(),
            t == chars@,
            room + used == max,
            used == text_width(t.subrange(start as int, reach as int)),
            fit_end(t, start as int, max as int) == fit_end(t, reach as int, room as int),
        decreases chars.len() - reach,
    {
        let w = width_of(chars[reach]);
        proof {
            lemma_width_split(t, start as int, reach as int, reach + 1);
            lemma_width_one(t, reach as int);
        }
        room -= w;
        used += w;
        reach += 1;
    }
    if reach >= chars.len() || chars[reach] == '\n' {
        let line = Line { start, end: reach, width: used, break_type: BreakType::HardBreak };
        let next = if reach < chars.len() { reach + 1 } else { reach };
        return (line, next);
    }
    if reach == start {
        proof {
            lemma_width_one(t, start as int);
        }
        let line = Line {
            start,
            end: start + 1,
            width: width_of(chars[start]),
            break_type: BreakType::SoftBreak,
        };
        return (line, start + 1);
    }
    let mut end: usize = reach;
    let mut width: u32 = used;
    while end > start && chars[end - 1] != ' ' && chars[end - 1] != '\t'
        invariant
            start <= end <= reach <= chars.len(),
            t == chars@,
            width == text_width(t.subrange(start as int, end as int)),
            after_last_space(t, start as int, reach as int) == after_last_space(
                t,
                start as int,
                end as int,
            ),
        decreases end - start,
    {
        let w = width_of(chars[end - 1]);
        proof {
            lemma_width_split(t, start as int, end - 1, end as int);
            lemma_width_one(t, end - 1);
        }
        width -= w;
        end -= 1;
    }
    if end > start {
        (Line { start, end, width, break_type: BreakType::SoftBreak }, end)
    } else {
        (Line { start, end: reach, width: used, break_type: BreakType::SoftBreak }, reach)
    }
}

impl LineBreaker {
    /// A breaker for lines of the default width.
    pub fn new() -> (r: Self)
        ensures
            r.config.max_width == DEFAULT_MAX_WIDTH,
    {
        LineBreaker { config: LineBreakerConfig { max_width: DEFAULT_MAX_WIDTH } }
    }

    /// A breaker for lines of at most `max_width` units.
    pub fn with_width(max_width: u32) -> (r: Self)
        ensures
            r.config.max_width == max_width,
    {
        LineBreaker { config: LineBreakerConfig { max_width } }
    }

    /// Sets the width of the lines to come.
    pub fn set_max_width(&mut self, max_width: u32)
        ensures
            final(self).config.max_width == max_width,
    {
        self.config.max_width = max_width;
    }

    /// Width of `text` in units; `u64::MAX` if it is wider than that.
    pub fn calculate_text_width(&mut self, text: &str) -> (w: u64)
        ensures
            *final(self) == *old(self),
            w == if text_width(text@) <= u64::MAX {
                text_width(text@)
            } else {
                u64::MAX as nat
            },
    {
        let chars = to_chars(text);
        let mut w: u64 = 0;
        let mut i: usize = 0;
        while i < chars.len()
            invariant
                i <= chars.len(),
                chars@ == text@,
                w == if text_width(chars@.take(i as int)) <= u64::MAX {
                    text_width(chars@.take(i as int))
                } else {
                    u64::MAX as nat
                },
            decreases chars.len() - i,
        {
            proof {
                assert(chars@.take(i + 1).drop_last() =~= chars@.take(i as int));
            }
            let c = width_of(chars[i]) as u64;
            w = if c > u64::MAX - w { u64::MAX } else { w + c };
            i += 1;
        }
        proof {
            assert(chars@.take(i as int) =~= chars@);
        }
        w
    }

    /// The lines of `text`, in order, for lines of at most `max_width`
    /// units, or of the width this breaker is set to where none is given.
    /// An empty text has no lines.
    pub fn break_lines(&mut self, text: &str, max_width: Option<u32>) -> (lines: Vec<Line>)
        ensures
            *final(self) == *old(self),
            lines@ == lines_from(
                text@,
                0,
                match max_width {
                    Some(w) => w as int,
                    None => old(self).config.max_width as int,
                },
            ),
    {
        let max = match max_width {
            Some(w) => w,
            None => self.config.max_width,
        };
        let chars = to_chars(text);
        break_chars(&chars, max)
    }
}

/// The lines of `chars`, in order, for lines of at most `max` units.
pub fn break_chars(chars: &Vec<char>, max: u32) -> (lines: Vec<Line>)
    ensures
        lines@ == lines_from(chars@, 0, max as int),
{
    let mut lines: Vec<Line> = Vec::new();
    let mut start: usize = 0;
    proof {
        assert(lines@ + lines_from(chars@, 0, max as int) =~= lines_from(chars@, 0, max as int));
    }
    while start < chars.len()
        invariant
            start <= chars.len(),
            lines@ + lines_from(chars@, start as int, max as int) == lines_from(
                chars@,
                0,
                max as int,
            ),
        decreases chars.len() - start,
    {
        let (line, next) = break_line(chars, start, max);
        let ghost before = lines@;
        lines.push(line);
        proof {
            assert(before + (seq![line] + lines_from(chars@, next as int, max as int)) =~= lines@
                + lines_from(chars@, next as int, max as int));
        }
        start = next;
    }
    proof {
        assert(lines@ + Seq::<Line>::empty() =~= lines@);
    }
    lines
}

} // verus!
