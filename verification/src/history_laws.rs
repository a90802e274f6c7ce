//! What holds of the history across steps: when the stacks agree with the
//! document, that every step keeps them in agreement, that an undo followed
//! by a redo changes nothing, and how the bound on the undo stack works out
//! over a run of edits.

use crate::text::MAX_TEXT_LEN;
use crate::undo_redo::{
    applies, apply, captured, mergeable, merged, record_step, revert, reverts, CommandView,
    HistoryView, RecordView,
};
use vstd::prelude::*;

verus! {

/// The effect of `c` is still in place in `s`: an insertion's text stands
/// where it was put, and a deletion's text can be put back where it was.
pub open spec fn lands(c: CommandView, s: Seq<char>) -> bool {
    match c {
        CommandView::Insert { offset, text } => offset + text.len() <= s.len() && s.subrange(
            offset as int,
            (offset + text.len()) as int,
        ) == text,
        CommandView::Delete { offset, length, removed } => offset <= s.len() && s.len()
            + removed.len() <= MAX_TEXT_LEN && removed.len() == length,
    }
}

/// The undo stack can be taken back record by record, from the top down,
/// starting at text `s`.
pub open spec fn undo_chain(s: Seq<char>, undo: Seq<RecordView>) -> bool
    decreases undo.len(),
{
    undo.len() > 0 ==> lands(undo.last().command, s) && undo_chain(
        revert(undo.last().command, s),
        undo.drop_last(),
    )
}

/// The redo stack can be applied again record by record, from the top down,
/// starting at text `s`, each deletion taking out what it took out before.
pub open spec fn redo_chain(s: Seq<char>, redo: Seq<RecordView>) -> bool
    decreases redo.len(),
{
    redo.len() > 0 ==> applies(redo.last().command, s) && captured(redo.last().command, s)
        == redo.last().command && redo_chain(apply(redo.last().command, s), redo.drop_last())
}

/// The history agrees with the document: this is so in a fresh session and
/// stays so as long as every edit goes through the history.
pub open spec fn consistent(s: Seq<char>, h: HistoryView) -> bool {
    &&& s.len() <= MAX_TEXT_LEN
    &&& undo_chain(s, h.undo)
    &&& redo_chain(s, h.redo)
}

/// Undo followed by redo changes nothing: where a record's effect is in
/// place, its inverse applies, the record then applies again, the text is
/// once more what it was, and the record is recorded anew as it stood.
pub proof fn law_undo_then_redo(s: Seq<char>, r: RecordView)
    requires
        s.len() <= MAX_TEXT_LEN,
        lands(r.command, s),
    ensures
        reverts(r.command, s),
        applies(r.command, revert(r.command, s)),
        apply(r.command, revert(r.command, s)) == s,
        captured(r.command, revert(r.command, s)) == r.command,
{
    match r.command {
        CommandView::Insert { offset, text } => {
            let back = revert(r.command, s);
            assert(apply(r.command, back) =~= s);
        },
        CommandView::Delete { offset, length, removed } => {
            let back = revert(r.command, s);
            assert(apply(r.command, back) =~= s);
            assert(back.subrange(offset as int, (offset + length) as int) =~= removed);
        },
    }
}

/// A command that has just been applied is in place, and taking it back
/// gives the text it was applied to.
pub proof fn law_applied_lands(s: Seq<char>, c: CommandView)
    requires
        s.len() <= MAX_TEXT_LEN,
        applies(c, s),
    ensures
        lands(captured(c, s), apply(c, s)),
        revert(captured(c, s), apply(c, s)) == s,
        apply(c, s).len() <= MAX_TEXT_LEN,
{
    match c {
        CommandView::Insert { offset, text } => {
            let after = apply(c, s);
            assert(after.subrange(offset as int, (offset + text.len()) as int) =~= text);
            assert(revert(c, after) =~= s);
        },
        CommandView::Delete { offset, length, removed } => {
            let after = apply(c, s);
            assert(revert(captured(c, s), after) =~= s);
        },
    }
}

/// A record merged out of two that were applied one after the other is in
/// place after the second, and taking it back takes back both.
pub proof fn law_merged_lands(s: Seq<char>, top: RecordView, c: CommandView, timestamp: nat, window: nat)
    requires
        s.len() <= MAX_TEXT_LEN,
        lands(top.command, s),
        applies(c, s),
        mergeable(top, RecordView { command: captured(c, s), timestamp }, window),
    ensures
        lands(merged(top, RecordView { command: captured(c, s), timestamp }).command, apply(c, s)),
        revert(merged(top, RecordView { command: captured(c, s), timestamp }).command, apply(c, s))
            == revert(top.command, s),
{
    let new = RecordView { command: captured(c, s), timestamp };
    let both = merged(top, new).command;
    let after = apply(c, s);
    match (top.command, new.command) {
        (CommandView::Insert { offset: o1, text: t1 }, CommandView::Insert { offset: o2, text: t2 }) => {
            assert(after.subrange(o1 as int, (o1 + (t1 + t2).len()) as int) =~= t1 + t2) by {
                assert forall|k: int| 0 <= k < t1.len() implies after[o1 + k] == t1[k] by {
                    assert(s.subrange(o1 as int, (o1 + t1.len()) as int)[k] == s[o1 + k]);
                }
            }
            assert(revert(both, after) =~= revert(top.command, s));
        },
        (
            CommandView::Delete { offset: o1, length: l1, removed: r1 },
            CommandView::Delete { offset: o2, length: l2, removed: r2 },
        ) => {
            assert(revert(both, after) =~= revert(top.command, s));
        },
        _ => {},
    }
}

/// Dropping the oldest record leaves the rest of the undo stack as good as
/// it was.
pub proof fn law_eviction_keeps_chain(s: Seq<char>, undo: Seq<RecordView>)
    requires
        undo_chain(s, undo),
        undo.len() > 0,
    ensures
        undo_chain(s, undo.drop_first()),
    decreases undo.len(),
{
    if undo.len() > 1 {
        law_eviction_keeps_chain(revert(undo.last().command, s), undo.drop_last());
        assert(undo.drop_first().drop_last() =~= undo.drop_last().drop_first());
        assert(undo.drop_first().last() == undo.last());
    }
}

/// Executing a command keeps the history in agreement with the document.
pub proof fn law_execute_keeps_consistent(s: Seq<char>, h: HistoryView, c: CommandView, timestamp: nat)
    requires
        consistent(s, h),
        applies(c, s),
    ensures
        consistent(
            apply(c, s),
            HistoryView {
                undo: record_step(
                    h.undo,
                    RecordView { command: captured(c, s), timestamp },
                    h.merge_window_ms,
                    h.max_history_size,
                ),
                redo: Seq::empty(),
                ..h
            },
        ),
{
    let new = RecordView { command: captured(c, s), timestamp };
    let after = apply(c, s);
    law_applied_lands(s, c);
    if h.undo.len() > 0 && mergeable(h.undo.last(), new, h.merge_window_ms) {
        let top = h.undo.last();
        law_merged_lands(s, top, c, timestamp, h.merge_window_ms);
        let stack = h.undo.drop_last().push(merged(top, new));
        assert(stack.drop_last() =~= h.undo.drop_last());
        assert(stack.last() == merged(top, new));
    } else {
        let stack = h.undo.push(new);
        assert(stack.drop_last() =~= h.undo);
        assert(stack.last() == new);
        assert(undo_chain(after, stack));
        if h.undo.len() + 1 > h.max_history_size {
            law_eviction_keeps_chain(after, stack);
        }
    }
}

/// Undoing keeps the history in agreement with the document.
pub proof fn law_undo_keeps_consistent(s: Seq<char>, h: HistoryView)
    requires
        consistent(s, h),
        h.undo.len() > 0,
    ensures
        reverts(h.undo.last().command, s),
        consistent(
            revert(h.undo.last().command, s),
            HistoryView { undo: h.undo.drop_last(), redo: h.redo.push(h.undo.last()), ..h },
        ),
{
    let r = h.undo.last();
    law_undo_then_redo(s, r);
    let stack = h.redo.push(r);
    assert(stack.drop_last() =~= h.redo);
    assert(stack.last() == r);
    match r.command {
        CommandView::Insert { offset, text } => {},
        CommandView::Delete { offset, length, removed } => {},
    }
}

/// Redoing keeps the history in agreement with the document.
pub proof fn law_redo_keeps_consistent(s: Seq<char>, h: HistoryView)
    requires
        consistent(s, h),
        h.redo.len() > 0,
    ensures
        applies(h.redo.last().command, s),
        consistent(
            apply(h.redo.last().command, s),
            HistoryView {
                undo: h.undo.push(
                    RecordView {
                        command: captured(h.redo.last().command, s),
                        timestamp: h.redo.last().timestamp,
                    },
                ),
                redo: h.redo.drop_last(),
                ..h
            },
        ),
{
    let r = h.redo.last();
    let again = RecordView { command: captured(r.command, s), timestamp: r.timestamp };
    law_applied_lands(s, r.command);
    let stack = h.undo.push(again);
    assert(stack.drop_last() =~= h.undo);
    assert(stack.last() == again);
}

/// For any executed command, undo and then redo bring the document and the
/// undo stack back to what they were right after the command: in a history
/// that agreed with the document before, and that keeps at least one record.
pub proof fn law_execute_undo_redo(s: Seq<char>, h: HistoryView, c: CommandView, timestamp: nat)
    requires
        consistent(s, h),
        applies(c, s),
        h.max_history_size > 0,
    ensures
        ({
            let after = apply(c, s);
            let stack = record_step(
                h.undo,
                RecordView { command: captured(c, s), timestamp },
                h.merge_window_ms,
                h.max_history_size,
            );
            let undone = revert(stack.last().command, after);
            &&& stack.len() > 0
            &&& reverts(stack.last().command, after)
            &&& applies(stack.last().command, undone)
            &&& apply(stack.last().command, undone) == after
            &&& stack.drop_last().push(
                RecordView {
                    command: captured(stack.last().command, undone),
                    timestamp: stack.last().timestamp,
                },
            ) == stack
        }),
{
    law_execute_keeps_consistent(s, h, c, timestamp);
    let after = apply(c, s);
    let stack = record_step(
        h.undo,
        RecordView { command: captured(c, s), timestamp },
        h.merge_window_ms,
        h.max_history_size,
    );
    law_undo_then_redo(after, stack.last());
    assert(stack.drop_last().push(stack.last()) =~= stack);
}

/// Merge window: two insertions, the second right behind the first, on an
/// empty history that keeps at least two records. If the second comes
/// within the merge window after the first, the undo stack holds one record,
/// and undoing it takes out both texts; if it comes later, the stack holds
/// the two as they were made.
pub proof fn law_merge_window(
    s: Seq<char>,
    offset: nat,
    a: Seq<char>,
    b: Seq<char>,
    t1: nat,
    t2: nat,
    window: nat,
    max: nat,
)
    requires
        offset <= s.len(),
        max >= 2,
    ensures
        ({
            let first = RecordView { command: CommandView::Insert { offset, text: a }, timestamp: t1 };
            let second = RecordView {
                command: CommandView::Insert { offset: offset + a.len(), text: b },
                timestamp: t2,
            };
            let stack = record_step(
                record_step(Seq::empty(), first, window, max),
                second,
                window,
                max,
            );
            let after = apply(second.command, apply(first.command, s));
            if t2 - t1 <= window {
                &&& stack.len() == 1
                &&& stack[0] == (RecordView {
                    command: CommandView::Insert { offset, text: a + b },
                    timestamp: t2,
                })
                &&& revert(stack[0].command, after) == s
            } else {
                stack == seq![first, second]
            }
        }),
{
    let first = RecordView { command: CommandView::Insert { offset, text: a }, timestamp: t1 };
    let second = RecordView {
        command: CommandView::Insert { offset: offset + a.len(), text: b },
        timestamp: t2,
    };
    let one = record_step(Seq::empty(), first, window, max);
    assert(one =~= seq![first]);
    let stack = record_step(one, second, window, max);
    let after = apply(second.command, apply(first.command, s));
    if t2 - t1 <= window {
        assert(mergeable(first, second, window));
        assert(stack =~= seq![merged(first, second)]);
        assert(revert(stack[0].command, after) =~= s);
    } else {
        assert(!mergeable(first, second, window));
        assert(stack =~= seq![first, second]);
    }
}

/// A record that does not merge makes the undo stack one longer, unless the
/// stack is full: of `n` records, `n` no more than the bound, there are then
/// `n + 1` or as many as the bound allows, whichever is less; the new record
/// is on top, and the records under it are the most recent of those before.
pub proof fn law_push_bound(undo: Seq<RecordView>, new: RecordView, window: nat, max: nat)
    requires
        undo.len() <= max,
        undo.len() > 0 ==> !mergeable(undo.last(), new, window),
    ensures
        ({
            let stack = record_step(undo, new, window, max);
            &&& stack.len() == if undo.len() + 1 <= max {
                undo.len() + 1
            } else {
                max
            }
            &&& stack.len() > 0 ==> stack.last() == new
            &&& stack.len() > 0 ==> stack.drop_last() == if undo.len() + 1 <= max {
                undo
            } else {
                undo.drop_first()
            }
        }),
{
    let stack = record_step(undo, new, window, max);
    if undo.len() + 1 <= max {
        assert(stack.drop_last() =~= undo);
    } else if stack.len() > 0 {
        assert(stack.drop_last() =~= undo.drop_first());
    }
}

/// An insertion on an insertion: where the new text goes right behind the
/// text of the top record, no later than the merge window after it, the
/// stack keeps its length and its top becomes the insertion of both texts,
/// stamped anew; in every other case the new record does not merge.
pub proof fn law_insert_merges(
    undo: Seq<RecordView>,
    offset: nat,
    text: Seq<char>,
    timestamp: nat,
    window: nat,
    max: nat,
)
    requires
        undo.len() > 0,
        undo.last().command is Insert,
    ensures
        ({
            let top = undo.last();
            let new = RecordView { command: CommandView::Insert { offset, text }, timestamp };
            let stack = record_step(undo, new, window, max);
            let joins = offset == top.command->Insert_offset + top.command->Insert_text.len()
                && timestamp - top.timestamp <= window;
            &&& joins == mergeable(top, new, window)
            &&& joins ==> stack.len() == undo.len() && stack.drop_last() == undo.drop_last()
                && stack.last() == (RecordView {
                command: CommandView::Insert {
                    offset: top.command->Insert_offset,
                    text: top.command->Insert_text + text,
                },
                timestamp,
            })
        }),
{
    let top = undo.last();
    let new = RecordView { command: CommandView::Insert { offset, text }, timestamp };
    let stack = record_step(undo, new, window, max);
    if mergeable(top, new, window) {
        assert(stack.drop_last() =~= undo.drop_last());
    }
}

/// The undo stack after the records of `run` took effect one after the other
/// on stack `undo`.
pub open spec fn record_run(undo: Seq<RecordView>, run: Seq<RecordView>, window: nat, max: nat) -> Seq<
    RecordView,
>
    decreases run.len(),
{
    if run.len() == 0 {
        undo
    } else {
        record_step(record_run(undo, run.drop_last(), window, max), run.last(), window, max)
    }
}

/// No record of `run` continues the one before it.
pub open spec fn never_merging(run: Seq<RecordView>, window: nat) -> bool {
    forall|i: int| 0 < i < run.len() ==> !mergeable(#[trigger] run[i - 1], run[i], window)
}

/// The undo stack holds the most recent records, `max` of them at most: a
/// run of records none of which merges, on an empty stack, leaves the last
/// `max` of the run, oldest first.
pub proof fn law_history_window(run: Seq<RecordView>, window: nat, max: nat)
    requires
        never_merging(run, window),
    ensures
        record_run(Seq::empty(), run, window, max) == run.subrange(
            if run.len() > max {
                run.len() - max
            } else {
                0
            },
            run.len() as int,
        ),
    decreases run.len(),
{
    let from = if run.len() > max { run.len() - max } else { 0 };
    if run.len() == 0 {
        assert(run.subrange(0, 0) =~= Seq::<RecordView>::empty());
    } else {
        let front = run.drop_last();
        assert forall|i: int| 0 < i < front.len() implies !mergeable(
            #[trigger] front[i - 1],
            front[i],
            window,
        ) by {
            assert(front[i - 1] == run[i - 1]);
        }
        law_history_window(front, window, max);
        let before = record_run(Seq::empty(), front, window, max);
        let start = if front.len() > max { front.len() - max } else { 0 };
        assert(before == front.subrange(start, front.len() as int));
        if before.len() > 0 {
            assert(before.last() == run[run.len() - 2]);
            assert(!mergeable(run[run.len() - 1 - 1], run[run.len() - 1], window));
        }
        assert(record_step(before, run.last(), window, max) =~= run.subrange(
            from,
            run.len() as int,
        ));
    }
}

/// History bound: after `max + k` records none of which merges, the undo
/// stack holds exactly `max` records and the oldest of them is record number
/// `k + 1` of the run.
pub proof fn law_history_bound(run: Seq<RecordView>, window: nat, max: nat, k: nat)
    requires
        never_merging(run, window),
        run.len() == max + k,
    ensures
        record_run(Seq::empty(), run, window, max).len() == max,
        max > 0 ==> record_run(Seq::empty(), run, window, max)[0] == run[k as int],
{
    law_history_window(run, window, max);
}

} // verus!
