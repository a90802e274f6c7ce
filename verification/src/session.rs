//! An editing session: one text store with the history of its edits. Any
//! number of sessions can exist side by side.

use crate::error::CommandError;
use crate::history_laws::{
    consistent, law_execute_keeps_consistent, law_redo_keeps_consistent,
    law_undo_keeps_consistent, law_undo_then_redo,
};
use crate::piece_tree::{segments_text, Piece, PieceTree, TextAttributes, TextSegment};
use crate::text::{line_count, line_text, text_range, MAX_TEXT_LEN};
use crate::undo_redo::{
    applies, apply, apply_formats, captured, record_step, revert, revert_formats, reverts,
    store_applies, store_reverts, Command, CommandView, HistoryView, RecordView,
    UndoRedoManager, DEFAULT_MAX_HISTORY_SIZE, DEFAULT_MERGE_WINDOW_MS,
};
use vstd::prelude::*;

verus! {

/// A document being edited.
pub struct Session {
    store: PieceTree,
    history: UndoRedoManager,
}

impl View for Session {
    type V = Seq<char>;

    /// The document text.
    open spec fn view(&self) -> Seq<char> {
        self.text_store()@
    }
}

impl Session {
    /// The text store of the session.
    pub closed spec fn text_store(&self) -> PieceTree {
        self.store
    }

    /// The formatting of each character of the document.
    pub open spec fn formats(&self) -> Seq<Option<TextAttributes>> {
        self.text_store().formats()
    }

    /// The two stacks and their limits.
    pub closed spec fn history(&self) -> HistoryView {
        self.history@
    }

    /// The history agrees with the document.
    pub open spec fn is_consistent(&self) -> bool {
        consistent(self@, self.history())
    }

    /// Nothing differs between this session and `post`.
    pub open spec fn same_as(&self, post: &Session) -> bool {
        &&& post.text_store() == self.text_store()
        &&& post.history() == self.history()
    }

    /// `post` is this session after `c` took effect at time `timestamp`: the
    /// text and its formatting are edited, the command as captured is merged
    /// into the undo stack or pushed onto it, and the redo stack is empty.
    pub open spec fn executes_to(&self, post: &Session, c: CommandView, timestamp: nat) -> bool {
        &&& post@ == apply(c, self@)
        &&& post.formats() == apply_formats(c, self.formats())
        &&& store_applies(c, &self.text_store(), &post.text_store())
        &&& post.history() == (HistoryView {
            undo: record_step(
                self.history().undo,
                RecordView { command: captured(c, self@), timestamp },
                self.history().merge_window_ms,
                self.history().max_history_size,
            ),
            redo: Seq::empty(),
            ..self.history()
        })
    }

    /// `post` is this session after its most recent record was taken back
    /// and moved to the redo stack.
    pub open spec fn undoes_to(&self, post: &Session) -> bool {
        &&& post@ == revert(self.history().undo.last().command, self@)
        &&& post.formats() == revert_formats(self.history().undo.last().command, self.formats())
        &&& store_reverts(
            self.history().undo.last().command,
            &self.text_store(),
            &post.text_store(),
        )
        &&& post.history() == (HistoryView {
            undo: self.history().undo.drop_last(),
            redo: self.history().redo.push(self.history().undo.last()),
            ..self.history()
        })
    }

    /// `post` is this session after the record undone last was applied again
    /// and moved back to the undo stack.
    pub open spec fn redoes_to(&self, post: &Session) -> bool {
        &&& post@ == apply(self.history().redo.last().command, self@)
        &&& post.formats() == apply_formats(self.history().redo.last().command, self.formats())
        &&& store_applies(
            self.history().redo.last().command,
            &self.text_store(),
            &post.text_store(),
        )
        &&& post.history() == (HistoryView {
            undo: self.history().undo.push(
                RecordView {
                    command: captured(self.history().redo.last().command, self@),
                    timestamp: self.history().redo.last().timestamp,
                },
            ),
            redo: self.history().redo.drop_last(),
            ..self.history()
        })
    }

    /// Whether there is a record to undo and the document takes its inverse.
    pub open spec fn can_undo(&self) -> bool {
        self.history().undo.len() > 0 && reverts(self.history().undo.last().command, self@)
    }

    /// Whether there is a record to redo and the document takes it.
    pub open spec fn can_redo(&self) -> bool {
        self.history().redo.len() > 0 && applies(self.history().redo.last().command, self@)
    }

    /// A session with an empty document, an empty history and the default
    /// limits.
    pub fn new() -> (r: Self)
        ensures
            r@ == Seq::<char>::empty(),
            r.formats() == Seq::<Option<TextAttributes>>::empty(),
            r.text_store().pieces() == Seq::<Piece>::empty(),
            r.text_store().original_buffer() == Seq::<char>::empty(),
            r.text_store().added_buffer() == Seq::<char>::empty(),
            r.history() == (HistoryView {
                undo: Seq::empty(),
                redo: Seq::empty(),
                max_history_size: DEFAULT_MAX_HISTORY_SIZE as nat,
                merge_window_ms: DEFAULT_MERGE_WINDOW_MS as nat,
            }),
            r.is_consistent(),
    {
        Session { store: PieceTree::empty(), history: UndoRedoManager::new() }
    }

    /// A session with an empty document and an empty history that keeps at
    /// most `max_history_size` records and merges within `merge_window_ms`
    /// milliseconds.
    pub fn with_limits(max_history_size: usize, merge_window_ms: u64) -> (r: Self)
        ensures
            r@ == Seq::<char>::empty(),
            r.formats() == Seq::<Option<TextAttributes>>::empty(),
            r.text_store().pieces() == Seq::<Piece>::empty(),
            r.text_store().original_buffer() == Seq::<char>::empty(),
            r.text_store().added_buffer() == Seq::<char>::empty(),
            r.history() == (HistoryView {
                undo: Seq::empty(),
                redo: Seq::empty(),
                max_history_size: max_history_size as nat,
                merge_window_ms: merge_window_ms as nat,
            }),
            r.is_consistent(),
    {
        Session {
            store: PieceTree::empty(),
            history: UndoRedoManager::with_limits(max_history_size, merge_window_ms),
        }
    }

    /// The text store, to read from.
    pub fn store(&self) -> (s: &PieceTree)
        ensures
            *s == self.text_store(),
            s.well_formed(),
    {
        self.store.note_well_formed();
        &self.store
    }

    /// The history, to read from.
    pub fn manager(&self) -> (m: &UndoRedoManager)
        ensures
            m@ == self.history(),
    {
        &self.history
    }

    /// Replaces the document by the given segments. The history is left as it
    /// is, so it may no longer agree with the document.
    ///
    /// Fails, and changes nothing, when the segments together are longer
    /// than `MAX_TEXT_LEN`.
    pub fn load(&mut self, segments: &Vec<TextSegment>) -> (r: Result<(), CommandError>)
        ensures
            r is Ok <==> segments_text(segments@).len() <= MAX_TEXT_LEN,
            r is Ok ==> final(self).text_store().is_loaded_from(segments@),
            r is Err ==> r == Err::<(), CommandError>(CommandError::OutOfRange) && old(self).same_as(final(self)),
            final(self).history() == old(self).history(),
    {
        self.store.load(segments)
    }

    /// Applies `command` and records it as having taken effect at
    /// `timestamp`, a time in milliseconds.
    ///
    /// Fails with `ApplyFailed`, and changes nothing, when the command does
    /// not fit the document.
    pub fn execute(&mut self, command: Command, timestamp: u64) -> (r: Result<(), CommandError>)
        ensures
            r is Ok <==> applies(command@, old(self)@),
            r is Ok ==> old(self).executes_to(final(self), command@, timestamp as nat),
            r is Err ==> r == Err::<(), CommandError>(CommandError::ApplyFailed) && old(self).same_as(final(self)),
            old(self).is_consistent() ==> final(self).is_consistent(),
    {
        let ghost view = command@;
        let r = self.history.execute(&mut self.store, command, timestamp);
        proof {
            if old(self).is_consistent() && r is Ok {
                law_execute_keeps_consistent(
                    old(self)@,
                    old(self).history(),
                    view,
                    timestamp as nat,
                );
            }
        }
        r
    }

    /// Inserts `text` before position `offset` and records the edit as made
    /// at `timestamp`.
    ///
    /// Fails with `OutOfRange`, and changes nothing, when `offset` lies past
    /// the end of the document or the document would grow past
    /// `MAX_TEXT_LEN`.
    pub fn insert(&mut self, offset: usize, text: String, timestamp: u64) -> (r: Result<
        (),
        CommandError,
    >)
        ensures
            r is Ok <==> offset <= old(self)@.len() && old(self)@.len() + text@.len()
                <= MAX_TEXT_LEN,
            r is Ok ==> old(self).executes_to(
                final(self),
                CommandView::Insert { offset: offset as nat, text: text@ },
                timestamp as nat,
            ),
            r is Err ==> r == Err::<(), CommandError>(CommandError::OutOfRange) && old(self).same_as(final(self)),
            old(self).is_consistent() ==> final(self).is_consistent(),
    {
        match self.execute(Command::insert(offset, text), timestamp) {
            Ok(_) => Ok(()),
            Err(_) => Err(CommandError::OutOfRange),
        }
    }

    /// Deletes the `length` characters from position `offset` on and records
    /// the edit as made at `timestamp`.
    ///
    /// Fails with `OutOfRange`, and changes nothing, when the range reaches
    /// past the end of the document.
    pub fn delete(&mut self, offset: usize, length: usize, timestamp: u64) -> (r: Result<
        (),
        CommandError,
    >)
        ensures
            r is Ok <==> offset + length <= old(self)@.len(),
            r is Ok ==> old(self).executes_to(
                final(self),
                CommandView::Delete {
                    offset: offset as nat,
                    length: length as nat,
                    removed: Seq::empty(),
                },
                timestamp as nat,
            ),
            r is Err ==> r == Err::<(), CommandError>(CommandError::OutOfRange) && old(self).same_as(final(self)),
            old(self).is_consistent() ==> final(self).is_consistent(),
    {
        match self.execute(Command::delete(offset, length), timestamp) {
            Ok(_) => Ok(()),
            Err(_) => Err(CommandError::OutOfRange),
        }
    }

    /// Takes back the most recent record.
    ///
    /// Fails with `EmptyHistory` when there is nothing to undo, and with
    /// `ApplyFailed` when the record no longer fits the document, which
    /// cannot happen while the history agrees with the document; in both
    /// cases nothing changes.
    pub fn undo(&mut self) -> (r: Result<(), CommandError>)
        ensures
            r == if old(self).history().undo.len() == 0 {
                Err::<(), CommandError>(CommandError::EmptyHistory)
            } else if old(self).can_undo() {
                Ok::<(), CommandError>(())
            } else {
                Err::<(), CommandError>(CommandError::ApplyFailed)
            },
            old(self).history().undo.len() > 0 && old(self).is_consistent() ==> r is Ok,
            r is Ok ==> old(self).undoes_to(final(self)),
            r is Err ==> old(self).same_as(final(self)),
            old(self).is_consistent() ==> final(self).is_consistent(),
    {
        proof {
            if old(self).is_consistent() && old(self).history().undo.len() > 0 {
                law_undo_keeps_consistent(old(self)@, old(self).history());
            }
        }
        self.history.undo(&mut self.store)
    }

    /// Brings back the record undone last.
    ///
    /// Fails with `EmptyHistory` when there is nothing to redo, and with
    /// `ApplyFailed` when the record no longer fits the document, which
    /// cannot happen while the history agrees with the document; in both
    /// cases nothing changes.
    pub fn redo(&mut self) -> (r: Result<(), CommandError>)
        ensures
            r == if old(self).history().redo.len() == 0 {
                Err::<(), CommandError>(CommandError::EmptyHistory)
            } else if old(self).can_redo() {
                Ok::<(), CommandError>(())
            } else {
                Err::<(), CommandError>(CommandError::ApplyFailed)
            },
            old(self).history().redo.len() > 0 && old(self).is_consistent() ==> r is Ok,
            r is Ok ==> old(self).redoes_to(final(self)),
            r is Err ==> old(self).same_as(final(self)),
            old(self).is_consistent() ==> final(self).is_consistent(),
    {
        proof {
            if old(self).is_consistent() && old(self).history().redo.len() > 0 {
                law_redo_keeps_consistent(old(self)@, old(self).history());
            }
        }
        self.history.redo(&mut self.store)
    }

    /// Number of characters in the document.
    pub fn len(&self) -> (n: usize)
        ensures
            n == self@.len(),
            n <= MAX_TEXT_LEN,
    {
        self.store.len()
    }

    /// The whole text.
    pub fn get_text(&self) -> (s: String)
        ensures
            s@ == self@,
    {
        self.store.get_text()
    }

    /// The text in `[offset, offset + length)`, cut at the end of the
    /// document.
    pub fn get_text_range(&self, offset: usize, length: usize) -> (s: String)
        ensures
            s@ == text_range(self@, offset as int, length as int),
    {
        self.store.get_text_range(offset, length)
    }

    /// Number of lines.
    pub fn get_line_count(&self) -> (n: usize)
        ensures
            n == line_count(self@),
    {
        self.store.get_line_count()
    }

    /// Line `line_number`, counted from zero, without its terminator.
    pub fn get_line(&self, line_number: usize) -> (r: Option<String>)
        ensures
            line_number < line_count(self@) ==> r is Some && r->0@ == line_text(
                self@,
                line_number as int,
            ),
            line_number >= line_count(self@) ==> r is None,
    {
        self.store.get_line(line_number)
    }
}

/// Undo followed by redo changes nothing: in a session whose history agrees
/// with its document and has a record to undo, the undo succeeds, the redo
/// after it succeeds, and the text and both stacks are then what they were.
pub proof fn law_session_undo_redo(start: Session, undone: Session, redone: Session)
    requires
        start.is_consistent(),
        start.history().undo.len() > 0,
        start.undoes_to(&undone),
        undone.redoes_to(&redone),
    ensures
        start.can_undo(),
        undone.can_redo(),
        redone@ == start@,
        redone.history() == start.history(),
{
    let top = start.history().undo.last();
    law_undo_then_redo(start@, top);
    assert(undone.history().redo.last() == top);
    assert(redone.history().undo =~= start.history().undo);
    assert(redone.history().redo =~= start.history().redo);
}

/// After any command that took effect, undo followed by redo gives back the
/// session as the command left it: in a session whose history agreed with
/// its document before the command and keeps at least one record.
pub proof fn law_session_execute_undo_redo(
    before: Session,
    after: Session,
    undone: Session,
    redone: Session,
    c: CommandView,
    timestamp: nat,
)
    requires
        before.is_consistent(),
        before.history().max_history_size > 0,
        applies(c, before@),
        before.executes_to(&after, c, timestamp),
        after.undoes_to(&undone),
        undone.redoes_to(&redone),
    ensures
        after.can_undo(),
        undone.can_redo(),
        redone@ == after@,
        redone.history() == after.history(),
{
    law_execute_keeps_consistent(before@, before.history(), c, timestamp);
    law_session_undo_redo(after, undone, redone);
}

} // verus!
