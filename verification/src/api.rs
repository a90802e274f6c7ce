//! The calls a host application makes on a session. An edit that takes
//! effect hands back the whole text as it then stands; one that is turned
//! down leaves the session as it was and hands back why.

use crate::error::CommandError;
use crate::piece_tree::{
    segments_formats, segments_text, Piece, TextAttributes, TextSegment,
};
use crate::session::Session;
use crate::text::{line_count, line_text, splice_in, text_range, uniform, MAX_TEXT_LEN};
use crate::undo_redo::{CommandView, HistoryView, RecordView};
use vstd::prelude::*;

verus! {

/// The greeting.
pub fn hello_velum() -> (s: String)
    ensures
        s@ == "Hello from Velum Core (Rust)!"@,
{
    "Hello from Velum Core (Rust)!".to_owned()
}

/// Product of two integers that fits the result type.
pub fn multiply(a: i32, b: i32) -> (r: i32)
    requires
        i32::MIN <= a * b <= i32::MAX,
    ensures
        r == a * b,
{
    a * b
}

/// The text the sample document starts from.
pub open spec fn sample_base() -> Seq<char> {
    "Welcome to Velum."@
}

/// The text inserted into the sample document.
pub open spec fn sample_addition() -> Seq<char> {
    " This is Microsoft Word 1:1 replica project."@
}

/// Turns the session into the sample document: the welcome text, loaded
/// afresh with an empty history, and one recorded insertion before its full
/// stop, made at `timestamp`. The session keeps its limits.
pub fn get_sample_document(session: &mut Session, timestamp: u64) -> (s: String)
    ensures
        s@ == splice_in(sample_base(), 16, sample_addition()),
        final(session)@ == s@,
        final(session).formats() == uniform(s@.len(), None::<TextAttributes>),
        final(session).is_consistent(),
        final(session).history() == (HistoryView {
            undo: if old(session).history().max_history_size > 0 {
                seq![
                    RecordView {
                        command: CommandView::Insert { offset: 16, text: sample_addition() },
                        timestamp: timestamp as nat,
                    },
                ]
            } else {
                Seq::empty()
            },
            redo: Seq::empty(),
            ..old(session).history()
        }),
{
    proof {
        reveal_strlit("Welcome to Velum.");
        reveal_strlit(" This is Microsoft Word 1:1 replica project.");
    }
    let max_history_size = session.manager().max_history_size();
    let merge_window_ms = session.manager().merge_window_ms();
    *session = Session::with_limits(max_history_size, merge_window_ms);
    let mut segments: Vec<TextSegment> = Vec::new();
    segments.push(TextSegment { text: "Welcome to Velum.".to_owned(), attributes: None });
    proof {
        let only = segments@;
        assert(only.drop_last() =~= Seq::<TextSegment>::empty());
        assert(segments_text(only.drop_last()) =~= Seq::<char>::empty());
        assert(segments_text(only) =~= sample_base());
        assert(segments_formats(only.drop_last()) =~= Seq::empty());
        assert(segments_formats(only) =~= uniform(
            sample_base().len(),
            None::<TextAttributes>,
        ));
    }
    let loaded = session.load(&segments);
    assert(loaded is Ok);
    let inserted = session.insert(
        16,
        " This is Microsoft Word 1:1 replica project.".to_owned(),
        timestamp,
    );
    assert(inserted is Ok);
    proof {
        assert(session.formats() =~= uniform(session@.len(), None::<TextAttributes>));
        let stack = session.history().undo;
        if max_history_size > 0 {
            assert(stack =~= seq![
                RecordView {
                    command: CommandView::Insert { offset: 16, text: sample_addition() },
                    timestamp: timestamp as nat,
                },
            ]);
        } else {
            assert(stack =~= Seq::empty());
        }
    }
    session.get_text()
}

/// Empties the session: no text, no history. The session keeps its limits.
pub fn create_empty_document(session: &mut Session) -> (s: String)
    ensures
        s@ == Seq::<char>::empty(),
        final(session)@ == Seq::<char>::empty(),
        final(session).formats() == Seq::<Option<TextAttributes>>::empty(),
        final(session).text_store().pieces() == Seq::<Piece>::empty(),
        final(session).text_store().original_buffer() == Seq::<char>::empty(),
        final(session).text_store().added_buffer() == Seq::<char>::empty(),
        final(session).history() == (HistoryView {
            undo: Seq::empty(),
            redo: Seq::empty(),
            ..old(session).history()
        }),
        final(session).is_consistent(),
{
    let max_history_size = session.manager().max_history_size();
    let merge_window_ms = session.manager().merge_window_ms();
    *session = Session::with_limits(max_history_size, merge_window_ms);
    session.get_text()
}

/// Inserts `new_text` before `offset`, recording the edit as made at
/// `timestamp`, and returns the text as it then stands.
///
/// Fails with `OutOfRange`, and changes nothing, when `offset` lies past the
/// end of the document or the document would grow past `MAX_TEXT_LEN`.
pub fn insert_text(session: &mut Session, offset: usize, new_text: String, timestamp: u64) -> (r:
    Result<String, CommandError>)
    ensures
        r is Ok <==> offset <= old(session)@.len() && old(session)@.len() + new_text@.len()
            <= MAX_TEXT_LEN,
        r is Ok ==> r->Ok_0@ == final(session)@ && old(session).executes_to(
            final(session),
            CommandView::Insert { offset: offset as nat, text: new_text@ },
            timestamp as nat,
        ),
        r is Err ==> r == Err::<String, CommandError>(CommandError::OutOfRange) && old(session).same_as(final(session)),
        old(session).is_consistent() ==> final(session).is_consistent(),
{
    match session.insert(offset, new_text, timestamp) {
        Ok(_) => Ok(session.get_text()),
        Err(e) => Err(e),
    }
}

/// Deletes `length` characters from `offset` on, recording the edit as made
/// at `timestamp`, and returns the text as it then stands.
///
/// Fails with `OutOfRange`, and changes nothing, when the range reaches past
/// the end of the document; the range is never cut to fit.
pub fn delete_text(session: &mut Session, offset: usize, length: usize, timestamp: u64) -> (r:
    Result<String, CommandError>)
    ensures
        r is Ok <==> offset + length <= old(session)@.len(),
        r is Ok ==> r->Ok_0@ == final(session)@ && old(session).executes_to(
            final(session),
            CommandView::Delete {
                offset: offset as nat,
                length: length as nat,
                removed: Seq::empty(),
            },
            timestamp as nat,
        ),
        r is Err ==> r == Err::<String, CommandError>(CommandError::OutOfRange) && old(session).same_as(final(session)),
        old(session).is_consistent() ==> final(session).is_consistent(),
{
    match session.delete(offset, length, timestamp) {
        Ok(_) => Ok(session.get_text()),
        Err(e) => Err(e),
    }
}

/// The text in `[offset, offset + length)`, cut at the end of the document.
pub fn get_text_range(session: &Session, offset: usize, length: usize) -> (s: String)
    ensures
        s@ == text_range(session@, offset as int, length as int),
{
    session.get_text_range(offset, length)
}

/// Number of lines of the document.
pub fn get_line_count(session: &Session) -> (n: usize)
    ensures
        n == line_count(session@),
{
    session.get_line_count()
}

/// Line `line_number`, counted from zero, without its terminator; `None`
/// from the line count on.
pub fn get_line_content(session: &Session, line_number: usize) -> (r: Option<String>)
    ensures
        line_number < line_count(session@) ==> r is Some && r->0@ == line_text(
            session@,
            line_number as int,
        ),
        line_number >= line_count(session@) ==> r is None,
{
    session.get_line(line_number)
}

/// The whole text of the document.
pub fn get_full_text(session: &Session) -> (s: String)
    ensures
        s@ == session@,
{
    session.get_text()
}

/// Takes back the most recent record and returns the text as it then
/// stands.
///
/// Fails with `EmptyHistory` when there is nothing to undo, and with
/// `ApplyFailed` when the record no longer fits the document, which cannot
/// happen while the history agrees with the document; in both cases nothing
/// changes.
pub fn undo(session: &mut Session) -> (r: Result<String, CommandError>)
    ensures
        old(session).history().undo.len() == 0 ==> r == Err::<String, CommandError>(
            CommandError::EmptyHistory,
        ),
        old(session).history().undo.len() > 0 && !old(session).can_undo() ==> r == Err::<
            String,
            CommandError,
        >(CommandError::ApplyFailed),
        old(session).can_undo() ==> r is Ok,
        old(session).history().undo.len() > 0 && old(session).is_consistent() ==> r is Ok,
        r is Ok ==> r->Ok_0@ == final(session)@ && old(session).undoes_to(final(session)),
        r is Err ==> old(session).same_as(final(session)),
        old(session).is_consistent() ==> final(session).is_consistent(),
{
    match session.undo() {
        Ok(_) => Ok(session.get_text()),
        Err(e) => Err(e),
    }
}

/// Brings back the record undone last and returns the text as it then
/// stands.
///
/// Fails with `EmptyHistory` when there is nothing to redo, and with
/// `ApplyFailed` when the record no longer fits the document, which cannot
/// happen while the history agrees with the document; in both cases nothing
/// changes.
pub fn redo(session: &mut Session) -> (r: Result<String, CommandError>)
    ensures
        old(session).history().redo.len() == 0 ==> r == Err::<String, CommandError>(
            CommandError::EmptyHistory,
        ),
        old(session).history().redo.len() > 0 && !old(session).can_redo() ==> r == Err::<
            String,
            CommandError,
        >(CommandError::ApplyFailed),
        old(session).can_redo() ==> r is Ok,
        old(session).history().redo.len() > 0 && old(session).is_consistent() ==> r is Ok,
        r is Ok ==> r->Ok_0@ == final(session)@ && old(session).redoes_to(final(session)),
        r is Err ==> old(session).same_as(final(session)),
        old(session).is_consistent() ==> final(session).is_consistent(),
{
    match session.redo() {
        Ok(_) => Ok(session.get_text()),
        Err(e) => Err(e),
    }
}

} // verus!
