//! The history manager: every edit of the text store goes through an
//! invertible command, and the commands that took effect are kept on two
//! bounded stacks, one to undo and one to redo.
//!
//! A burst of edits of one kind that continue each other within the merge
//! window is kept as a single record, so that one undo takes back the burst.
//! Time is handed in by the caller with each edit; nothing here reads a clock.

use crate::error::CommandError;
use crate::piece_tree::{PieceTree, TextAttributes};
use crate::text::{splice_in, splice_out, uniform, MAX_TEXT_LEN};
use vstd::prelude::*;
use vstd::string::StringExecFns;
use vstd::string::StrSliceExecFns;

verus! {

/// Number of records the undo stack keeps unless told otherwise.
pub const DEFAULT_MAX_HISTORY_SIZE: usize = 100;

/// Milliseconds within which edits that continue each other are merged,
/// unless told otherwise.
pub const DEFAULT_MERGE_WINDOW_MS: u64 = 500;

/// The two kinds of edit.
#[derive(Clone, Copy, Debug, PartialEq, Eq, Structural)]
pub enum OperationType {
    Insert,
    Delete,
}

/// Insertion of `text` before position `offset`.
#[derive(Debug, PartialEq, Eq)]
pub struct InsertCommand {
    pub offset: usize,
    pub text: String,
}

/// Deletion of `length` characters from position `offset` on. The characters
/// taken out are noted in `removed_text` when the command is applied; what
/// the field holds before that is ignored.
#[derive(Debug, PartialEq, Eq)]
pub struct DeleteCommand {
    pub offset: usize,
    pub length: usize,
    pub removed_text: String,
}

/// One logical edit.
#[derive(Debug, PartialEq, Eq)]
pub enum Command {
    Insert(InsertCommand),
    Delete(DeleteCommand),
}

/// When a command took effect, and of which kind it is.
#[derive(Clone, Copy, Debug, PartialEq, Eq, Structural)]
pub struct CommandMetadata {
    pub timestamp: u64,
    pub operation_type: OperationType,
}

/// A command that took effect: the unit the history stores.
#[derive(Debug, PartialEq, Eq)]
pub struct CommandRecord {
    pub command: Command,
    pub metadata: CommandMetadata,
}

/// A command as contracts see it.
pub enum CommandView {
    Insert { offset: nat, text: Seq<char> },
    Delete { offset: nat, length: nat, removed: Seq<char> },
}

/// A record as contracts see it.
pub struct RecordView {
    pub command: CommandView,
    pub timestamp: nat,
}

/// The history as contracts see it. Both stacks have their oldest record
/// first.
pub struct HistoryView {
    pub undo: Seq<RecordView>,
    pub redo: Seq<RecordView>,
    pub max_history_size: nat,
    pub merge_window_ms: nat,
}

impl View for Command {
    type V = CommandView;

    open spec fn view(&self) -> CommandView {
        match *self {
            Command::Insert(c) => CommandView::Insert { offset: c.offset as nat, text: c.text@ },
            Command::Delete(c) => CommandView::Delete {
                offset: c.offset as nat,
                length: c.length as nat,
                removed: c.removed_text@,
            },
        }
    }
}

impl View for CommandRecord {
    type V = RecordView;

    open spec fn view(&self) -> RecordView {
        RecordView { command: self.command@, timestamp: self.metadata.timestamp as nat }
    }
}

/// The kind of a command.
pub open spec fn operation_of(c: CommandView) -> OperationType {
    match c {
        CommandView::Insert { .. } => OperationType::Insert,
        CommandView::Delete { .. } => OperationType::Delete,
    }
}

/// Whether the text store takes the command on text `s`.
pub open spec fn applies(c: CommandView, s: Seq<char>) -> bool {
    match c {
        CommandView::Insert { offset, text } => offset <= s.len() && s.len() + text.len()
            <= MAX_TEXT_LEN,
        CommandView::Delete { offset, length, .. } => offset + length <= s.len(),
    }
}

/// The text after the command.
pub open spec fn apply(c: CommandView, s: Seq<char>) -> Seq<char> {
    match c {
        CommandView::Insert { offset, text } => splice_in(s, offset as int, text),
        CommandView::Delete { offset, length, .. } => splice_out(s, offset as int, length as int),
    }
}

/// The formatting after the command: inserted text is unformatted.
pub open spec fn apply_formats(c: CommandView, f: Seq<Option<TextAttributes>>) -> Seq<
    Option<TextAttributes>,
> {
    match c {
        CommandView::Insert { offset, text } => splice_in(
            f,
            offset as int,
            uniform(text.len(), None::<TextAttributes>),
        ),
        CommandView::Delete { offset, length, .. } => splice_out(f, offset as int, length as int),
    }
}

/// The command as it is recorded when applied to `s`: a deletion notes the
/// text it takes out.
pub open spec fn captured(c: CommandView, s: Seq<char>) -> CommandView {
    match c {
        CommandView::Insert { .. } => c,
        CommandView::Delete { offset, length, .. } => CommandView::Delete {
            offset,
            length,
            removed: s.subrange(offset as int, (offset + length) as int),
        },
    }
}

/// Whether the text store takes the inverse of the command on text `s`.
pub open spec fn reverts(c: CommandView, s: Seq<char>) -> bool {
    match c {
        CommandView::Insert { offset, text } => offset + text.len() <= s.len(),
        CommandView::Delete { offset, removed, .. } => offset <= s.len() && s.len() + removed.len()
            <= MAX_TEXT_LEN,
    }
}

/// The text after the inverse of the command: an insertion is cut out again,
/// a deletion's removed text is put back where it was.
pub open spec fn revert(c: CommandView, s: Seq<char>) -> Seq<char> {
    match c {
        CommandView::Insert { offset, text } => splice_out(s, offset as int, text.len() as int),
        CommandView::Delete { offset, removed, .. } => splice_in(s, offset as int, removed),
    }
}

/// The formatting after the inverse of the command: text put back is
/// unformatted.
pub open spec fn revert_formats(c: CommandView, f: Seq<Option<TextAttributes>>) -> Seq<
    Option<TextAttributes>,
> {
    match c {
        CommandView::Insert { offset, text } => splice_out(f, offset as int, text.len() as int),
        CommandView::Delete { offset, removed, .. } => splice_in(
            f,
            offset as int,
            uniform(removed.len(), None::<TextAttributes>),
        ),
    }
}

/// How the command changes the pieces of the store it is applied to.
pub open spec fn store_applies(c: CommandView, pre: &PieceTree, post: &PieceTree) -> bool {
    match c {
        CommandView::Insert { offset, text } => pre.inserts_to(post, offset as int, text, None),
        CommandView::Delete { offset, length, .. } => pre.deletes_to(
            post,
            offset as int,
            length as int,
        ),
    }
}

/// How the inverse of the command changes the pieces of the store it is
/// applied to.
pub open spec fn store_reverts(c: CommandView, pre: &PieceTree, post: &PieceTree) -> bool {
    match c {
        CommandView::Insert { offset, text } => pre.deletes_to(
            post,
            offset as int,
            text.len() as int,
        ),
        CommandView::Delete { offset, removed, .. } => pre.inserts_to(
            post,
            offset as int,
            removed,
            None,
        ),
    }
}

/// A recorded deletion removed as many characters as it says.
pub open spec fn record_valid(r: RecordView) -> bool {
    match r.command {
        CommandView::Insert { .. } => true,
        CommandView::Delete { length, removed, .. } => removed.len() == length,
    }
}

/// Whether `new` continues `top` closely enough to be merged into it: both
/// are of one kind, `new` came no later than the merge window after `top`,
/// and `new` starts where `top` left off. For insertions that is the end of
/// the inserted text; for deletions it is the start of the earlier deletion,
/// reached from behind (backspace) or held (forward delete).
pub open spec fn mergeable(top: RecordView, new: RecordView, window: nat) -> bool {
    &&& new.timestamp - top.timestamp <= window
    &&& match (top.command, new.command) {
        (CommandView::Insert { offset: o1, text: t1 }, CommandView::Insert { offset: o2, .. }) => o2
            == o1 + t1.len(),
        (
            CommandView::Delete { offset: o1, .. },
            CommandView::Delete { offset: o2, length: l2, .. },
        ) => o2 + l2 == o1 || o2 == o1,
        _ => false,
    }
}

/// The record that stands for `top` followed by `new`; it carries the time of
/// `new`.
pub open spec fn merged(top: RecordView, new: RecordView) -> RecordView {
    RecordView {
        timestamp: new.timestamp,
        command: match (top.command, new.command) {
            (
                CommandView::Insert { offset: o1, text: t1 },
                CommandView::Insert { text: t2, .. },
            ) => CommandView::Insert { offset: o1, text: t1 + t2 },
            (
                CommandView::Delete { offset: o1, length: l1, removed: r1 },
                CommandView::Delete { offset: o2, length: l2, removed: r2 },
            ) => if o2 + l2 == o1 {
                CommandView::Delete { offset: o2, length: l1 + l2, removed: r2 + r1 }
            } else {
                CommandView::Delete { offset: o1, length: l1 + l2, removed: r1 + r2 }
            },
            _ => new.command,
        },
    }
}

/// The undo stack after `new` took effect: merged into the top record where
/// it continues it, else pushed, with the oldest record dropped if the stack
/// has then outgrown `max`.
pub open spec fn record_step(undo: Seq<RecordView>, new: RecordView, window: nat, max: nat) -> Seq<
    RecordView,
> {
    if undo.len() > 0 && mergeable(undo.last(), new, window) {
        undo.drop_last().push(merged(undo.last(), new))
    } else if undo.len() + 1 > max {
        undo.push(new).drop_first()
    } else {
        undo.push(new)
    }
}

impl Clone for Command {
    fn clone(&self) -> (r: Self)
        ensures
            r == *self,
    {
        match self {
            Command::Insert(c) => Command::Insert(
                InsertCommand { offset: c.offset, text: c.text.clone() },
            ),
            Command::Delete(c) => Command::Delete(
                DeleteCommand {
                    offset: c.offset,
                    length: c.length,
                    removed_text: c.removed_text.clone(),
                },
            ),
        }
    }
}

impl Clone for CommandRecord {
    fn clone(&self) -> (r: Self)
        ensures
            r == *self,
    {
        CommandRecord { command: self.command.clone(), metadata: self.metadata }
    }
}

impl Command {
    /// The command that inserts `text` before `offset`.
    pub fn insert(offset: usize, text: String) -> (c: Self)
        ensures
            c == Command::Insert(InsertCommand { offset, text }),
    {
        Command::Insert(InsertCommand { offset, text })
    }

    /// The command that deletes `length` characters from `offset` on.
    pub fn delete(offset: usize, length: usize) -> (c: Self)
        ensures
            c@ == (CommandView::Delete {
                offset: offset as nat,
                length: length as nat,
                removed: Seq::<char>::empty(),
            }),
    {
        Command::Delete(DeleteCommand { offset, length, removed_text: String::new() })
    }

    /// The kind of this command.
    pub fn operation_type(&self) -> (t: OperationType)
        ensures
            t == operation_of(self@),
    {
        match self {
            Command::Insert(_) => OperationType::Insert,
            Command::Delete(_) => OperationType::Delete,
        }
    }
}

/// The commands of a list as contracts see them.
pub open spec fn commands_view(commands: Seq<Command>) -> Seq<CommandView> {
    Seq::new(commands.len(), |i: int| commands[i]@)
}

/// The text after the commands took effect on `s` one after the other: the
/// plain-sequence reference for a run of edits.
pub open spec fn apply_all(commands: Seq<CommandView>, s: Seq<char>) -> Seq<char>
    decreases commands.len(),
{
    if commands.len() == 0 {
        s
    } else {
        apply(commands.last(), apply_all(commands.drop_last(), s))
    }
}

/// Applies `command` to `store` and says whether the store took it; if it
/// did not, nothing changes.
pub fn apply_command(store: &mut PieceTree, command: &Command) -> (done: bool)
    ensures
        done == applies(command@, old(store)@),
        done ==> final(store)@ == apply(command@, old(store)@) && final(store).formats()
            == apply_formats(command@, old(store).formats()) && store_applies(
            command@,
            old(store),
            final(store),
        ),
        !done ==> *final(store) == *old(store),
{
    match command {
        Command::Insert(c) => {
            match store.insert(c.offset, c.text.as_str()) {
                Ok(_) => true,
                Err(_) => false,
            }
        },
        Command::Delete(c) => {
            match store.delete(c.offset, c.length) {
                Ok(_) => true,
                Err(_) => false,
            }
        },
    }
}

/// `apply_command`, with only the text in view.
fn apply_plainly(store: &mut PieceTree, command: &Command) -> (done: bool)
    ensures
        done == applies(command@, old(store)@),
        done ==> final(store)@ == apply(command@, old(store)@),
        !done ==> final(store)@ == old(store)@,
{
    apply_command(store, command)
}

/// Applies the commands to `store` in order, without recording them, up to
/// the first one that the store turns down, and returns how many took
/// effect. Whatever the commands, the store then holds what the reference
/// gives for those that took effect.
pub fn replay(store: &mut PieceTree, commands: &Vec<Command>) -> (n: usize)
    ensures
        n <= commands@.len(),
        forall|i: int|
            0 <= i < n ==> applies(
                #[trigger] commands@[i]@,
                apply_all(commands_view(commands@).take(i), old(store)@),
            ),
        n < commands@.len() ==> !applies(
            commands@[n as int]@,
            apply_all(commands_view(commands@).take(n as int), old(store)@),
        ),
        final(store)@ == apply_all(commands_view(commands@).take(n as int), old(store)@),
{
    let mut n: usize = 0;
    while n < commands.len()
        invariant
            n <= commands@.len(),
            forall|i: int|
                0 <= i < n ==> applies(
                    #[trigger] commands@[i]@,
                    apply_all(commands_view(commands@).take(i), old(store)@),
                ),
            store@ == apply_all(commands_view(commands@).take(n as int), old(store)@),
        decreases commands@.len() - n,
    {
        if !apply_plainly(store, &commands[n]) {
            return n;
        }
        proof {
            lemma_apply_all_step(commands_view(commands@), n as int, old(store)@);
        }
        n += 1;
    }
    n
}

/// One more command applied after the first `n`.
proof fn lemma_apply_all_step(commands: Seq<CommandView>, n: int, s: Seq<char>)
    requires
        0 <= n < commands.len(),
    ensures
        apply_all(commands.take(n + 1), s) == apply(commands[n], apply_all(commands.take(n), s)),
{
    assert(commands.take(n + 1).drop_last() =~= commands.take(n));
    assert(commands.take(n + 1).last() == commands[n]);
}

/// The records as contracts see them.
pub open spec fn records_view(records: Seq<CommandRecord>) -> Seq<RecordView> {
    Seq::new(records.len(), |i: int| records[i]@)
}

/// A stored record is valid and labelled with the kind of its command.
pub open spec fn record_ok(r: CommandRecord) -> bool {
    &&& record_valid(r@)
    &&& r.metadata.operation_type == operation_of(r.command@)
}

/// Merges `new` into `top` where it continues it; hands both back where it
/// does not.
fn try_merge(top: CommandRecord, new: CommandRecord, window: u64) -> (r: Result<
    CommandRecord,
    (CommandRecord, CommandRecord),
>)
    requires
        record_ok(top),
        record_ok(new),
    ensures
        match r {
            Ok(m) => mergeable(top@, new@, window as nat) && m@ == merged(top@, new@) && record_ok(m),
            Err(pair) => !mergeable(top@, new@, window as nat) && pair.0 == top && pair.1 == new,
        },
{
    let then = top.metadata.timestamp;
    let now = new.metadata.timestamp;
    let top_meta = top.metadata;
    let new_meta = new.metadata;
    if now > then && now - then > window {
        return Err((top, new));
    }
    match (top.command, new.command) {
        (Command::Insert(a), Command::Insert(b)) => {
            let n = a.text.as_str().unicode_len();
            if b.offset >= a.offset && b.offset - a.offset == n {
                let text = a.text.concat(b.text.as_str());
                Ok(
                    CommandRecord {
                        command: Command::Insert(InsertCommand { offset: a.offset, text }),
                        metadata: CommandMetadata {
                            timestamp: now,
                            operation_type: OperationType::Insert,
                        },
                    },
                )
            } else {
                Err(
                    (
                        CommandRecord { command: Command::Insert(a), metadata: top_meta },
                        CommandRecord { command: Command::Insert(b), metadata: new_meta },
                    ),
                )
            }
        },
        (Command::Delete(a), Command::Delete(b)) => {
            if b.offset <= a.offset && a.offset - b.offset == b.length {
                let removed_text = b.removed_text.concat(a.removed_text.as_str());
                let length = removed_text.as_str().unicode_len();
                Ok(
                    CommandRecord {
                        command: Command::Delete(
                            DeleteCommand { offset: b.offset, length, removed_text },
                        ),
                        metadata: CommandMetadata {
                            timestamp: now,
                            operation_type: OperationType::Delete,
                        },
                    },
                )
            } else if b.offset == a.offset {
                let removed_text = a.removed_text.concat(b.removed_text.as_str());
                let length = removed_text.as_str().unicode_len();
                Ok(
                    CommandRecord {
                        command: Command::Delete(
                            DeleteCommand { offset: a.offset, length, removed_text },
                        ),
                        metadata: CommandMetadata {
                            timestamp: now,
                            operation_type: OperationType::Delete,
                        },
                    },
                )
            } else {
                Err(
                    (
                        CommandRecord { command: Command::Delete(a), metadata: top_meta },
                        CommandRecord { command: Command::Delete(b), metadata: new_meta },
                    ),
                )
            }
        },
        (first, second) => Err(
            (
                CommandRecord { command: first, metadata: top_meta },
                CommandRecord { command: second, metadata: new_meta },
            ),
        ),
    }
}

/// The history manager.
pub struct UndoRedoManager {
    undo_stack: Vec<CommandRecord>,
    redo_stack: Vec<CommandRecord>,
    max_history_size: usize,
    merge_window_ms: u64,
}

impl View for UndoRedoManager {
    type V = HistoryView;

    closed spec fn view(&self) -> HistoryView {
        HistoryView {
            undo: records_view(self.undo_stack@),
            redo: records_view(self.redo_stack@),
            max_history_size: self.max_history_size as nat,
            merge_window_ms: self.merge_window_ms as nat,
        }
    }
}

impl UndoRedoManager {
    #[verifier::type_invariant]
    spec fn inv(self) -> bool {
        &&& self.undo_stack@.len() + self.redo_stack@.len() <= self.max_history_size
        &&& forall|i: int| 0 <= i < self.undo_stack@.len() ==> record_ok(#[trigger] self.undo_stack@[i])
        &&& forall|i: int| 0 <= i < self.redo_stack@.len() ==> record_ok(#[trigger] self.redo_stack@[i])
    }

    /// An empty history with the default bound and merge window.
    pub fn new() -> (r: Self)
        ensures
            r@ == (HistoryView {
                undo: Seq::empty(),
                redo: Seq::empty(),
                max_history_size: DEFAULT_MAX_HISTORY_SIZE as nat,
                merge_window_ms: DEFAULT_MERGE_WINDOW_MS as nat,
            }),
    {
        Self::with_limits(DEFAULT_MAX_HISTORY_SIZE, DEFAULT_MERGE_WINDOW_MS)
    }

    /// An empty history that keeps at most `max_history_size` records and
    /// merges within `merge_window_ms` milliseconds.
    pub fn with_limits(max_history_size: usize, merge_window_ms: u64) -> (r: Self)
        ensures
            r@ == (HistoryView {
                undo: Seq::empty(),
                redo: Seq::empty(),
                max_history_size: max_history_size as nat,
                merge_window_ms: merge_window_ms as nat,
            }),
    {
        let r = UndoRedoManager {
            undo_stack: Vec::new(),
            redo_stack: Vec::new(),
            max_history_size,
            merge_window_ms,
        };
        proof {
            assert(r@.undo =~= Seq::empty());
            assert(r@.redo =~= Seq::empty());
        }
        r
    }

    /// Most records the undo stack keeps.
    pub fn max_history_size(&self) -> (n: usize)
        ensures
            n == self@.max_history_size,
    {
        self.max_history_size
    }

    /// The merge window, in milliseconds.
    pub fn merge_window_ms(&self) -> (n: u64)
        ensures
            n == self@.merge_window_ms,
    {
        self.merge_window_ms
    }

    /// Number of records that can be undone.
    pub fn undo_len(&self) -> (n: usize)
        ensures
            n == self@.undo.len(),
            self@.undo.len() + self@.redo.len() <= self@.max_history_size,
    {
        proof {
            use_type_invariant(self);
        }
        self.undo_stack.len()
    }

    /// Number of records that can be redone.
    pub fn redo_len(&self) -> (n: usize)
        ensures
            n == self@.redo.len(),
            self@.undo.len() + self@.redo.len() <= self@.max_history_size,
    {
        proof {
            use_type_invariant(self);
        }
        self.redo_stack.len()
    }

    /// Whether there is anything to undo.
    pub fn can_undo(&self) -> (b: bool)
        ensures
            b == (self@.undo.len() > 0),
    {
        self.undo_stack.len() > 0
    }

    /// Whether there is anything to redo.
    pub fn can_redo(&self) -> (b: bool)
        ensures
            b == (self@.redo.len() > 0),
    {
        self.redo_stack.len() > 0
    }

    /// A copy of record `index` of the undo stack, the oldest being record 0.
    pub fn undo_record(&self, index: usize) -> (r: Option<CommandRecord>)
        ensures
            index < self@.undo.len() ==> r is Some && r->0@ == self@.undo[index as int] && record_ok(
                r->0,
            ),
            index >= self@.undo.len() ==> r is None,
    {
        proof {
            use_type_invariant(self);
        }
        if index < self.undo_stack.len() {
            Some(self.undo_stack[index].clone())
        } else {
            None
        }
    }

    /// Forgets every record.
    pub fn clear(&mut self)
        ensures
            final(self)@ == (HistoryView {
                undo: Seq::empty(),
                redo: Seq::empty(),
                ..old(self)@
            }),
    {
        proof {
            use_type_invariant(&*self);
        }
        self.undo_stack = Vec::new();
        self.redo_stack = Vec::new();
        proof {
            assert(self@.undo =~= Seq::empty());
            assert(self@.redo =~= Seq::empty());
        }
    }

    /// Applies `command` to `store` and records it as having taken effect at
    /// `timestamp`, a time in milliseconds.
    ///
    /// If the store turns the command down, nothing changes. Otherwise the
    /// command is merged into the top of the undo stack where it continues
    /// it, else pushed, the oldest record making room if the stack is full;
    /// and the redo stack is emptied.
    pub fn execute(&mut self, store: &mut PieceTree, command: Command, timestamp: u64) -> (r: Result<
        (),
        CommandError,
    >)
        ensures
            r is Ok <==> applies(command@, old(store)@),
            r is Ok ==> final(store)@ == apply(command@, old(store)@) && final(store).formats()
                == apply_formats(command@, old(store).formats()) && final(self)@ == (HistoryView {
                undo: record_step(
                    old(self)@.undo,
                    RecordView {
                        command: captured(command@, old(store)@),
                        timestamp: timestamp as nat,
                    },
                    old(self)@.merge_window_ms,
                    old(self)@.max_history_size,
                ),
                redo: Seq::empty(),
                ..old(self)@
            }),
            r is Ok ==> store_applies(command@, old(store), final(store)),
            r is Err ==> r == Err::<(), CommandError>(CommandError::ApplyFailed) && *final(store)
                == *old(store) && final(self)@ == old(self)@,
    {
        let record = match command {
            Command::Insert(c) => {
                match store.insert(c.offset, c.text.as_str()) {
                    Ok(_) => CommandRecord {
                        command: Command::Insert(c),
                        metadata: CommandMetadata {
                            timestamp,
                            operation_type: OperationType::Insert,
                        },
                    },
                    Err(_) => {
                        return Err(CommandError::ApplyFailed);
                    },
                }
            },
            Command::Delete(c) => {
                match store.delete(c.offset, c.length) {
                    Ok(removed_text) => CommandRecord {
                        command: Command::Delete(
                            DeleteCommand { offset: c.offset, length: c.length, removed_text },
                        ),
                        metadata: CommandMetadata {
                            timestamp,
                            operation_type: OperationType::Delete,
                        },
                    },
                    Err(_) => {
                        return Err(CommandError::ApplyFailed);
                    },
                }
            },
        };
        proof {
            use_type_invariant(&*self);
        }
        let ghost before = self.undo_stack@;
        let ghost new = record;
        let mut undo: Vec<CommandRecord> = Vec::new();
        std::mem::swap(&mut self.undo_stack, &mut undo);
        self.redo_stack = Vec::new();
        match undo.pop() {
            None => {
                undo.push(record);
            },
            Some(top) => {
                match try_merge(top, record, self.merge_window_ms) {
                    Ok(both) => {
                        undo.push(both);
                    },
                    Err(pair) => {
                        undo.push(pair.0);
                        undo.push(pair.1);
                    },
                }
            },
        }
        if undo.len() > self.max_history_size {
            undo.remove(0);
        }
        proof {
            let step = record_step(
                records_view(before),
                new@,
                self.merge_window_ms as nat,
                self.max_history_size as nat,
            );
            assert(records_view(undo@) =~= step);
        }
        self.undo_stack = undo;
        proof {
            assert(self@.redo =~= Seq::empty());
        }
        Ok(())
    }

    /// Takes back the most recent record: applies its inverse to `store` and
    /// moves it to the redo stack.
    ///
    /// Fails with `EmptyHistory` when there is nothing to undo, and with
    /// `ApplyFailed` when the store no longer takes the inverse; in both
    /// cases nothing changes.
    pub fn undo(&mut self, store: &mut PieceTree) -> (r: Result<(), CommandError>)
        ensures
            old(self)@.undo.len() == 0 ==> r == Err::<(), CommandError>(CommandError::EmptyHistory),
            old(self)@.undo.len() > 0 && !reverts(old(self)@.undo.last().command, old(store)@) ==> r
                == Err::<(), CommandError>(CommandError::ApplyFailed),
            old(self)@.undo.len() > 0 && reverts(old(self)@.undo.last().command, old(store)@) ==> r
                == Ok::<(), CommandError>(()),
            r is Ok ==> final(store)@ == revert(old(self)@.undo.last().command, old(store)@)
                && final(store).formats() == revert_formats(
                old(self)@.undo.last().command,
                old(store).formats(),
            ) && final(self)@ == (HistoryView {
                undo: old(self)@.undo.drop_last(),
                redo: old(self)@.redo.push(old(self)@.undo.last()),
                ..old(self)@
            }),
            r is Ok ==> store_reverts(old(self)@.undo.last().command, old(store), final(store)),
            r is Err ==> *final(store) == *old(store) && final(self)@ == old(self)@,
    {
        proof {
            use_type_invariant(&*self);
        }
        let n = self.undo_stack.len();
        if n == 0 {
            return Err(CommandError::EmptyHistory);
        }
        let applied = match &self.undo_stack[n - 1].command {
            Command::Insert(c) => {
                let length = c.text.as_str().unicode_len();
                match store.delete(c.offset, length) {
                    Ok(_) => true,
                    Err(_) => false,
                }
            },
            Command::Delete(c) => {
                match store.insert(c.offset, c.removed_text.as_str()) {
                    Ok(_) => true,
                    Err(_) => false,
                }
            },
        };
        if !applied {
            return Err(CommandError::ApplyFailed);
        }
        let ghost undo_before = self.undo_stack@;
        let ghost redo_before = self.redo_stack@;
        let mut undo: Vec<CommandRecord> = Vec::new();
        let mut redo: Vec<CommandRecord> = Vec::new();
        std::mem::swap(&mut self.undo_stack, &mut undo);
        std::mem::swap(&mut self.redo_stack, &mut redo);
        match undo.pop() {
            Some(top) => {
                redo.push(top);
            },
            None => {},
        }
        proof {
            assert(records_view(undo@) =~= records_view(undo_before).drop_last());
            assert(records_view(redo@) =~= records_view(redo_before).push(
                records_view(undo_before).last(),
            ));
        }
        self.undo_stack = undo;
        self.redo_stack = redo;
        Ok(())
    }

    /// Brings back the record undone last: applies its command to `store`
    /// again and moves it to the undo stack, a deletion noting anew what it
    /// took out.
    ///
    /// Fails with `EmptyHistory` when there is nothing to redo, and with
    /// `ApplyFailed` when the store no longer takes the command; in both
    /// cases nothing changes.
    pub fn redo(&mut self, store: &mut PieceTree) -> (r: Result<(), CommandError>)
        ensures
            old(self)@.redo.len() == 0 ==> r == Err::<(), CommandError>(CommandError::EmptyHistory),
            old(self)@.redo.len() > 0 && !applies(old(self)@.redo.last().command, old(store)@) ==> r
                == Err::<(), CommandError>(CommandError::ApplyFailed),
            old(self)@.redo.len() > 0 && applies(old(self)@.redo.last().command, old(store)@) ==> r
                == Ok::<(), CommandError>(()),
            r is Ok ==> final(store)@ == apply(old(self)@.redo.last().command, old(store)@)
                && final(store).formats() == apply_formats(
                old(self)@.redo.last().command,
                old(store).formats(),
            ) && final(self)@ == (HistoryView {
                undo: old(self)@.undo.push(
                    RecordView {
                        command: captured(old(self)@.redo.last().command, old(store)@),
                        timestamp: old(self)@.redo.last().timestamp,
                    },
                ),
                redo: old(self)@.redo.drop_last(),
                ..old(self)@
            }),
            r is Ok ==> store_applies(old(self)@.redo.last().command, old(store), final(store)),
            r is Err ==> *final(store) == *old(store) && final(self)@ == old(self)@,
    {
        proof {
            use_type_invariant(&*self);
        }
        let n = self.redo_stack.len();
        if n == 0 {
            return Err(CommandError::EmptyHistory);
        }
        let metadata = self.redo_stack[n - 1].metadata;
        let command = match &self.redo_stack[n - 1].command {
            Command::Insert(c) => {
                match store.insert(c.offset, c.text.as_str()) {
                    Ok(_) => Command::Insert(
                        InsertCommand { offset: c.offset, text: c.text.clone() },
                    ),
                    Err(_) => {
                        return Err(CommandError::ApplyFailed);
                    },
                }
            },
            Command::Delete(c) => {
                match store.delete(c.offset, c.length) {
                    Ok(removed_text) => Command::Delete(
                        DeleteCommand { offset: c.offset, length: c.length, removed_text },
                    ),
                    Err(_) => {
                        return Err(CommandError::ApplyFailed);
                    },
                }
            },
        };
        let ghost undo_before = self.undo_stack@;
        let ghost redo_before = self.redo_stack@;
        let record = CommandRecord { command, metadata };
        let ghost pushed = record@;
        let mut undo: Vec<CommandRecord> = Vec::new();
        let mut redo: Vec<CommandRecord> = Vec::new();
        std::mem::swap(&mut self.undo_stack, &mut undo);
        std::mem::swap(&mut self.redo_stack, &mut redo);
        redo.pop();
        undo.push(record);
        proof {
            assert(records_view(redo@) =~= records_view(redo_before).drop_last());
            assert(records_view(undo@) =~= records_view(undo_before).push(pushed));
        }
        self.undo_stack = undo;
        self.redo_stack = redo;
        Ok(())
    }
}

} // verus!
