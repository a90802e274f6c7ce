use velum_core::piece_tree::PieceTree;
use velum_core::session::Session;
use velum_core::undo_redo::{
    replay, Command, CommandMetadata, CommandRecord, DeleteCommand, InsertCommand, OperationType,
    UndoRedoManager, DEFAULT_MAX_HISTORY_SIZE, DEFAULT_MERGE_WINDOW_MS,
};
use velum_core::CommandError;

#[test]
fn defaults() {
    let history = UndoRedoManager::new();
    assert_eq!(history.max_history_size(), DEFAULT_MAX_HISTORY_SIZE);
    assert_eq!(history.merge_window_ms(), DEFAULT_MERGE_WINDOW_MS);
    assert_eq!(history.undo_len(), 0);
    assert_eq!(history.redo_len(), 0);
    assert!(!history.can_undo());
    assert!(!history.can_redo());
    assert_eq!(history.undo_record(0), None);
}

#[test]
fn scenario_without_merging() {
    let mut session = Session::with_limits(10, 100);
    assert_eq!(session.insert(0, "Hello".to_string(), 0), Ok(()));
    assert_eq!(session.insert(5, " World".to_string(), 1000), Ok(()));
    assert_eq!(session.get_text(), "Hello World");
    assert_eq!(session.delete(5, 6, 2000), Ok(()));
    assert_eq!(session.get_text(), "Hello");
    assert_eq!(session.undo(), Ok(()));
    assert_eq!(session.get_text(), "Hello World");
    assert_eq!(session.undo(), Ok(()));
    assert_eq!(session.get_text(), "Hello");
    assert_eq!(session.undo(), Ok(()));
    assert_eq!(session.get_text(), "");
    assert_eq!(session.undo(), Err(CommandError::EmptyHistory));
}

#[test]
fn scenario_with_merging() {
    let mut session = Session::with_limits(10, 100);
    assert_eq!(session.insert(0, "Hello".to_string(), 0), Ok(()));
    assert_eq!(session.insert(5, " World".to_string(), 50), Ok(()));
    assert_eq!(session.get_text(), "Hello World");
    assert_eq!(session.delete(5, 6, 60), Ok(()));
    assert_eq!(session.get_text(), "Hello");
    assert_eq!(session.manager().undo_len(), 2);
    assert_eq!(session.undo(), Ok(()));
    assert_eq!(session.get_text(), "Hello World");
    assert_eq!(session.undo(), Ok(()));
    assert_eq!(session.get_text(), "");
    assert_eq!(session.undo(), Err(CommandError::EmptyHistory));
}

#[test]
fn inserts_within_the_window_merge() {
    let mut session = Session::with_limits(10, 100);
    session.insert(0, "a".to_string(), 1000).unwrap();
    session.insert(1, "b".to_string(), 1100).unwrap();
    assert_eq!(session.manager().undo_len(), 1);
    assert_eq!(
        session.manager().undo_record(0),
        Some(CommandRecord {
            command: Command::Insert(InsertCommand { offset: 0, text: "ab".to_string() }),
            metadata: CommandMetadata { timestamp: 1100, operation_type: OperationType::Insert },
        })
    );
    assert_eq!(session.undo(), Ok(()));
    assert_eq!(session.get_text(), "");
}

#[test]
fn inserts_outside_the_window_do_not_merge() {
    let mut session = Session::with_limits(10, 100);
    session.insert(0, "a".to_string(), 1000).unwrap();
    session.insert(1, "b".to_string(), 1101).unwrap();
    assert_eq!(session.manager().undo_len(), 2);
    assert_eq!(session.undo(), Ok(()));
    assert_eq!(session.get_text(), "a");
}

#[test]
fn inserts_that_do_not_touch_do_not_merge() {
    let mut session = Session::with_limits(10, 100);
    session.insert(0, "ab".to_string(), 0).unwrap();
    session.insert(1, "x".to_string(), 1).unwrap();
    assert_eq!(session.manager().undo_len(), 2);
    session.insert(0, "y".to_string(), 2).unwrap();
    assert_eq!(session.manager().undo_len(), 3);
}

#[test]
fn the_window_is_measured_from_the_last_merged_edit() {
    let mut session = Session::with_limits(10, 100);
    session.insert(0, "a".to_string(), 0).unwrap();
    session.insert(1, "b".to_string(), 90).unwrap();
    session.insert(2, "c".to_string(), 180).unwrap();
    assert_eq!(session.manager().undo_len(), 1);
    session.insert(3, "d".to_string(), 281).unwrap();
    assert_eq!(session.manager().undo_len(), 2);
}

#[test]
fn an_earlier_timestamp_is_within_the_window() {
    let mut session = Session::with_limits(10, 100);
    session.insert(0, "a".to_string(), 5000).unwrap();
    session.insert(1, "b".to_string(), 10).unwrap();
    assert_eq!(session.manager().undo_len(), 1);
}

#[test]
fn backspacing_merges() {
    let mut session = Session::with_limits(10, 100);
    session.insert(0, "abcdef".to_string(), 0).unwrap();
    session.delete(5, 1, 1000).unwrap();
    session.delete(4, 1, 1010).unwrap();
    session.delete(2, 2, 1020).unwrap();
    assert_eq!(session.get_text(), "ab");
    assert_eq!(session.manager().undo_len(), 2);
    assert_eq!(
        session.manager().undo_record(1),
        Some(CommandRecord {
            command: Command::Delete(DeleteCommand {
                offset: 2,
                length: 4,
                removed_text: "cdef".to_string(),
            }),
            metadata: CommandMetadata { timestamp: 1020, operation_type: OperationType::Delete },
        })
    );
    assert_eq!(session.undo(), Ok(()));
    assert_eq!(session.get_text(), "abcdef");
    assert_eq!(session.redo(), Ok(()));
    assert_eq!(session.get_text(), "ab");
}

#[test]
fn forward_deleting_merges() {
    let mut session = Session::with_limits(10, 100);
    session.insert(0, "abcdef".to_string(), 0).unwrap();
    session.delete(1, 1, 1000).unwrap();
    session.delete(1, 2, 1010).unwrap();
    assert_eq!(session.get_text(), "aef");
    assert_eq!(session.manager().undo_len(), 2);
    assert_eq!(
        session.manager().undo_record(1),
        Some(CommandRecord {
            command: Command::Delete(DeleteCommand {
                offset: 1,
                length: 3,
                removed_text: "bcd".to_string(),
            }),
            metadata: CommandMetadata { timestamp: 1010, operation_type: OperationType::Delete },
        })
    );
    assert_eq!(session.undo(), Ok(()));
    assert_eq!(session.get_text(), "abcdef");
}

#[test]
fn deletes_elsewhere_do_not_merge() {
    let mut session = Session::with_limits(10, 100);
    session.insert(0, "abcdef".to_string(), 0).unwrap();
    session.delete(4, 1, 1000).unwrap();
    session.delete(0, 1, 1010).unwrap();
    assert_eq!(session.manager().undo_len(), 3);
}

#[test]
fn an_insert_does_not_merge_with_a_delete() {
    let mut session = Session::with_limits(10, 100);
    session.insert(0, "abc".to_string(), 0).unwrap();
    session.delete(3, 0, 1).unwrap();
    assert_eq!(session.manager().undo_len(), 2);
    session.insert(3, "d".to_string(), 2).unwrap();
    assert_eq!(session.manager().undo_len(), 3);
}

#[test]
fn undo_then_redo_restores_the_document() {
    let mut session = Session::with_limits(10, 0);
    session.insert(0, "Hello World".to_string(), 0).unwrap();
    session.delete(2, 5, 10).unwrap();
    let after = session.get_text();
    assert_eq!(after, "Heorld");
    assert_eq!(session.undo(), Ok(()));
    assert_eq!(session.get_text(), "Hello World");
    assert_eq!(session.redo(), Ok(()));
    assert_eq!(session.get_text(), after);
    assert_eq!(session.manager().undo_len(), 2);
    assert_eq!(session.manager().redo_len(), 0);
    session.insert(3, "xyz".to_string(), 20).unwrap();
    let after = session.get_text();
    assert_eq!(session.undo(), Ok(()));
    assert_eq!(session.redo(), Ok(()));
    assert_eq!(session.get_text(), after);
}

#[test]
fn a_new_edit_empties_the_redo_stack() {
    let mut session = Session::with_limits(10, 0);
    session.insert(0, "a".to_string(), 0).unwrap();
    session.insert(1, "b".to_string(), 10).unwrap();
    session.undo().unwrap();
    assert_eq!(session.manager().redo_len(), 1);
    assert!(session.manager().can_redo());
    session.insert(1, "c".to_string(), 20).unwrap();
    assert_eq!(session.manager().redo_len(), 0);
    assert_eq!(session.redo(), Err(CommandError::EmptyHistory));
    assert_eq!(session.get_text(), "ac");
}

#[test]
fn the_undo_stack_is_bounded() {
    let max = 5;
    let k = 3;
    let mut session = Session::with_limits(max, 0);
    for i in 0..(max + k) {
        session.insert(i, "x".to_string(), (i as u64) * 10).unwrap();
    }
    assert_eq!(session.manager().undo_len(), max);
    assert_eq!(
        session.manager().undo_record(0),
        Some(CommandRecord {
            command: Command::Insert(InsertCommand { offset: k, text: "x".to_string() }),
            metadata: CommandMetadata {
                timestamp: (k as u64) * 10,
                operation_type: OperationType::Insert,
            },
        })
    );
    for _ in 0..max {
        assert_eq!(session.undo(), Ok(()));
    }
    assert_eq!(session.undo(), Err(CommandError::EmptyHistory));
    assert_eq!(session.get_text(), "xxx");
}

#[test]
fn a_history_of_size_zero_keeps_nothing() {
    let mut session = Session::with_limits(0, 100);
    session.insert(0, "a".to_string(), 0).unwrap();
    assert_eq!(session.manager().undo_len(), 0);
    assert_eq!(session.undo(), Err(CommandError::EmptyHistory));
    assert_eq!(session.get_text(), "a");
}

#[test]
fn a_command_that_does_not_fit_fails_and_changes_nothing() {
    let mut session = Session::with_limits(10, 0);
    session.insert(0, "abc".to_string(), 0).unwrap();
    session.undo().unwrap();
    session.redo().unwrap();
    session.undo().unwrap();
    assert_eq!(
        session.execute(Command::insert(1, "x".to_string()), 5),
        Err(CommandError::ApplyFailed)
    );
    assert_eq!(session.execute(Command::delete(0, 1), 5), Err(CommandError::ApplyFailed));
    assert_eq!(session.get_text(), "");
    assert_eq!(session.manager().undo_len(), 0);
    assert_eq!(session.manager().redo_len(), 1);
    assert_eq!(session.insert(1, "x".to_string(), 5), Err(CommandError::OutOfRange));
    assert_eq!(session.delete(0, 1, 5), Err(CommandError::OutOfRange));
    assert_eq!(session.manager().redo_len(), 1);
}

#[test]
fn undo_on_a_diverged_document_fails_and_changes_nothing() {
    let mut store = PieceTree::empty();
    let mut history = UndoRedoManager::with_limits(10, 0);
    assert_eq!(history.execute(&mut store, Command::insert(0, "abcdef".to_string()), 0), Ok(()));
    store.delete(0, 4).unwrap();
    assert_eq!(history.undo(&mut store), Err(CommandError::ApplyFailed));
    assert_eq!(store.get_text(), "ef");
    assert_eq!(history.undo_len(), 1);
    assert_eq!(history.redo_len(), 0);
    store.insert(2, "ghij").unwrap();
    assert_eq!(history.undo(&mut store), Ok(()));
    assert_eq!(store.get_text(), "");
    store.insert(0, "z").unwrap();
    assert_eq!(history.redo(&mut store), Ok(()));
    assert_eq!(store.get_text(), "abcdefz");
    history.clear();
    assert_eq!(history.undo(&mut store), Err(CommandError::EmptyHistory));
    assert_eq!(history.redo(&mut store), Err(CommandError::EmptyHistory));
}

#[test]
fn redo_on_a_diverged_document_fails_and_changes_nothing() {
    let mut store = PieceTree::empty();
    let mut history = UndoRedoManager::with_limits(10, 0);
    history.execute(&mut store, Command::insert(0, "abc".to_string()), 0).unwrap();
    history.execute(&mut store, Command::delete(1, 2), 10).unwrap();
    history.undo(&mut store).unwrap();
    assert_eq!(store.get_text(), "abc");
    store.delete(0, 2).unwrap();
    assert_eq!(history.redo(&mut store), Err(CommandError::ApplyFailed));
    assert_eq!(store.get_text(), "c");
    assert_eq!(history.redo_len(), 1);
    assert_eq!(history.undo_len(), 1);
}

#[test]
fn redo_of_a_deletion_notes_what_it_takes_out() {
    let mut store = PieceTree::empty();
    let mut history = UndoRedoManager::with_limits(10, 0);
    history.execute(&mut store, Command::insert(0, "abc".to_string()), 0).unwrap();
    history.execute(&mut store, Command::delete(1, 2), 10).unwrap();
    history.undo(&mut store).unwrap();
    store.delete(1, 2).unwrap();
    store.insert(1, "xy").unwrap();
    assert_eq!(history.redo(&mut store), Ok(()));
    assert_eq!(store.get_text(), "a");
    assert_eq!(
        history.undo_record(1),
        Some(CommandRecord {
            command: Command::Delete(DeleteCommand {
                offset: 1,
                length: 2,
                removed_text: "xy".to_string(),
            }),
            metadata: CommandMetadata { timestamp: 10, operation_type: OperationType::Delete },
        })
    );
}

#[test]
fn replay_matches_a_plain_string() {
    let commands = vec![
        Command::insert(0, "Hello".to_string()),
        Command::insert(5, " World".to_string()),
        Command::delete(0, 1),
        Command::insert(0, "J".to_string()),
        Command::delete(4, 3),
        Command::insert(4, "y w".to_string()),
    ];
    let mut reference = String::new();
    reference.insert_str(0, "Hello");
    reference.insert_str(5, " World");
    reference.replace_range(0..1, "");
    reference.insert_str(0, "J");
    reference.replace_range(4..7, "");
    reference.insert_str(4, "y w");
    let mut store = PieceTree::empty();
    assert_eq!(replay(&mut store, &commands), 6);
    assert_eq!(store.get_text(), reference);
    assert_eq!(store.get_text(), "Jelly world");
}

#[test]
fn replay_stops_at_the_first_command_that_does_not_fit() {
    let commands = vec![
        Command::insert(0, "abc".to_string()),
        Command::delete(2, 2),
        Command::insert(0, "never".to_string()),
    ];
    let mut store = PieceTree::empty();
    assert_eq!(replay(&mut store, &commands), 1);
    assert_eq!(store.get_text(), "abc");
}

#[test]
fn command_kinds() {
    assert_eq!(Command::insert(0, "a".to_string()).operation_type(), OperationType::Insert);
    assert_eq!(Command::delete(0, 1).operation_type(), OperationType::Delete);
    assert_eq!(
        Command::delete(3, 4),
        Command::Delete(DeleteCommand { offset: 3, length: 4, removed_text: String::new() })
    );
    let record = CommandRecord {
        command: Command::insert(1, "x".to_string()),
        metadata: CommandMetadata { timestamp: 7, operation_type: OperationType::Insert },
    };
    assert_eq!(record.clone(), record);
}

#[test]
fn loading_leaves_the_history_alone() {
    let mut session = Session::with_limits(10, 0);
    session.insert(0, "abcdef".to_string(), 0).unwrap();
    let segments = vec![velum_core::piece_tree::TextSegment {
        text: "xy".to_string(),
        attributes: None,
    }];
    assert_eq!(session.load(&segments), Ok(()));
    assert_eq!(session.get_text(), "xy");
    assert_eq!(session.manager().undo_len(), 1);
    assert_eq!(session.undo(), Err(CommandError::ApplyFailed));
    assert_eq!(session.get_text(), "xy");
    assert_eq!(session.len(), 2);
    assert_eq!(session.store().get_text(), "xy");
}
