use velum_core::session::Session;
use velum_core::CommandError;
use velum_core::{
    create_empty_document, delete_text, get_full_text, get_line_content, get_line_count,
    get_sample_document, get_text_range, hello_velum, insert_text, multiply, redo, undo,
};

#[test]
fn greeting() {
    assert_eq!(hello_velum(), "Hello from Velum Core (Rust)!");
}

#[test]
fn product() {
    assert_eq!(multiply(6, 7), 42);
    assert_eq!(multiply(-3, 5), -15);
    assert_eq!(multiply(0, i32::MIN), 0);
}

#[test]
fn sample_document() {
    let mut session = Session::new();
    insert_text(&mut session, 0, "scratch".to_string(), 0).unwrap();
    assert_eq!(
        get_sample_document(&mut session, 100),
        "Welcome to Velum This is Microsoft Word 1:1 replica project.."
    );
    assert_eq!(session.manager().undo_len(), 1);
    assert_eq!(undo(&mut session), Ok("Welcome to Velum.".to_string()));
    assert_eq!(undo(&mut session), Err(CommandError::EmptyHistory));
    assert_eq!(get_full_text(&session), "Welcome to Velum.");
}

#[test]
fn empty_document() {
    let mut session = Session::with_limits(7, 9);
    insert_text(&mut session, 0, "abc".to_string(), 0).unwrap();
    assert_eq!(create_empty_document(&mut session), "");
    assert_eq!(get_full_text(&session), "");
    assert_eq!(get_line_count(&session), 0);
    assert_eq!(session.manager().undo_len(), 0);
    assert_eq!(session.manager().max_history_size(), 7);
    assert_eq!(session.manager().merge_window_ms(), 9);
}

#[test]
fn edits_hand_back_the_text() {
    let mut session = Session::new();
    assert_eq!(insert_text(&mut session, 0, "Hello".to_string(), 0), Ok("Hello".to_string()));
    assert_eq!(
        insert_text(&mut session, 5, " World".to_string(), 10_000),
        Ok("Hello World".to_string())
    );
    assert_eq!(delete_text(&mut session, 5, 6, 30_000), Ok("Hello".to_string()));
    assert_eq!(undo(&mut session), Ok("Hello World".to_string()));
    assert_eq!(redo(&mut session), Ok("Hello".to_string()));
    assert_eq!(undo(&mut session), Ok("Hello World".to_string()));
    assert_eq!(undo(&mut session), Ok("Hello".to_string()));
    assert_eq!(undo(&mut session), Ok(String::new()));
}

#[test]
fn edits_that_are_turned_down_say_why_and_change_nothing() {
    let mut session = Session::new();
    insert_text(&mut session, 0, "Hello".to_string(), 0).unwrap();
    assert_eq!(
        insert_text(&mut session, 6, "!".to_string(), 20_000),
        Err(CommandError::OutOfRange)
    );
    assert_eq!(delete_text(&mut session, 5, 1, 40_000), Err(CommandError::OutOfRange));
    assert_eq!(delete_text(&mut session, 3, 3, 40_000), Err(CommandError::OutOfRange));
    assert_eq!(delete_text(&mut session, usize::MAX, 2, 40_000), Err(CommandError::OutOfRange));
    assert_eq!(redo(&mut session), Err(CommandError::EmptyHistory));
    assert_eq!(get_full_text(&session), "Hello");
    assert_eq!(session.manager().undo_len(), 1);
    assert_eq!(session.manager().redo_len(), 0);
    assert_eq!(undo(&mut session), Ok(String::new()));
    assert_eq!(undo(&mut session), Err(CommandError::EmptyHistory));
    assert_eq!(session.manager().redo_len(), 1);
    let mut fresh = Session::new();
    create_empty_document(&mut fresh);
    assert_eq!(undo(&mut fresh), Err(CommandError::EmptyHistory));
    assert_eq!(redo(&mut fresh), Err(CommandError::EmptyHistory));
}

#[test]
fn reads() {
    let mut session = Session::new();
    insert_text(&mut session, 0, "a\nbb\nccc".to_string(), 0).unwrap();
    assert_eq!(get_full_text(&session), "a\nbb\nccc");
    assert_eq!(get_text_range(&session, 2, 2), "bb");
    assert_eq!(get_text_range(&session, 5, 100), "ccc");
    assert_eq!(get_line_count(&session), 3);
    assert_eq!(get_line_content(&session, 0), Some("a".to_string()));
    assert_eq!(get_line_content(&session, 1), Some("bb".to_string()));
    assert_eq!(get_line_content(&session, 2), Some("ccc".to_string()));
    assert_eq!(get_line_content(&session, 3), None);
}
