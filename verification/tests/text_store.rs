use velum_core::piece_tree::BufferId::{Added, Original};
use velum_core::piece_tree::{BufferId, PieceTree, TextAttributes, TextSegment};
use velum_core::text::{byte_offset, utf8_width_of, MAX_TEXT_LEN};
use velum_core::CommandError;

fn bold() -> TextAttributes {
    TextAttributes {
        bold: true,
        italic: false,
        underline: false,
        font_family: Some("Calibri".to_string()),
        font_size: Some(24),
        color: None,
    }
}

#[test]
fn empty_store_has_no_text_and_no_lines() {
    let store = PieceTree::empty();
    assert_eq!(store.get_text(), "");
    assert_eq!(store.len(), 0);
    assert!(store.is_empty());
    assert_eq!(store.get_line_count(), 0);
    assert_eq!(store.get_line(0), None);
    assert_eq!(store.get_text_range(0, 10), "");
}

#[test]
fn insert_then_read_back() {
    let mut store = PieceTree::empty();
    assert_eq!(store.insert(0, "Hello"), Ok(()));
    assert_eq!(store.insert(5, " World"), Ok(()));
    assert_eq!(store.get_text(), "Hello World");
    assert_eq!(store.len(), 11);
    assert_eq!(store.delete(5, 6), Ok(" World".to_string()));
    assert_eq!(store.get_text(), "Hello");
}

#[test]
fn insert_past_the_end_is_out_of_range() {
    let mut store = PieceTree::new("abc".to_string());
    assert_eq!(store.insert(4, "x"), Err(CommandError::OutOfRange));
    assert_eq!(store.get_text(), "abc");
    assert_eq!(store.insert(3, "x"), Ok(()));
    assert_eq!(store.get_text(), "abcx");
}

#[test]
fn delete_past_the_end_is_out_of_range() {
    let mut store = PieceTree::new("abc".to_string());
    assert_eq!(store.delete(2, 2), Err(CommandError::OutOfRange));
    assert_eq!(store.delete(4, 0), Err(CommandError::OutOfRange));
    assert_eq!(store.delete(usize::MAX, 2), Err(CommandError::OutOfRange));
    assert_eq!(store.get_text(), "abc");
    assert_eq!(store.delete(3, 0), Ok(String::new()));
    assert_eq!(store.delete(0, 3), Ok("abc".to_string()));
    assert!(store.is_empty());
}

#[test]
fn insert_inside_a_piece_splits_it() {
    let mut store = PieceTree::new("Welcome to Velum.".to_string());
    assert_eq!(store.insert(16, " now"), Ok(()));
    assert_eq!(store.get_text(), "Welcome to Velum now.");
    assert_eq!(store.insert(0, ">> "), Ok(()));
    assert_eq!(store.get_text(), ">> Welcome to Velum now.");
}

#[test]
fn delete_across_pieces() {
    let mut store = PieceTree::empty();
    store.insert(0, "one ").unwrap();
    store.insert(4, "two ").unwrap();
    store.insert(8, "three").unwrap();
    assert_eq!(store.get_text(), "one two three");
    assert_eq!(store.delete(2, 8), Ok("e two th".to_string()));
    assert_eq!(store.get_text(), "onree");
}

#[test]
fn delete_strictly_inside_one_piece() {
    let mut store = PieceTree::new("abcdefgh".to_string());
    assert_eq!(store.delete(2, 3), Ok("cde".to_string()));
    assert_eq!(store.get_text(), "abfgh");
    assert_eq!(store.delete(0, 1), Ok("a".to_string()));
    assert_eq!(store.delete(3, 1), Ok("h".to_string()));
    assert_eq!(store.get_text(), "bfg");
}

#[test]
fn text_range_is_clamped() {
    let store = PieceTree::new("Hello World".to_string());
    assert_eq!(store.get_text_range(0, 5), "Hello");
    assert_eq!(store.get_text_range(6, 5), "World");
    assert_eq!(store.get_text_range(6, 500), "World");
    assert_eq!(store.get_text_range(11, 3), "");
    assert_eq!(store.get_text_range(40, 3), "");
    assert_eq!(store.get_text_range(3, usize::MAX), "lo World");
    assert_eq!(store.get_text_range(3, 0), "");
}

#[test]
fn text_range_spans_pieces() {
    let mut store = PieceTree::new("aaaa".to_string());
    store.insert(2, "bbbb").unwrap();
    store.insert(4, "cc").unwrap();
    assert_eq!(store.get_text(), "aabbccbbaa");
    assert_eq!(store.get_text_range(1, 8), "abbccbba");
    assert_eq!(store.get_text_range(3, 4), "bccb");
}

#[test]
fn line_indexing() {
    let store = PieceTree::new("a\nbb\nccc".to_string());
    assert_eq!(store.get_line_count(), 3);
    assert_eq!(store.get_line(0), Some("a".to_string()));
    assert_eq!(store.get_line(1), Some("bb".to_string()));
    assert_eq!(store.get_line(2), Some("ccc".to_string()));
    assert_eq!(store.get_line(3), None);
}

#[test]
fn line_indexing_over_edited_text() {
    let mut store = PieceTree::empty();
    store.insert(0, "a\nccc").unwrap();
    store.insert(2, "bb\n").unwrap();
    assert_eq!(store.get_text(), "a\nbb\nccc");
    assert_eq!(store.get_line_count(), 3);
    assert_eq!(store.get_line(0), Some("a".to_string()));
    assert_eq!(store.get_line(1), Some("bb".to_string()));
    assert_eq!(store.get_line(2), Some("ccc".to_string()));
    assert_eq!(store.get_line(3), None);
    store.delete(1, 1).unwrap();
    assert_eq!(store.get_line_count(), 2);
    assert_eq!(store.get_line(0), Some("abb".to_string()));
    assert_eq!(store.get_line(1), Some("ccc".to_string()));
}

#[test]
fn line_indexing_after_a_split_between_terminators() {
    let mut store = PieceTree::new("x\ny\nz\n".to_string());
    store.insert(3, "--").unwrap();
    assert_eq!(store.get_text(), "x\ny--\nz\n");
    assert_eq!(store.get_line_count(), 4);
    assert_eq!(store.get_line(1), Some("y--".to_string()));
    assert_eq!(store.get_line(2), Some("z".to_string()));
    assert_eq!(store.get_line(3), Some(String::new()));
    assert_eq!(store.get_line(4), None);
}

#[test]
fn a_text_without_terminator_is_one_line() {
    let store = PieceTree::new("no newline".to_string());
    assert_eq!(store.get_line_count(), 1);
    assert_eq!(store.get_line(0), Some("no newline".to_string()));
    assert_eq!(store.get_line(1), None);
}

#[test]
fn offsets_count_characters() {
    let mut store = PieceTree::new("héllo".to_string());
    assert_eq!(store.len(), 5);
    store.insert(2, "→").unwrap();
    assert_eq!(store.get_text(), "hé→llo");
    assert_eq!(store.delete(1, 2), Ok("é→".to_string()));
    assert_eq!(store.get_text(), "hllo");
}

#[test]
fn load_keeps_formatting_per_segment() {
    let mut store = PieceTree::new("old".to_string());
    let segments = vec![
        TextSegment { text: "plain ".to_string(), attributes: None },
        TextSegment { text: String::new(), attributes: Some(bold()) },
        TextSegment { text: "bold".to_string(), attributes: Some(bold()) },
    ];
    assert_eq!(store.load(&segments), Ok(()));
    assert_eq!(store.get_text(), "plain bold");
    assert_eq!(store.get_attributes_at(0), None);
    assert_eq!(store.get_attributes_at(5), None);
    assert_eq!(store.get_attributes_at(6), Some(bold()));
    assert_eq!(store.get_attributes_at(9), Some(bold()));
    assert_eq!(store.get_attributes_at(10), None);
}

#[test]
fn formatting_follows_edits() {
    let mut store = PieceTree::empty();
    store.insert_with_attributes(0, "bold", Some(bold())).unwrap();
    store.insert(2, "--").unwrap();
    assert_eq!(store.get_text(), "bo--ld");
    assert_eq!(store.get_attributes_at(1), Some(bold()));
    assert_eq!(store.get_attributes_at(2), None);
    assert_eq!(store.get_attributes_at(3), None);
    assert_eq!(store.get_attributes_at(4), Some(bold()));
    store.delete(0, 3).unwrap();
    assert_eq!(store.get_attributes_at(0), None);
    assert_eq!(store.get_attributes_at(1), Some(bold()));
}

#[test]
fn the_length_limit_is_half_the_address_range() {
    assert_eq!(MAX_TEXT_LEN, usize::MAX / 2);
}

#[test]
fn error_messages() {
    assert_eq!(CommandError::OutOfRange.message(), "offset or length out of range");
    assert_eq!(CommandError::EmptyHistory.message(), "nothing to undo or redo");
    assert_eq!(CommandError::ApplyFailed.message(), "command could not be applied");
}

fn spans(store: &PieceTree) -> Vec<(BufferId, usize, usize, Vec<usize>)> {
    let mut out = Vec::new();
    for i in 0..store.piece_count() {
        let p = store.get_piece(i).unwrap();
        out.push((p.buffer_id, p.start, p.length, p.line_starts));
    }
    assert!(store.get_piece(store.piece_count()).is_none());
    out
}

#[test]
fn a_loaded_text_is_one_piece_over_the_original_buffer() {
    assert_eq!(spans(&PieceTree::empty()), vec![]);
    assert_eq!(spans(&PieceTree::new(String::new())), vec![]);
    assert_eq!(spans(&PieceTree::new("a\nb\nc".to_string())), vec![(Original, 0, 5, vec![1, 3])]);
}

#[test]
fn an_insertion_inside_a_piece_cuts_it_in_two() {
    let mut store = PieceTree::new("a\nb\nc".to_string());
    store.insert(2, "x\n").unwrap();
    assert_eq!(
        spans(&store),
        vec![(Original, 0, 2, vec![1]), (Added, 0, 2, vec![1]), (Original, 2, 3, vec![1])]
    );
    store.insert(3, "yz").unwrap();
    assert_eq!(
        spans(&store),
        vec![
            (Original, 0, 2, vec![1]),
            (Added, 0, 1, vec![]),
            (Added, 2, 2, vec![]),
            (Added, 1, 1, vec![0]),
            (Original, 2, 3, vec![1]),
        ]
    );
    assert_eq!(store.get_text(), "a\nxyz\nb\nc");
}

#[test]
fn an_insertion_between_pieces_cuts_nothing() {
    let mut store = PieceTree::new("abc".to_string());
    store.insert(3, "def").unwrap();
    store.insert(3, "-").unwrap();
    store.insert(0, ">").unwrap();
    assert_eq!(
        spans(&store),
        vec![
            (Added, 4, 1, vec![]),
            (Original, 0, 3, vec![]),
            (Added, 3, 1, vec![]),
            (Added, 0, 3, vec![]),
        ]
    );
    store.insert(2, "").unwrap();
    assert_eq!(store.piece_count(), 4);
}

#[test]
fn a_deletion_drops_and_trims_pieces() {
    let mut store = PieceTree::new("abcdefgh".to_string());
    store.delete(2, 3).unwrap();
    assert_eq!(spans(&store), vec![(Original, 0, 2, vec![]), (Original, 5, 3, vec![])]);
    store.insert(2, "12\n34").unwrap();
    store.delete(1, 3).unwrap();
    assert_eq!(
        spans(&store),
        vec![(Original, 0, 1, vec![]), (Added, 2, 3, vec![0]), (Original, 5, 3, vec![])]
    );
    store.delete(1, 3).unwrap();
    assert_eq!(spans(&store), vec![(Original, 0, 1, vec![]), (Original, 5, 3, vec![])]);
    store.delete(1, 0).unwrap();
    assert_eq!(store.piece_count(), 2);
    store.delete(0, 4).unwrap();
    assert_eq!(store.piece_count(), 0);
}

#[test]
fn loading_makes_one_piece_for_each_segment_that_is_not_empty() {
    let mut store = PieceTree::new("old".to_string());
    store.insert(1, "x").unwrap();
    let segments = vec![
        TextSegment { text: String::new(), attributes: None },
        TextSegment { text: "ab\n".to_string(), attributes: None },
        TextSegment { text: String::new(), attributes: Some(bold()) },
        TextSegment { text: "cd".to_string(), attributes: Some(bold()) },
    ];
    store.load(&segments).unwrap();
    assert_eq!(spans(&store), vec![(Original, 0, 3, vec![2]), (Original, 3, 2, vec![])]);
    assert_eq!(store.get_piece(1).unwrap().attributes, Some(bold()));
    store.load(&vec![]).unwrap();
    assert_eq!(store.piece_count(), 0);
    assert_eq!(store.get_text(), "");
}

#[test]
fn byte_offsets_of_character_positions() {
    let text = "hé→😀!";
    assert_eq!(byte_offset(text, 0), 0);
    assert_eq!(byte_offset(text, 1), 1);
    assert_eq!(byte_offset(text, 2), 3);
    assert_eq!(byte_offset(text, 3), 6);
    assert_eq!(byte_offset(text, 4), 10);
    assert_eq!(byte_offset(text, 5), 11);
    assert_eq!(byte_offset(text, 6), 11);
    assert_eq!(byte_offset(text, usize::MAX), text.len());
    assert_eq!(byte_offset("", 3), 0);
    for (position, (offset, _)) in text.char_indices().enumerate() {
        assert_eq!(byte_offset(text, position), offset);
    }
    assert_eq!(utf8_width_of('a'), 1);
    assert_eq!(utf8_width_of('é'), 2);
    assert_eq!(utf8_width_of('→'), 3);
    assert_eq!(utf8_width_of('😀'), 4);
}
