use oxide::filesbuffers::{FileBuffer, FilesBuffers, Move};

fn buffer_of(lines: Vec<&str>) -> FileBuffer {
    let file: Vec<Vec<char>> = lines.iter().map(|l| l.chars().collect()).collect();
    let count = file.len() as u16;
    FileBuffer {
        file,
        current_line: 0,
        current_column: 0,
        lines_number: count,
        scroll_y: 0,
    }
}

#[test]
fn move_right_then_left_restores_interior_column() {
    let mut buf = buffer_of(vec!["hello"]);
    buf.current_column = 2;
    buf.move_cursor(Move::Right);
    assert_eq!(buf.current_column, 3);
    buf.move_cursor(Move::Left);
    assert_eq!(buf.current_column, 2);
}

#[test]
fn move_right_stops_at_line_length() {
    let mut buf = buffer_of(vec!["ab"]);
    buf.current_column = 2;
    buf.move_cursor(Move::Right);
    assert_eq!(buf.current_column, 2);
}

#[test]
fn move_down_and_up_stay_in_bounds() {
    let mut buf = buffer_of(vec!["a", "b", "c"]);
    for _ in 0..10 {
        buf.move_cursor(Move::Down);
        assert!(buf.current_line < buf.lines_number);
    }
    assert_eq!(buf.current_line, 2);
    for _ in 0..10 {
        buf.move_cursor(Move::Up);
    }
    assert_eq!(buf.current_line, 0);
}

#[test]
fn up_does_not_reclamp_column() {
    let mut buf = buffer_of(vec!["a", "longer"]);
    buf.current_line = 1;
    buf.current_column = 5;
    buf.move_cursor(Move::Up);
    assert_eq!(buf.current_line, 0);
    assert_eq!(buf.current_column, 5);
}

#[test]
fn create_line_increments_count_and_moves_cursor() {
    let mut buf = buffer_of(vec!["ab", "cd"]);
    buf.current_column = 1;
    buf.create_line();
    assert_eq!(buf.lines_number, 3);
    assert_eq!(buf.file.len(), 3);
    assert_eq!(buf.current_line, 1);
    assert_eq!(buf.current_column, 0);
    assert!(buf.file[1].is_empty());
    assert_eq!(buf.file[2], vec!['c', 'd']);
}

#[test]
fn line_count_tracks_creates_and_deletes() {
    let mut buf = buffer_of(vec!["x"]);
    buf.create_line();
    buf.create_line();
    assert_eq!(buf.lines_number as usize, buf.file.len());
    assert_eq!(buf.lines_number, 3);
    buf.delete_line();
    assert_eq!(buf.lines_number as usize, buf.file.len());
    buf.delete_line();
    assert_eq!(buf.lines_number as usize, buf.file.len());
    assert_eq!(buf.lines_number, 1);
}

#[test]
fn delete_line_drops_text_without_joining() {
    let mut buf = buffer_of(vec!["keep", "lost"]);
    buf.current_line = 1;
    buf.delete_line();
    assert_eq!(buf.lines_number, 1);
    assert_eq!(buf.file[0], vec!['k', 'e', 'e', 'p']);
    assert_eq!(buf.current_line, 0);
    assert_eq!(buf.current_column, 4);
}

#[test]
fn insert_char_at_cursor() {
    let mut buf = buffer_of(vec!["ac"]);
    buf.current_column = 1;
    buf.insert_char('b');
    assert_eq!(buf.file[0], vec!['a', 'b', 'c']);
    assert_eq!(buf.current_column, 2);
}

#[test]
fn delete_previous_position_removes_char() {
    let mut buf = buffer_of(vec!["abc"]);
    buf.current_column = 2;
    buf.delete_previous_position();
    assert_eq!(buf.file[0], vec!['a', 'c']);
    assert_eq!(buf.current_column, 1);
}

#[test]
fn delete_previous_position_at_line_start_deletes_line() {
    let mut buf = buffer_of(vec!["first", "second"]);
    buf.current_line = 1;
    buf.current_column = 0;
    buf.delete_previous_position();
    assert_eq!(buf.lines_number, 1);
    assert_eq!(buf.file[0], vec!['f', 'i', 'r', 's', 't']);
    assert_eq!(buf.current_column, 5);
}

#[test]
fn delete_previous_position_at_origin_is_noop() {
    let mut buf = buffer_of(vec!["abc"]);
    buf.delete_previous_position();
    assert_eq!(buf.file[0], vec!['a', 'b', 'c']);
    assert_eq!(buf.current_line, 0);
    assert_eq!(buf.current_column, 0);
}

#[test]
fn next_word_stops_after_word_then_at_line_end() {
    let mut buf = buffer_of(vec!["foo bar"]);
    buf.move_to_next_word();
    assert_eq!(buf.current_column, 3);
    buf.move_to_next_word();
    assert_eq!(buf.current_column, 7);
}

#[test]
fn previous_word_mirrors_forward_scan() {
    let mut buf = buffer_of(vec!["foo bar"]);
    buf.current_column = 5;
    buf.move_to_previous_word();
    assert_eq!(buf.current_column, 3);
    buf.current_column = 1;
    buf.move_to_previous_word();
    assert_eq!(buf.current_column, 0);
}

#[test]
fn cursor_position_adds_gutter_width() {
    let mut buf = buffer_of(vec!["abc"]);
    buf.current_line = 0;
    buf.current_column = 2;
    let pos = buf.to_cursor_position();
    assert_eq!(pos.x, 2 + oxide::ui::LINE_NUMBERS_WIDTH);
    assert_eq!(pos.y, 0);
}

#[test]
fn store_init_reads_lines_and_replaces() {
    let mut store = FilesBuffers::new();
    assert!(store.is_empty());
    let text: Vec<char> = "one\ntwo\r\nthree".chars().collect();
    store.init_file_buffer("a.txt".to_string(), Some(text));
    assert!(!store.is_empty());
    let buf = store.get("a.txt".to_string());
    assert_eq!(buf.lines_number, 3);
    assert_eq!(buf.file[0], vec!['o', 'n', 'e']);
    assert_eq!(buf.file[1], vec!['t', 'w', 'o']);
    assert_eq!(buf.file[2], vec!['t', 'h', 'r', 'e', 'e']);

    let replacement: Vec<char> = "new".chars().collect();
    store.init_file_buffer("a.txt".to_string(), Some(replacement));
    assert_eq!(store.files.len(), 1);
    let buf = store.get("a.txt".to_string());
    assert_eq!(buf.lines_number, 1);
    assert_eq!(buf.file[0], vec!['n', 'e', 'w']);
}

#[test]
fn store_init_empty_and_missing_content() {
    let mut store = FilesBuffers::new();
    store.init_file_buffer("empty.txt".to_string(), Some(vec![]));
    store.init_file_buffer("missing.txt".to_string(), None);
    let empty = store.get("empty.txt".to_string());
    assert_eq!(empty.lines_number, 1);
    assert!(empty.file[0].is_empty());
    let missing = store.get("missing.txt".to_string());
    assert_eq!(missing.lines_number, 1);
    assert!(missing.file[0].is_empty());
}

#[test]
fn store_get_mut_edits_in_place() {
    let mut store = FilesBuffers::new();
    let text: Vec<char> = "ab".chars().collect();
    store.init_file_buffer("f".to_string(), Some(text));
    store.init_file_buffer("g".to_string(), None);
    {
        let buf = store.get_mut("f".to_string());
        buf.current_column = 2;
        buf.insert_char('c');
    }
    assert_eq!(store.get("f".to_string()).file[0], vec!['a', 'b', 'c']);
    assert!(store.get("g".to_string()).file[0].is_empty());
}

#[test]
fn buffer_get_mut_returns_current_line() {
    let mut buf = buffer_of(vec!["ab", "cd"]);
    buf.current_line = 1;
    let line = buf.get_mut();
    line.push('e');
    assert_eq!(buf.file[1], vec!['c', 'd', 'e']);
    assert_eq!(buf.file[0], vec!['a', 'b']);
}
