use line_editor::buffer::Buffer;

fn lines_of(b: &Buffer) -> Vec<String> {
    let mut out = Vec::new();
    for i in 0..b.line_count() {
        out.push(b.line(i));
    }
    out
}

fn at_end_of_first_line(text: &str) -> Buffer {
    let mut b = Buffer::new_from_file(text.to_string(), "f.txt".to_string());
    for _ in 0..b.line(0).chars().count() {
        b.move_right();
    }
    b
}

#[test]
fn typing_into_empty_buffer() {
    let mut b = Buffer::new_empty();
    b.insert_char('h');
    b.insert_char('i');
    assert_eq!(lines_of(&b), vec!["hi".to_string()]);
    assert_eq!(b.cursor(), (2, 0));
}

#[test]
fn enter_at_end_of_line() {
    let mut b = at_end_of_first_line("hello");
    assert_eq!(b.cursor(), (5, 0));
    b.new_line();
    assert_eq!(lines_of(&b), vec!["hello".to_string(), "".to_string()]);
    assert_eq!(b.cursor(), (0, 1));
}

#[test]
fn backspace_joins_empty_line() {
    let mut b = at_end_of_first_line("hello");
    b.new_line();
    assert_eq!(b.cursor(), (0, 1));
    b.remove_char();
    assert_eq!(lines_of(&b), vec!["hello".to_string()]);
    assert_eq!(b.cursor(), (5, 0));
}

#[test]
fn contents_joined_with_crlf() {
    let b = Buffer::new_from_file("a\nb".to_string(), "test.txt".to_string());
    assert_eq!(lines_of(&b), vec!["a".to_string(), "b".to_string()]);
    assert_eq!(b.contents(), "a\r\nb");
    assert_eq!(b.contents().as_bytes(), b"a\r\nb");
    assert_eq!(b.file_name(), "test.txt");
}

#[test]
fn typing_extends_single_line() {
    let mut b = Buffer::new_from_file("abc".to_string(), "f".to_string());
    b.move_right();
    for c in "xyz".chars() {
        b.insert_char(c);
    }
    assert_eq!(lines_of(&b), vec!["axyzbc".to_string()]);
    assert_eq!(b.cursor(), (4, 0));
}

#[test]
fn typing_at_end_of_line() {
    let mut b = at_end_of_first_line("ab");
    for c in "cdef".chars() {
        b.insert_char(c);
    }
    assert_eq!(lines_of(&b), vec!["abcdef".to_string()]);
    assert_eq!(b.cursor(), (6, 0));
}

#[test]
fn split_then_remove_at_line_end() {
    let mut b = at_end_of_first_line("hello");
    b.new_line();
    b.remove_char();
    assert_eq!(lines_of(&b), vec!["hello".to_string()]);
    assert_eq!(b.cursor(), (5, 0));
}

#[test]
fn split_then_remove_mid_line() {
    let mut b = Buffer::new_from_file("hello".to_string(), "f".to_string());
    b.move_right();
    b.move_right();
    b.new_line();
    assert_eq!(lines_of(&b), vec!["he".to_string(), "llo".to_string()]);
    assert_eq!(b.cursor(), (0, 1));
    b.remove_char();
    assert_eq!(lines_of(&b), vec!["hello".to_string()]);
    assert_eq!(b.cursor(), (5, 0));
}

#[test]
fn move_right_saturates_at_end() {
    let mut b = Buffer::new_from_file("ab\nc\n\nde".to_string(), "f".to_string());
    assert_eq!(b.line_count(), 4);
    let mut seen = Vec::new();
    for _ in 0..20 {
        b.move_right();
        let (x, y) = b.cursor();
        assert!(y < 4);
        assert!(x <= b.line(y).len());
        seen.push((x, y));
    }
    assert_eq!(
        &seen[..8],
        &[(1, 0), (2, 0), (0, 1), (1, 1), (0, 2), (0, 3), (1, 3), (2, 3)]
    );
    assert_eq!(b.cursor(), (2, 3));
}

#[test]
fn save_then_load_round_trip() {
    let b = Buffer::new_from_file("one\r\ntwo\n\nthree\n".to_string(), "f".to_string());
    let lines = lines_of(&b);
    assert_eq!(lines, vec!["one", "two", "", "three"]);
    let again = Buffer::new_from_file(b.contents(), "f".to_string());
    assert_eq!(lines_of(&again), lines);
}

#[test]
fn trailing_empty_line_is_lost_on_round_trip() {
    let mut b = at_end_of_first_line("a");
    b.new_line();
    assert_eq!(b.contents(), "a\r\n");
    let again = Buffer::new_from_file(b.contents(), "f".to_string());
    assert_eq!(lines_of(&again), vec!["a".to_string()]);
}

#[test]
fn reading_accepts_lf_and_crlf() {
    let b = Buffer::new_from_file("x\r\ny\nz\r\n".to_string(), "f".to_string());
    assert_eq!(lines_of(&b), vec!["x", "y", "z"]);
    let b = Buffer::new_from_file("".to_string(), "f".to_string());
    assert_eq!(b.line_count(), 0);
    let b = Buffer::new_from_file("\n".to_string(), "f".to_string());
    assert_eq!(lines_of(&b), vec![""]);
    let b = Buffer::new_from_file("a\n\n".to_string(), "f".to_string());
    assert_eq!(lines_of(&b), vec!["a", ""]);
    let b = Buffer::new_from_file("a\r\r\nb\r".to_string(), "f".to_string());
    assert_eq!(lines_of(&b), vec!["a\r", "b\r"]);
}

#[test]
fn reading_non_ascii() {
    let b = Buffer::new_from_file("héllo\nwörld".to_string(), "f".to_string());
    assert_eq!(lines_of(&b), vec!["héllo", "wörld"]);
    assert_eq!(b.contents(), "héllo\r\nwörld");
}

#[test]
fn new_empty_has_no_lines() {
    let b = Buffer::new_empty();
    assert_eq!(b.line_count(), 0);
    assert_eq!(b.cursor(), (0, 0));
    assert_eq!(b.file_name(), "");
    assert_eq!(b.contents(), "");
}

#[test]
fn new_line_on_empty_buffer() {
    let mut b = Buffer::new_empty();
    b.new_line();
    assert_eq!(lines_of(&b), vec!["", ""]);
    assert_eq!(b.cursor(), (0, 1));
}

#[test]
fn edits_and_moves_on_empty_buffer_do_nothing() {
    let mut b = Buffer::new_empty();
    b.remove_char();
    b.move_left();
    b.move_right();
    b.move_up();
    b.move_down();
    assert_eq!(b.line_count(), 0);
    assert_eq!(b.cursor(), (0, 0));
}

#[test]
fn backspace_at_origin_does_nothing() {
    let mut b = Buffer::new_from_file("ab\ncd".to_string(), "f".to_string());
    b.remove_char();
    assert_eq!(lines_of(&b), vec!["ab", "cd"]);
    assert_eq!(b.cursor(), (0, 0));
}

#[test]
fn backspace_deletes_before_cursor() {
    let mut b = Buffer::new_from_file("abc".to_string(), "f".to_string());
    b.move_right();
    b.move_right();
    b.remove_char();
    assert_eq!(lines_of(&b), vec!["ac"]);
    assert_eq!(b.cursor(), (1, 0));
}

#[test]
fn move_left_wraps_to_previous_line_end() {
    let mut b = Buffer::new_from_file("abc\nd".to_string(), "f".to_string());
    b.move_down();
    assert_eq!(b.cursor(), (0, 1));
    b.move_left();
    assert_eq!(b.cursor(), (3, 0));
    b.move_left();
    assert_eq!(b.cursor(), (2, 0));
}

#[test]
fn move_up_and_down_clamp_column() {
    let mut b = Buffer::new_from_file("abcdef\nab\nabcd".to_string(), "f".to_string());
    for _ in 0..5 {
        b.move_right();
    }
    assert_eq!(b.cursor(), (5, 0));
    b.move_down();
    assert_eq!(b.cursor(), (2, 1));
    b.move_down();
    assert_eq!(b.cursor(), (2, 2));
    b.move_down();
    assert_eq!(b.cursor(), (2, 2));
    b.move_up();
    b.move_up();
    assert_eq!(b.cursor(), (2, 0));
    b.move_up();
    assert_eq!(b.cursor(), (2, 0));
}
