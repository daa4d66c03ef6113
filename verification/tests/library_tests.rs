use sl_liner::cursor::CursorPosition;
use sl_liner::cursor::CursorPosition::{InSpace, InWord, OnWordLeftEdge, OnWordRightEdge};
use sl_liner::editor_rules::divide_words_by_space;
use sl_liner::history::History;
use sl_liner::{Action, Buffer};

fn assert_cursor_pos(s: &str, cursor: usize, expected_pos: CursorPosition) {
    let buf = Buffer::from(s.to_owned());
    let words = divide_words_by_space(&buf);
    let pos = CursorPosition::get(cursor, &words[..]);
    assert!(
        expected_pos == pos,
        "buffer: {:?}, cursor: {}, expected pos: {:?}, pos: {:?}",
        s,
        cursor,
        expected_pos,
        pos
    );
}

#[test]
fn test_get_cursor_position() {
    let tests = &[
        ("hi", 0, OnWordLeftEdge(0)),
        ("hi", 1, InWord(0)),
        ("hi", 2, OnWordRightEdge(0)),
        ("abc  abc", 4, InSpace(Some(0), Some(1))),
        ("abc  abc", 5, OnWordLeftEdge(1)),
        ("abc  abc", 6, InWord(1)),
        ("abc  abc", 8, OnWordRightEdge(1)),
        (" a", 0, InSpace(None, Some(0))),
        ("a ", 2, InSpace(Some(0), None)),
        ("", 0, InSpace(None, None)),
    ];

    for t in tests {
        assert_cursor_pos(t.0, t.1, t.2);
    }
}

fn assert_buffer_actions(start: &str, expected: &str, actions: &[Action]) {
    let mut buf = Buffer::from(start.to_owned());
    for a in actions {
        a.do_on(&mut buf);
    }

    assert_eq!(expected, String::from(buf));
}

#[test]
fn test_buffer_actions() {
    assert_buffer_actions(
        "",
        "h",
        &[
            Action::Insert {
                start: 0,
                text: "hi".chars().collect(),
            },
            Action::Remove {
                start: 1,
                text: ".".chars().collect(),
            },
        ],
    );
}

#[test]
fn test_history_indexing() {
    let mut h = History::new();
    h.push(Buffer::from("a"));
    h.push(Buffer::from("b"));
    h.push(Buffer::from("c"));
    assert_eq!(h.len(), 3);
    assert_eq!(h.get(0).to_string(), "a");
    assert_eq!(h.get(1).to_string(), "b");
    assert_eq!(h.get(2).to_string(), "c");
}

#[test]
fn test_in_memory_history_truncating() {
    let mut h = History::new();
    h.set_max_history_size(2);
    for _ in 0..4 {
        h.push(Buffer::from("a"));
        h.push(Buffer::from("b"));
    }
    assert_eq!(h.len(), 2);
}
