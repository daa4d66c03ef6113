use sl_liner::Buffer;

fn abcdefg() -> Buffer {
    let mut buf = Buffer::new();
    buf.insert(0, &['a', 'b', 'c', 'd', 'e', 'f', 'g']);
    buf
}

fn removed_abc_in_group() -> Buffer {
    let mut buf = abcdefg();
    buf.start_undo_group();
    buf.remove(0, 1);
    buf.remove(0, 1);
    buf.remove(0, 1);
    buf.end_undo_group();
    buf
}

fn removed_abc_in_nested_group() -> Buffer {
    let mut buf = abcdefg();
    buf.start_undo_group();
    buf.remove(0, 1);
    buf.start_undo_group();
    buf.remove(0, 1);
    buf.end_undo_group();
    buf.remove(0, 1);
    buf.end_undo_group();
    buf
}

#[test]
fn test_insert() {
    let buf = abcdefg();
    assert_eq!(String::from(buf), "abcdefg");
}

#[test]
fn test_truncate_empty() {
    let mut buf = Buffer::new();
    buf.truncate(0);
    assert_eq!(String::from(buf), "");
}

#[test]
fn test_truncate_all() {
    let mut buf = abcdefg();
    buf.truncate(0);
    assert_eq!(String::from(buf), "");
}

#[test]
fn test_truncate_end() {
    let mut buf = abcdefg();
    let end = buf.num_graphemes();
    buf.truncate(end);
    assert_eq!(String::from(buf), "abcdefg");
}

#[test]
fn test_truncate_part() {
    let mut buf = abcdefg();
    buf.truncate(3);
    assert_eq!(String::from(buf), "abc");
}

#[test]
fn test_truncate_empty_undo() {
    let mut buf = Buffer::new();
    buf.truncate(0);
    buf.undo();
    assert_eq!(String::from(buf), "");
}

#[test]
fn test_truncate_all_then_undo() {
    let mut buf = abcdefg();
    buf.truncate(0);
    buf.undo();
    assert_eq!(String::from(buf), "abcdefg");
}

#[test]
fn test_truncate_end_then_undo() {
    let mut buf = abcdefg();
    let end = buf.num_graphemes();
    buf.truncate(end);
    buf.undo();
    assert_eq!(String::from(buf), "abcdefg");
}

#[test]
fn test_truncate_part_then_undo() {
    let mut buf = abcdefg();
    buf.truncate(3);
    buf.undo();
    assert_eq!(String::from(buf), "abcdefg");
}

#[test]
fn test_revert_undo_group() {
    let mut buf = removed_abc_in_group();
    assert_eq!(String::from(buf.clone()), "defg");
    assert!(buf.revert());
    assert_eq!(String::from(buf), "");
}

#[test]
fn test_clear_undo_group() {
    let mut buf = removed_abc_in_group();
    buf.clear_actions();
    buf.revert();
    assert!(buf.undo().is_none());
    assert_eq!(String::from(buf), "defg");
}

#[test]
fn test_undo_group() {
    let mut buf = removed_abc_in_group();
    assert!(buf.undo().is_some());
    assert_eq!(String::from(buf), "abcdefg");
}

#[test]
fn test_redo_group() {
    let mut buf = removed_abc_in_group();
    assert!(buf.undo().is_some());
    assert!(buf.redo().is_some());
    assert_eq!(String::from(buf), "defg");
}

#[test]
fn test_nested_undo_group() {
    let mut buf = removed_abc_in_nested_group();
    assert!(buf.undo().is_some());
    assert_eq!(String::from(buf), "abcdefg");
}

#[test]
fn test_nested_redo_group() {
    let mut buf = removed_abc_in_nested_group();
    assert!(buf.undo().is_some());
    assert!(buf.redo().is_some());
    assert_eq!(String::from(buf), "defg");
}

#[test]
fn test_starts_with() {
    let buf = abcdefg();
    let mut buf2 = Buffer::new();
    buf2.insert(0, &['a', 'b', 'c']);
    assert_eq!(buf.starts_with(&buf2), true);
}

#[test]
fn test_does_not_start_with() {
    let mut buf = Buffer::new();
    buf.insert(0, &['a', 'b', 'c']);
    let mut buf2 = Buffer::new();
    buf2.insert(0, &['a', 'b', 'c']);
    assert_eq!(buf.starts_with(&buf2), false);
}

#[test]
fn test_is_not_match2() {
    let buf = abcdefg();
    let mut buf2 = Buffer::new();
    buf2.insert(0, &['x', 'y', 'z']);
    assert_eq!(buf.starts_with(&buf2), false);
}

#[test]
fn test_partial_eq() {
    let buf = abcdefg();
    let mut buf2 = Buffer::new();
    buf2.insert(0, &['x', 'y', 'z']);
    assert_eq!(buf.eq(&buf2), false);
    let mut buf3 = Buffer::new();
    buf3.insert(0, &['x', 'y', 'z']);
    assert_eq!(buf2.eq(&buf3), true);
}

#[test]
fn test_buffer_to_string_ignore_newline() {
    let mut buf = Buffer::new();
    buf.insert(0, &['h', 'e', '\\', '\n', 'l', 'l', 'o']);
    assert_eq!("hello".to_owned(), String::from(buf));
}

#[test]
fn test_contains() {
    let buf = abcdefg();
    let mut buf2 = Buffer::new();
    buf2.insert(0, &['a', 'b', 'c']);
    assert_eq!(buf.contains(&buf2), true);
    let mut buf2 = Buffer::new();
    buf2.insert(0, &['c', 'd', 'e']);
    assert_eq!(buf.contains(&buf2), true);
    let mut buf2 = Buffer::new();
    buf2.insert(0, &['e', 'f', 'g']);
    assert_eq!(buf.contains(&buf2), true);
    let empty_buf = Buffer::default();
    assert_eq!(buf.contains(&empty_buf), false);
}

#[test]
fn test_does_not_contain() {
    let buf = abcdefg();
    let mut buf2 = Buffer::new();
    buf2.insert(0, &['x', 'b', 'c']);
    assert_eq!(buf.contains(&buf2), false);
    let mut buf2 = Buffer::new();
    buf2.insert(0, &['a', 'b', 'd']);
    assert_eq!(buf.contains(&buf2), false);
}

#[test]
fn test_print() {
    let buf = abcdefg();
    let mut out: Vec<u8> = vec![];
    buf.print(&mut out);
    assert_eq!(out.len(), 7);
    let mut str = String::new();
    for x in out {
        str.push(x as char);
    }
    assert_eq!(str, String::from("abcdefg"));
}

#[test]
fn test_print_rest() {
    let buf = abcdefg();
    let mut buf2 = Buffer::new();
    buf2.insert(0, &['a', 'b', 'c']);
    let mut out: Vec<u8> = vec![];
    buf.print_rest(&mut out, buf2.byte_count());
    assert_eq!(out.len(), 4);
}

#[test]
fn test_append() {
    let orig = String::from("hello string स्ते");
    let mut buf0 = Buffer::from(orig.clone());
    let append = "स्तेa";
    let buf1 = Buffer::from(append);
    buf0.append_buffer(&buf1);
    assert_eq!(Buffer::from(orig + append), buf0);
}

#[test]
fn test_first() {
    let s = "स्ते hello string";
    let buf = Buffer::from(s);
    let first = buf.first();
    assert!(first.is_some());
    let s = "स्";
    assert_eq!(s, first.unwrap());
}

#[test]
fn test_push() {
    let s = "hello string स्ते";
    let mut buf = Buffer::from(s);
    buf.push('a');
    let last_arg = buf.last_arg();
    assert!(last_arg.is_some());
    let s = "स्तेa";
    assert_eq!(String::from(s), last_arg.unwrap());
    let buf = Buffer::from(s);
    let v = buf.as_bytes();
    assert_eq!(
        vec![224, 164, 184, 224, 165, 141, 224, 164, 164, 224, 165, 135, 97],
        v
    );
}

#[test]
fn test_range_chars() {
    let orig = "(“न” “म” “स्” “ते”)";
    let buf = Buffer::from(orig);
    let trim = "(“न” “म” “स्” “";
    let str: String = buf.range_graphemes(0, 14).into();
    assert_eq!(trim, str);
}

#[test]
fn test_range_graphemes_on_empty() {
    let orig = "";
    let buf = Buffer::from(orig);
    let str: String = buf.range_graphemes(5, 14).into();
    assert_eq!(orig, str);
}

#[test]
fn undo_of_multibyte_insert_restores_the_text() {
    let mut buf = Buffer::from("ab");
    buf.insert_str(0, "é");
    assert_eq!(buf.to_string(), "éab");
    assert_eq!(buf.undo(), Some(0));
    assert_eq!(buf.to_string(), "ab");
}

#[test]
fn redo_of_multibyte_remove_removes_one_grapheme() {
    let mut buf = Buffer::from("éab");
    buf.remove(0, 1);
    assert_eq!(buf.to_string(), "ab");
    assert!(buf.undo().is_some());
    assert_eq!(buf.to_string(), "éab");
    assert!(buf.redo().is_some());
    assert_eq!(buf.to_string(), "ab");
}
