use sl_liner::cursor::Cursor;
use sl_liner::editor_rules::DefaultEditorRules;
use sl_liner::Buffer;

#[test]
fn test_clamp_if_pos_is_past_move() {
    let rules = DefaultEditorRules::default();
    let mut cur = Cursor::new_with_divider(&rules);

    let mut buf = Buffer::from("01234".to_owned());
    cur.move_cursor_to(&buf, 100);
    assert_eq!(5, cur.curr_grapheme);
    cur.reset(&mut buf);
    assert_eq!(0, cur.curr_grapheme);
}

#[test]
fn test_line_widths() {
    let hospital = "\u{1f3e5}";
    let hospital_buf = Buffer::from(hospital.to_owned());
    assert_eq!(hospital_buf.line_widths(), vec![2]);
    let devanagari_grapheme = "\u{924}\u{947}";
    let devanagari_buf = Buffer::from(devanagari_grapheme.to_owned());
    assert_eq!(devanagari_buf.line_widths(), vec![1]);
}

#[test]
fn test_clear_exit_for_female_scientist() {
    let rules = DefaultEditorRules::default();
    let mut cur = Cursor::new_with_divider(&rules);

    let male_scientist = "\u{1f468}\u{200d}\u{1f52c}".to_owned();
    let female_scientist = "\u{1f469}\u{200d}\u{1f52c}".to_owned();
    let mut decluttered_room = String::new();
    decluttered_room.push_str(&female_scientist);
    decluttered_room.push_str(&male_scientist);

    let mut full_room = String::new();
    full_room.push_str(&male_scientist);
    full_room.push_str(&male_scientist);
    full_room.push_str(&male_scientist);
    full_room.push_str(&decluttered_room);
    let mut buf = Buffer::from(full_room.to_owned());

    cur.move_cursor_right(&buf, 1);
    cur.move_cursor_right(&buf, 1);
    cur.move_cursor_right(&buf, 1);
    cur.delete_until_cursor(&mut buf, 0);
    assert_eq!(decluttered_room.to_owned(), String::from(buf));
}

const USEFUL_TOOLS: &str = "\u{1f5a5}\u{fe0f}\u{1d4e2}\u{2aff} \u{1d05e} \
    \u{14ab}\u{1fd8}\u{2a4f}\u{2b31}\u{256d}\u{1f5a5}\u{fe0f}";

#[test]
fn test_insert_chars_between_graphemes() {
    let rules = DefaultEditorRules::default();
    let mut cur = Cursor::new_with_divider(&rules);

    let female_technologist = "\u{1f469}\u{200d}\u{1f4bb}".to_owned();
    let useful_tools = USEFUL_TOOLS;
    let expected = format!(
        "{}{}{}",
        female_technologist, useful_tools, female_technologist
    );
    let mut buf = Buffer::from(format!("{}{}", female_technologist, female_technologist));

    let cs = useful_tools.chars().collect::<Vec<char>>();
    cur.move_cursor_right(&buf, 1);
    cur.insert_chars_after_cursor(&mut buf, &cs[..]);
    assert_eq!(expected, String::from(buf));
}

#[test]
fn test_move_cursor() {
    let rules = DefaultEditorRules::default();
    let mut cur = Cursor::new_with_divider(&rules);

    let female_technologist = "\u{1f469}\u{200d}\u{1f4bb}".to_owned();
    let str = format!("{}{}", female_technologist, female_technologist);
    let mut buf = Buffer::from(str);
    cur.move_cursor_right(&buf, 1);
    cur.delete_before_cursor(&mut buf);
    assert_eq!(female_technologist, String::from(buf));
}

#[test]
fn test_insert_chars_before_cursor() {
    let rules = DefaultEditorRules::default();
    let mut cur = Cursor::new_with_divider(&rules);

    let female_technologist = "\u{1f469}\u{200d}\u{1f4bb}".to_owned();
    let useful_tools = USEFUL_TOOLS;
    let expected = format!("{}{}", useful_tools, female_technologist);
    let mut buf = Buffer::from(female_technologist);

    let cs = useful_tools.chars().collect::<Vec<char>>();
    cur.insert_chars_after_cursor(&mut buf, &cs[..]);
    assert_eq!(expected, String::from(buf));
}

#[test]
fn test_insert_chars_after_cursor() {
    let rules = DefaultEditorRules::default();
    let mut cur = Cursor::new_with_divider(&rules);

    let female_technologist = "\u{1f469}\u{200d}\u{1f4bb}".to_owned();
    let useful_tools = USEFUL_TOOLS;
    let expected = format!("{}{}", female_technologist, useful_tools);
    let mut buf = Buffer::from(female_technologist);

    let cs = useful_tools.chars().collect::<Vec<char>>();
    cur.move_cursor_to_end_of_line(&buf);
    cur.insert_chars_after_cursor(&mut buf, &cs[..]);
    assert_eq!(expected, String::from(buf));
}

#[test]
fn test_clamp_pre_display_adjustments() {
    let rules = DefaultEditorRules::default();
    let mut cur = Cursor::new_with_divider(&rules);

    let buf = Buffer::from("hello".to_owned());
    cur.curr_grapheme = 8;
    cur.pre_display_adjustment(&buf);
    assert_eq!(5, cur.curr_grapheme)
}

#[test]
fn test_yank_and_paste() {
    let rules = DefaultEditorRules::default();
    let mut cur = Cursor::new_with_divider(&rules);

    let mut buf = Buffer::from("hello hello".to_owned());
    cur.move_cursor_to(&buf, 6);
    cur.yank_all_after_cursor(&mut buf);
    cur.insert_around(&mut buf, true, 1);
    assert_eq!(String::from("hello hhelloello"), String::from(buf));
    assert_eq!(11, cur.curr_grapheme)
}
