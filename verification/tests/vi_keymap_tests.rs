use sl_liner::complete::EmptyCompleter;
use sl_liner::editor::Editor;
use sl_liner::editor_rules::{DefaultEditorRules, DefaultNewlineRule, DefaultWordDivideRule};
use sl_liner::history::History;
use sl_liner::keymap::{Key, KeyCode, KeyMap, KeyMod};
use sl_liner::prompt::Prompt;
use sl_liner::Buffer;
use sl_liner::keymap::vi::Vi;

type Rules = DefaultEditorRules<DefaultWordDivideRule, DefaultNewlineRule>;

/// The time the keys are pressed at, in milliseconds.
const NOW: u128 = 1;

fn simulate_key_codes<'a, 'b, M: KeyMap, I>(
    keymap: &mut M,
    ed: &mut Editor<'a, Rules>,
    keys: I,
) -> bool
where
    I: IntoIterator<Item = &'b KeyCode>,
{
    for k in keys {
        if keymap
            .handle_key(
                Key {
                    code: *k,
                    mods: None,
                },
                ed,
                &mut EmptyCompleter::new(),
                NOW,
            )
            .unwrap()
        {
            return true;
        }
    }

    false
}

fn simulate_keys<'a, 'b, M: KeyMap, I>(keymap: &mut M, ed: &mut Editor<'a, Rules>, keys: I) -> bool
where
    I: IntoIterator<Item = &'b Key>,
{
    for k in keys {
        if keymap
            .handle_key(*k, ed, &mut EmptyCompleter::new(), NOW)
            .unwrap()
        {
            return true;
        }
    }

    false
}

#[test]
fn vi_enter_is_done() {
    let history = History::new();
    let rules = DefaultEditorRules::default();
    let mut ed = Editor::new(Prompt::from("prompt"), history, &rules);
    let mut map = Vi::new();
    map.init(&mut ed);
    ed.insert_str_after_cursor("done");
    assert_eq!(ed.cursor(), 4);

    assert!(simulate_keys(
        &mut map,
        &mut ed,
        [Key::new(KeyCode::Char('\n')),].iter()
    ));

    assert_eq!(ed.cursor(), 4);
    assert_eq!(String::from(ed), "done");
}

#[test]
fn vi_move_cursor_left() {
    let history = History::new();
    let rules = DefaultEditorRules::default();
    let mut ed = Editor::new(Prompt::from("prompt"), history, &rules);
    let mut map = Vi::new();
    map.init(&mut ed);
    ed.insert_str_after_cursor("let");
    assert_eq!(ed.cursor(), 3);

    simulate_keys(
        &mut map,
        &mut ed,
        [Key::new(KeyCode::Left), Key::new(KeyCode::Char('f'))].iter(),
    );

    assert_eq!(ed.cursor(), 3);
    assert_eq!(String::from(ed), "left");
}

#[test]
fn vi_cursor_movement() {
    let history = History::new();
    let rules = DefaultEditorRules::default();
    let mut ed = Editor::new(Prompt::from("prompt"), history, &rules);
    let mut map = Vi::new();
    map.init(&mut ed);
    ed.insert_str_after_cursor("right");
    assert_eq!(ed.cursor(), 5);

    simulate_keys(
        &mut map,
        &mut ed,
        [
            Key::new(KeyCode::Left),
            Key::new(KeyCode::Left),
            Key::new(KeyCode::Right),
        ]
        .iter(),
    );

    assert_eq!(ed.cursor(), 4);
}

#[test]
fn move_cursor_start_end() {
    let history = History::new();
    let rules = DefaultEditorRules::default();
    let mut ed = Editor::new(Prompt::from("prompt"), history, &rules);
    let mut map = Vi::new();
    map.init(&mut ed);
    let test_str = "let there be tests";
    ed.insert_str_after_cursor(test_str);
    assert_eq!(ed.cursor(), test_str.len());

    simulate_keys(
        &mut map,
        &mut ed,
        [Key::new(KeyCode::Esc), Key::new(KeyCode::Char('^'))].iter(),
    );
    assert_eq!(ed.cursor(), 0);

    simulate_keys(&mut map, &mut ed, [Key::new(KeyCode::Char('^'))].iter());
    assert_eq!(ed.cursor(), 0);

    simulate_keys(&mut map, &mut ed, [Key::new(KeyCode::Char('$'))].iter());
    assert_eq!(ed.cursor(), test_str.len() - 1);

    simulate_keys(&mut map, &mut ed, [Key::new(KeyCode::Char('$'))].iter());
    assert_eq!(ed.cursor(), test_str.len() - 1);
}

#[test]
fn vi_initial_insert() {
    let history = History::new();
    let rules = DefaultEditorRules::default();
    let mut ed = Editor::new(Prompt::from("prompt"), history, &rules);
    let mut map = Vi::new();
    map.init(&mut ed);

    simulate_keys(
        &mut map,
        &mut ed,
        [
            Key::new(KeyCode::Char('i')),
            Key::new(KeyCode::Char('n')),
            Key::new(KeyCode::Char('s')),
            Key::new(KeyCode::Char('e')),
            Key::new(KeyCode::Char('r')),
            Key::new(KeyCode::Char('t')),
        ]
        .iter(),
    );

    assert_eq!(ed.cursor(), 6);
    assert_eq!(String::from(ed), "insert");
}

#[test]
fn vi_left_right_movement() {
    let history = History::new();
    let rules = DefaultEditorRules::default();
    let mut ed = Editor::new(Prompt::from("prompt"), history, &rules);
    let mut map = Vi::new();
    map.init(&mut ed);
    ed.insert_str_after_cursor("data");
    assert_eq!(ed.cursor(), 4);

    simulate_key_codes(&mut map, &mut ed, [KeyCode::Left].iter());
    assert_eq!(ed.cursor(), 3);
    simulate_key_codes(&mut map, &mut ed, [KeyCode::Right].iter());
    assert_eq!(ed.cursor(), 4);

    // switching from insert mode moves the cursor left
    simulate_key_codes(&mut map, &mut ed, [KeyCode::Esc, KeyCode::Left].iter());
    assert_eq!(ed.cursor(), 2);
    simulate_key_codes(&mut map, &mut ed, [KeyCode::Right].iter());
    assert_eq!(ed.cursor(), 3);

    simulate_key_codes(&mut map, &mut ed, [KeyCode::Char('h')].iter());
    assert_eq!(ed.cursor(), 2);
    simulate_key_codes(&mut map, &mut ed, [KeyCode::Char('l')].iter());
    assert_eq!(ed.cursor(), 3);
}

#[test]
/// Shouldn't be able to move past the last char in vi normal mode
fn vi_no_eol() {
    let history = History::new();
    let rules = DefaultEditorRules::default();
    let mut ed = Editor::new(Prompt::from("prompt"), history, &rules);
    let mut map = Vi::new();
    map.init(&mut ed);
    ed.insert_str_after_cursor("data");
    assert_eq!(ed.cursor(), 4);

    simulate_key_codes(&mut map, &mut ed, [KeyCode::Esc].iter());
    assert_eq!(ed.cursor(), 3);

    simulate_key_codes(&mut map, &mut ed, [KeyCode::Right, KeyCode::Right].iter());
    assert_eq!(ed.cursor(), 3);

    // in insert mode, we can move past the last char, but no further
    simulate_key_codes(
        &mut map,
        &mut ed,
        [KeyCode::Char('i'), KeyCode::Right, KeyCode::Right].iter(),
    );
    assert_eq!(ed.cursor(), 4);
}

#[test]
/// Cursor moves left when exiting insert mode.
fn vi_switch_from_insert() {
    let history = History::new();
    let rules = DefaultEditorRules::default();
    let mut ed = Editor::new(Prompt::from("prompt"), history, &rules);
    let mut map = Vi::new();
    map.init(&mut ed);
    ed.insert_str_after_cursor("data");
    assert_eq!(ed.cursor(), 4);

    simulate_key_codes(&mut map, &mut ed, [KeyCode::Esc].iter());
    assert_eq!(ed.cursor(), 3);

    simulate_keys(
        &mut map,
        &mut ed,
        [
            Key::new(KeyCode::Char('i')),
            Key::new(KeyCode::Esc),
            Key::new(KeyCode::Char('i')),
            //Ctrl+[ is the same as escape
            Key::new_mod(KeyCode::Char('['), KeyMod::Ctrl),
            Key::new(KeyCode::Char('i')),
            Key::new(KeyCode::Esc),
            Key::new(KeyCode::Char('i')),
            Key::new_mod(KeyCode::Char('['), KeyMod::Ctrl),
        ]
        .iter(),
    );
    assert_eq!(ed.cursor(), 0);
}

#[test]
fn vi_normal_history_cursor_eol() {
    let mut history = History::new();
    history.push(Buffer::from("data hostory"));
    history.push(Buffer::from("data history"));
    let rules = DefaultEditorRules::default();
    let mut ed = Editor::new(Prompt::from("prompt"), history, &rules);
    let mut map = Vi::new();
    map.init(&mut ed);
    ed.insert_str_after_cursor("data");
    assert_eq!(ed.cursor(), 4);

    simulate_key_codes(&mut map, &mut ed, [KeyCode::Up].iter());
    assert_eq!(ed.cursor(), 12);

    // in normal mode, make sure we don't end up past the last char
    simulate_keys(
        &mut map,
        &mut ed,
        [
            Key::new_mod(KeyCode::Char('['), KeyMod::Ctrl),
            Key::new(KeyCode::Up),
        ]
        .iter(),
    );
    assert_eq!(ed.cursor(), 11);
}

#[test]
fn vi_normal_history() {
    let mut history = History::new();
    history.push(Buffer::from("data second"));
    history.push(Buffer::from("skip1"));
    history.push(Buffer::from("data one"));
    history.push(Buffer::from("skip2"));
    let rules = DefaultEditorRules::default();
    let mut ed = Editor::new(Prompt::from("prompt"), history, &rules);
    let mut map = Vi::new();
    map.init(&mut ed);
    ed.insert_str_after_cursor("data");
    assert_eq!(ed.cursor(), 4);

    simulate_key_codes(&mut map, &mut ed, [KeyCode::Up].iter());
    assert_eq!(ed.cursor(), 8);

    // in normal mode, make sure we don't end up past the last char
    simulate_keys(
        &mut map,
        &mut ed,
        [
            Key::new_mod(KeyCode::Char('['), KeyMod::Ctrl),
            Key::new(KeyCode::Char('k')),
        ]
        .iter(),
    );
    assert_eq!(ed.cursor(), 10);
}

#[test]
fn vi_search_history() {
    // Test incremental search as well as vi binding in search mode.
    let mut history = History::new();
    history.push(Buffer::from("data pat second"));
    history.push(Buffer::from("skip1"));
    history.push(Buffer::from("data pat one"));
    history.push(Buffer::from("skip2"));
    let rules = DefaultEditorRules::default();
    let mut ed = Editor::new(Prompt::from("prompt"), history, &rules);
    let mut map = Vi::new();
    map.init(&mut ed);
    ed.insert_str_after_cursor("pat");
    assert_eq!(ed.cursor(), 3);
    simulate_keys(
        &mut map,
        &mut ed,
        [
            Key::new_mod(KeyCode::Char('r'), KeyMod::Ctrl),
            Key::new(KeyCode::Right),
        ]
        .iter(),
    );
    assert_eq!(ed.cursor(), 12);

    ed.delete_all_before_cursor();
    assert_eq!(ed.cursor(), 0);
    simulate_keys(
        &mut map,
        &mut ed,
        [
            Key::new_mod(KeyCode::Char('r'), KeyMod::Ctrl),
            Key::new(KeyCode::Char('p')),
            Key::new(KeyCode::Char('a')),
            Key::new(KeyCode::Char('t')),
            Key::new_mod(KeyCode::Char('['), KeyMod::Ctrl),
            Key::new(KeyCode::Char('k')),
            Key::new_mod(KeyCode::Char('f'), KeyMod::Ctrl),
        ]
        .iter(),
    );
    assert_eq!(ed.cursor(), 14);

    simulate_keys(
        &mut map,
        &mut ed,
        [
            Key::new_mod(KeyCode::Char('['), KeyMod::Ctrl),
            Key::new(KeyCode::Char('u')),
            Key::new(KeyCode::Char('i')),
        ]
        .iter(),
    );
    assert_eq!(ed.cursor(), 0);
    simulate_keys(
        &mut map,
        &mut ed,
        [
            Key::new_mod(KeyCode::Char('s'), KeyMod::Ctrl),
            Key::new(KeyCode::Char('p')),
            Key::new(KeyCode::Char('a')),
            Key::new(KeyCode::Char('t')),
            Key::new_mod(KeyCode::Char('f'), KeyMod::Ctrl),
        ]
        .iter(),
    );
    assert_eq!(ed.cursor(), 15);

    ed.delete_all_before_cursor();
    assert_eq!(ed.cursor(), 0);
    ed.insert_str_after_cursor("pat");
    assert_eq!(ed.cursor(), 3);
    simulate_keys(
        &mut map,
        &mut ed,
        [
            Key::new_mod(KeyCode::Char('s'), KeyMod::Ctrl),
            Key::new_mod(KeyCode::Char('['), KeyMod::Ctrl),
            Key::new(KeyCode::Char('j')),
            Key::new(KeyCode::Right),
        ]
        .iter(),
    );
    assert_eq!(ed.cursor(), 11);
}

#[test]
fn vi_normal_delete() {
    let history = History::new();
    let rules = DefaultEditorRules::default();
    let mut ed = Editor::new(Prompt::from("prompt"), history, &rules);
    let mut map = Vi::new();
    map.init(&mut ed);
    ed.insert_str_after_cursor("data");
    assert_eq!(ed.cursor(), 4);

    simulate_key_codes(
        &mut map,
        &mut ed,
        [
            KeyCode::Esc,
            KeyCode::Char('0'),
            KeyCode::Delete,
            KeyCode::Char('x'),
        ]
        .iter(),
    );
    assert_eq!(ed.cursor(), 0);
    assert_eq!(String::from(ed), "ta");
}

#[test]
fn vi_change_with_text_objects() {
    let history = History::new();
    let rules = DefaultEditorRules::default();
    let mut ed = Editor::new(Prompt::from("prompt"), history, &rules);
    let mut map = Vi::new();
    map.init(&mut ed);
    ed.insert_str_after_cursor("data data data");
    assert_eq!(ed.cursor(), 14);
    simulate_key_codes(
        &mut map,
        &mut ed,
        [
            KeyCode::Esc,
            KeyCode::Char('0'),
            KeyCode::Char('c'),
            KeyCode::Char('i'),
            KeyCode::Char('w'),
            KeyCode::Char('h'),
            KeyCode::Char('i'),
            KeyCode::Esc,
        ]
        .iter(),
    );
    assert_eq!(ed.cursor(), 1);
    assert_eq!(String::from(ed), "hi data data");
}

#[test]
fn vi_change_paste_with_text_objects() {
    let history = History::new();
    let rules = DefaultEditorRules::default();
    let mut ed = Editor::new(Prompt::from("prompt"), history, &rules);
    let mut map = Vi::new();
    map.init(&mut ed);
    ed.insert_str_after_cursor("data data data");
    assert_eq!(ed.cursor(), 14);

    simulate_key_codes(
        &mut map,
        &mut ed,
        [
            KeyCode::Esc,
            KeyCode::Char('0'),
            KeyCode::Char('c'),
            KeyCode::Char('i'),
            KeyCode::Char('w'),
            KeyCode::Char('h'),
            KeyCode::Char('i'),
            KeyCode::Esc,
            KeyCode::Char('p'),
        ]
        .iter(),
    );
    assert_eq!(ed.cursor(), 5);
    assert_eq!(String::from(ed), "hidata data data");
}

#[test]
fn vi_delete_paste_with_text_objects() {
    let history = History::new();
    let rules = DefaultEditorRules::default();
    let mut ed = Editor::new(Prompt::from("prompt"), history, &rules);
    let mut map = Vi::new();
    map.init(&mut ed);
    ed.insert_str_after_cursor("data data data");
    assert_eq!(ed.cursor(), 14);

    simulate_key_codes(
        &mut map,
        &mut ed,
        [
            KeyCode::Esc,
            KeyCode::Char('0'),
            KeyCode::Char('d'),
            KeyCode::Char('i'),
            KeyCode::Char('w'),
            KeyCode::Char('p'),
        ]
        .iter(),
    );
    assert_eq!(ed.cursor(), 4);
    assert_eq!(String::from(ed), " datadata data");
}

#[test]
fn vi_delete_with_text_objects() {
    let history = History::new();
    let rules = DefaultEditorRules::default();
    let mut ed = Editor::new(Prompt::from("prompt"), history, &rules);
    let mut map = Vi::new();
    map.init(&mut ed);
    ed.insert_str_after_cursor("data data data");
    assert_eq!(ed.cursor(), 14);

    simulate_key_codes(
        &mut map,
        &mut ed,
        [
            KeyCode::Esc,
            KeyCode::Char('2'),
            KeyCode::Char('b'),
            KeyCode::Char('d'),
            KeyCode::Char('a'),
            KeyCode::Char('w'),
        ]
        .iter(),
    );
    assert_eq!(ed.cursor(), 5);
    assert_eq!(String::from(ed), "data data");
}

#[test]
fn vi_delete_with_multi_paste() {
    let history = History::new();
    let rules = DefaultEditorRules::default();
    let mut ed = Editor::new(Prompt::from("prompt"), history, &rules);
    let mut map = Vi::new();
    map.init(&mut ed);
    ed.insert_str_after_cursor("data data data");
    assert_eq!(ed.cursor(), 14);

    simulate_key_codes(
        &mut map,
        &mut ed,
        [
            KeyCode::Esc,
            KeyCode::Char('2'),
            KeyCode::Char('b'),
            KeyCode::Char('d'),
            KeyCode::Char('w'),
            KeyCode::Char('2'),
            KeyCode::Char('p'),
        ]
        .iter(),
    );
    assert_eq!(ed.cursor(), 15);
    assert_eq!(String::from(ed), "data ddata data ata");
}

#[test]
fn vi_delete_with_multi_paste_backwards() {
    let history = History::new();
    let rules = DefaultEditorRules::default();
    let mut ed = Editor::new(Prompt::from("prompt"), history, &rules);
    let mut map = Vi::new();
    map.init(&mut ed);
    ed.insert_str_after_cursor("data data data");
    assert_eq!(ed.cursor(), 14);

    simulate_key_codes(
        &mut map,
        &mut ed,
        [
            KeyCode::Esc,
            KeyCode::Char('2'),
            KeyCode::Char('b'),
            KeyCode::Char('d'),
            KeyCode::Char('w'),
            KeyCode::Char('4'),
            KeyCode::Char('P'),
        ]
        .iter(),
    );
    assert_eq!(ed.cursor(), 24);
    assert_eq!(String::from(ed), "data data data data data data");
}

#[test]
fn vi_yank_paste_with_text_objects() {
    let history = History::new();
    let rules = DefaultEditorRules::default();
    let mut ed = Editor::new(Prompt::from("prompt"), history, &rules);
    let mut map = Vi::new();
    map.init(&mut ed);
    ed.insert_str_after_cursor("data data data");
    assert_eq!(ed.cursor(), 14);

    simulate_key_codes(
        &mut map,
        &mut ed,
        [
            KeyCode::Esc,
            KeyCode::Char('0'),
            KeyCode::Char('w'),
            KeyCode::Char('y'),
            KeyCode::Char('a'),
            KeyCode::Char('w'),
            KeyCode::Char('P'),
        ]
        .iter(),
    );
    assert_eq!(ed.cursor(), 9);
    assert_eq!(String::from(ed), "data data data data");
}

#[test]
fn vi_2delete_paste_with_text_object_aw() {
    let history = History::new();
    let rules = DefaultEditorRules::default();
    let mut ed = Editor::new(Prompt::from("prompt"), history, &rules);
    let mut map = Vi::new();
    map.init(&mut ed);
    ed.insert_str_after_cursor("data data data");
    assert_eq!(ed.cursor(), 14);

    simulate_key_codes(
        &mut map,
        &mut ed,
        [
            KeyCode::Esc,
            KeyCode::Char('0'),
            KeyCode::Char('2'),
            KeyCode::Char('d'),
            KeyCode::Char('a'),
            KeyCode::Char('w'),
            KeyCode::Char('P'),
        ]
        .iter(),
    );
    assert_eq!(ed.cursor(), 9);
    assert_eq!(String::from(ed), "data data data");
}

#[test]
fn vi_2delete_paste_with_text_object_iw() {
    let history = History::new();
    let rules = DefaultEditorRules::default();
    let mut ed = Editor::new(Prompt::from("prompt"), history, &rules);
    let mut map = Vi::new();
    map.init(&mut ed);
    ed.insert_str_after_cursor("data data data");
    assert_eq!(ed.cursor(), 14);

    simulate_key_codes(
        &mut map,
        &mut ed,
        [
            KeyCode::Esc,
            KeyCode::Char('0'),
            KeyCode::Char('2'),
            KeyCode::Char('d'),
            KeyCode::Char('i'),
            KeyCode::Char('w'),
            KeyCode::Char('P'),
        ]
        .iter(),
    );
    assert_eq!(ed.cursor(), 4);
    assert_eq!(String::from(ed), "data data data");
}

#[test]
fn vi_2change_paste_with_text_object_aw() {
    let history = History::new();
    let rules = DefaultEditorRules::default();
    let mut ed = Editor::new(Prompt::from("prompt"), history, &rules);
    let mut map = Vi::new();
    map.init(&mut ed);
    ed.insert_str_after_cursor("data data data");
    assert_eq!(ed.cursor(), 14);

    simulate_key_codes(
        &mut map,
        &mut ed,
        [
            KeyCode::Esc,
            KeyCode::Char('0'),
            KeyCode::Char('2'),
            KeyCode::Char('c'),
            KeyCode::Char('a'),
            KeyCode::Char('w'),
            KeyCode::Char('h'),
            KeyCode::Char('i'),
            KeyCode::Esc,
            KeyCode::Char('P'),
        ]
        .iter(),
    );
    assert_eq!(ed.cursor(), 10);
    assert_eq!(String::from(ed), "hdata data idata");
}

#[test]
fn vi_2change_paste_with_text_object_iw() {
    let history = History::new();
    let rules = DefaultEditorRules::default();
    let mut ed = Editor::new(Prompt::from("prompt"), history, &rules);
    let mut map = Vi::new();
    map.init(&mut ed);
    ed.insert_str_after_cursor("data data data");
    assert_eq!(ed.cursor(), 14);

    simulate_key_codes(
        &mut map,
        &mut ed,
        [
            KeyCode::Esc,
            KeyCode::Char('0'),
            KeyCode::Char('2'),
            KeyCode::Char('c'),
            KeyCode::Char('i'),
            KeyCode::Char('w'),
            KeyCode::Char('h'),
            KeyCode::Char('i'),
            KeyCode::Esc,
            KeyCode::Char('p'),
        ]
        .iter(),
    );
    assert_eq!(ed.cursor(), 6);
    assert_eq!(String::from(ed), "hidata data data");
}

#[test]
fn vi_3yank_paste_with_text_object_aw() {
    let history = History::new();
    let rules = DefaultEditorRules::default();
    let mut ed = Editor::new(Prompt::from("prompt"), history, &rules);
    let mut map = Vi::new();
    map.init(&mut ed);
    ed.insert_str_after_cursor("data data data");
    assert_eq!(ed.cursor(), 14);

    simulate_key_codes(
        &mut map,
        &mut ed,
        [
            KeyCode::Esc,
            KeyCode::Char('0'),
            KeyCode::Char('3'),
            KeyCode::Char('y'),
            KeyCode::Char('a'),
            KeyCode::Char('w'),
            KeyCode::Char('P'),
        ]
        .iter(),
    );
    assert_eq!(ed.cursor(), 13);
    assert_eq!(String::from(ed), "data data datadata data data");
}

#[test]
fn vi_2yank_paste_with_text_object_iw() {
    let history = History::new();
    let rules = DefaultEditorRules::default();
    let mut ed = Editor::new(Prompt::from("prompt"), history, &rules);
    let mut map = Vi::new();
    map.init(&mut ed);
    ed.insert_str_after_cursor("data data data");
    assert_eq!(ed.cursor(), 14);

    simulate_key_codes(
        &mut map,
        &mut ed,
        [
            KeyCode::Esc,
            KeyCode::Char('0'),
            KeyCode::Char('2'),
            KeyCode::Char('y'),
            KeyCode::Char('i'),
            KeyCode::Char('w'),
            KeyCode::Char('p'),
        ]
        .iter(),
    );
    assert_eq!(ed.cursor(), 5);
    assert_eq!(String::from(ed), "ddata ata data data");
}

#[test]
fn vi_4yank_paste_with_text_object_iw() {
    let history = History::new();
    let rules = DefaultEditorRules::default();
    let mut ed = Editor::new(Prompt::from("prompt"), history, &rules);
    let mut map = Vi::new();
    map.init(&mut ed);
    ed.insert_str_after_cursor("data data data");
    assert_eq!(ed.cursor(), 14);

    simulate_key_codes(
        &mut map,
        &mut ed,
        [
            KeyCode::Esc,
            KeyCode::Char('0'),
            KeyCode::Char('4'),
            KeyCode::Char('y'),
            KeyCode::Char('i'),
            KeyCode::Char('w'),
            KeyCode::Char('P'),
        ]
        .iter(),
    );
    assert_eq!(ed.cursor(), 9);
    assert_eq!(String::from(ed), "data data data data data");
}

#[test]
fn vi_delete_paste_multi_key_esc_sequence() {
    let history = History::new();
    let rules = DefaultEditorRules::default();
    let mut ed = Editor::new(Prompt::from("prompt"), history, &rules);
    let mut map = Vi::new();
    map.init(&mut ed);
    map.set_esc_sequence('j', 'k', 1000u32);
    ed.insert_str_after_cursor("data");
    assert_eq!(ed.cursor(), 4);

    simulate_key_codes(
        &mut map,
        &mut ed,
        [
            KeyCode::Esc,
            KeyCode::Char('0'),
            KeyCode::Delete,
            KeyCode::Char('x'),
            KeyCode::Char('p'),
            KeyCode::Char('p'),
            KeyCode::Char('p'),
            KeyCode::Char('i'),
            KeyCode::Char('j'),
            KeyCode::Char('k'),
            KeyCode::Char('p'),
            KeyCode::Char('p'),
        ]
        .iter(),
    );
    assert_eq!(ed.cursor(), 4);
    assert_eq!(String::from(ed), "taaaaaa");
}

#[test]
fn vi_delete_paste() {
    let history = History::new();
    let rules = DefaultEditorRules::default();
    let mut ed = Editor::new(Prompt::from("prompt"), history, &rules);
    let mut map = Vi::new();
    map.init(&mut ed);
    ed.insert_str_after_cursor("data");
    assert_eq!(ed.cursor(), 4);

    simulate_key_codes(
        &mut map,
        &mut ed,
        [
            KeyCode::Esc,
            KeyCode::Char('0'),
            KeyCode::Delete,
            KeyCode::Char('x'),
            KeyCode::Char('p'),
            KeyCode::Char('p'),
            KeyCode::Char('p'),
        ]
        .iter(),
    );
    assert_eq!(ed.cursor(), 3);
    assert_eq!(String::from(ed), "taaaa");
}

#[test]
fn vi_yank_right() {
    let history = History::new();
    let rules = DefaultEditorRules::default();
    let mut ed = Editor::new(Prompt::from("prompt"), history, &rules);
    let mut map = Vi::new();
    map.init(&mut ed);
    ed.insert_str_after_cursor("data");
    assert_eq!(ed.cursor(), 4);

    simulate_key_codes(
        &mut map,
        &mut ed,
        [
            KeyCode::Esc,
            KeyCode::Char('0'),
            KeyCode::Char('y'),
            KeyCode::Right,
            KeyCode::Char('P'),
        ]
        .iter(),
    );
    assert_eq!(ed.cursor(), 0);
    assert_eq!(String::from(ed), "ddata");
}

#[test]
fn vi_yank_2h() {
    let history = History::new();
    let rules = DefaultEditorRules::default();
    let mut ed = Editor::new(Prompt::from("prompt"), history, &rules);
    let mut map = Vi::new();
    map.init(&mut ed);
    ed.insert_str_after_cursor("data");
    assert_eq!(ed.cursor(), 4);

    simulate_key_codes(
        &mut map,
        &mut ed,
        [
            KeyCode::Esc,
            KeyCode::Char('y'),
            KeyCode::Char('2'),
            KeyCode::Char('h'),
            KeyCode::Char('P'),
        ]
        .iter(),
    );
    assert_eq!(ed.cursor(), 2);
    assert_eq!(String::from(ed), "datata");
}

#[test]
fn vi_2d_l() {
    let history = History::new();
    let rules = DefaultEditorRules::default();
    let mut ed = Editor::new(Prompt::from("prompt"), history, &rules);
    let mut map = Vi::new();
    map.init(&mut ed);
    ed.insert_str_after_cursor("data");
    assert_eq!(ed.cursor(), 4);

    simulate_key_codes(
        &mut map,
        &mut ed,
        [
            KeyCode::Esc,
            KeyCode::Char('0'),
            KeyCode::Char('2'),
            KeyCode::Char('d'),
            KeyCode::Char('l'),
            KeyCode::Char('P'),
        ]
        .iter(),
    );
    assert_eq!(ed.cursor(), 1);
    assert_eq!(String::from(ed), "data");
}

#[test]
fn vi_yank_h() {
    let history = History::new();
    let rules = DefaultEditorRules::default();
    let mut ed = Editor::new(Prompt::from("prompt"), history, &rules);
    let mut map = Vi::new();
    map.init(&mut ed);
    ed.insert_str_after_cursor("data");
    assert_eq!(ed.cursor(), 4);

    simulate_key_codes(
        &mut map,
        &mut ed,
        [
            KeyCode::Esc,
            KeyCode::Char('y'),
            KeyCode::Char('h'),
            KeyCode::Char('P'),
        ]
        .iter(),
    );
    assert_eq!(ed.cursor(), 2);
    assert_eq!(String::from(ed), "datta");
}

#[test]
fn vi_yank_upper_f() {
    let history = History::new();
    let rules = DefaultEditorRules::default();
    let mut ed = Editor::new(Prompt::from("prompt"), history, &rules);
    let mut map = Vi::new();
    map.init(&mut ed);
    ed.insert_str_after_cursor("data");
    assert_eq!(ed.cursor(), 4);

    simulate_key_codes(
        &mut map,
        &mut ed,
        [
            KeyCode::Esc,
            KeyCode::Char('y'),
            KeyCode::Char('F'),
            KeyCode::Char('d'),
            KeyCode::Char('p'),
        ]
        .iter(),
    );
    assert_eq!(ed.cursor(), 3);
    assert_eq!(String::from(ed), "ddatata");
}

#[test]
fn vi_yank_f() {
    let history = History::new();
    let rules = DefaultEditorRules::default();
    let mut ed = Editor::new(Prompt::from("prompt"), history, &rules);
    let mut map = Vi::new();
    map.init(&mut ed);
    ed.insert_str_after_cursor("data");
    assert_eq!(ed.cursor(), 4);

    simulate_key_codes(
        &mut map,
        &mut ed,
        [
            KeyCode::Esc,
            KeyCode::Char('0'),
            KeyCode::Char('y'),
            KeyCode::Char('f'),
            KeyCode::Char('t'),
            KeyCode::Char('p'),
        ]
        .iter(),
    );
    assert_eq!(ed.cursor(), 3);
    assert_eq!(String::from(ed), "ddatata");
}

#[test]
fn vi_yank_t() {
    let history = History::new();
    let rules = DefaultEditorRules::default();
    let mut ed = Editor::new(Prompt::from("prompt"), history, &rules);
    let mut map = Vi::new();
    map.init(&mut ed);
    ed.insert_str_after_cursor("data");
    assert_eq!(ed.cursor(), 4);

    simulate_key_codes(
        &mut map,
        &mut ed,
        [
            KeyCode::Esc,
            KeyCode::Char('0'),
            KeyCode::Char('y'),
            KeyCode::Char('t'),
            KeyCode::Char('t'),
            KeyCode::Char('p'),
        ]
        .iter(),
    );
    assert_eq!(ed.cursor(), 2);
    assert_eq!(String::from(ed), "ddaata");
}

#[test]
fn vi_yank_upper_t() {
    let history = History::new();
    let rules = DefaultEditorRules::default();
    let mut ed = Editor::new(Prompt::from("prompt"), history, &rules);
    let mut map = Vi::new();
    map.init(&mut ed);
    ed.insert_str_after_cursor("data");
    assert_eq!(ed.cursor(), 4);

    simulate_key_codes(
        &mut map,
        &mut ed,
        [
            KeyCode::Esc,
            KeyCode::Char('y'),
            KeyCode::Char('T'),
            KeyCode::Char('d'),
            KeyCode::Char('p'),
        ]
        .iter(),
    );
    assert_eq!(ed.cursor(), 3);
    assert_eq!(String::from(ed), "daatta");
}

#[test]
fn vi_yank_e() {
    let history = History::new();
    let rules = DefaultEditorRules::default();
    let mut ed = Editor::new(Prompt::from("prompt"), history, &rules);
    let mut map = Vi::new();
    map.init(&mut ed);
    ed.insert_str_after_cursor("data");
    assert_eq!(ed.cursor(), 4);

    simulate_key_codes(
        &mut map,
        &mut ed,
        [
            KeyCode::Esc,
            KeyCode::Char('0'),
            KeyCode::Char('y'),
            KeyCode::Char('e'),
            KeyCode::Char('p'),
        ]
        .iter(),
    );
    assert_eq!(ed.cursor(), 4);
    assert_eq!(String::from(ed), "ddataata");
}

#[test]
fn vi_change_paste_backward() {
    let history = History::new();
    let rules = DefaultEditorRules::default();
    let mut ed = Editor::new(Prompt::from("prompt"), history, &rules);
    let mut map = Vi::new();
    map.init(&mut ed);
    ed.insert_str_after_cursor("some data in the buffer");
    assert_eq!(ed.cursor(), 23);

    simulate_key_codes(
        &mut map,
        &mut ed,
        [
            KeyCode::Esc,
            KeyCode::Char('1'),
            KeyCode::Char('9'),
            KeyCode::Char('h'),
            KeyCode::Char('2'),
            KeyCode::Char('c'),
            KeyCode::Char('f'),
            KeyCode::Char(' '),
            KeyCode::Char('p'),
            KeyCode::Char('p'),
            KeyCode::Char('p'),
            KeyCode::Esc,
            KeyCode::Char('p'),
        ]
        .iter(),
    );
    assert_eq!(ed.cursor(), 12);
    assert_eq!(String::from(ed), "sompppe data in the buffer");
}

#[test]
fn vi_delete_paste_backward() {
    let history = History::new();
    let rules = DefaultEditorRules::default();
    let mut ed = Editor::new(Prompt::from("prompt"), history, &rules);
    let mut map = Vi::new();
    map.init(&mut ed);
    ed.insert_str_after_cursor("data");
    assert_eq!(ed.cursor(), 4);

    simulate_key_codes(
        &mut map,
        &mut ed,
        [
            KeyCode::Esc,
            KeyCode::Char('0'),
            KeyCode::Delete,
            KeyCode::Char('x'),
            KeyCode::Char('p'),
            KeyCode::Char('p'),
            KeyCode::Char('p'),
            KeyCode::Char('0'),
            KeyCode::Char('x'),
            KeyCode::Char('P'),
            KeyCode::Char('P'),
            KeyCode::Char('P'),
        ]
        .iter(),
    );
    assert_eq!(ed.cursor(), 0);
    assert_eq!(String::from(ed), "tttaaaa");
}

#[test]
fn vi_delete_paste_words() {
    let history = History::new();
    let rules = DefaultEditorRules::default();
    let mut ed = Editor::new(Prompt::from("prompt"), history, &rules);
    let mut map = Vi::new();
    map.init(&mut ed);
    ed.insert_str_after_cursor("some data in the buffer");
    assert_eq!(ed.cursor(), 23);

    simulate_key_codes(
        &mut map,
        &mut ed,
        [
            KeyCode::Esc,
            KeyCode::Char('1'),
            KeyCode::Char('9'),
            KeyCode::Char('h'),
            KeyCode::Char('2'),
            KeyCode::Char('d'),
            KeyCode::Char('f'),
            KeyCode::Char(' '),
            KeyCode::Char('p'),
            KeyCode::Char('p'),
            KeyCode::Char('p'),
        ]
        .iter(),
    );
    assert_eq!(ed.cursor(), 24);
    assert_eq!(String::from(ed), "somie data e data e data n the buffer");
}

#[test]
fn vi_delete_paste_words_reverse() {
    {
        let history = History::new();
    let rules = DefaultEditorRules::default();
    let mut ed = Editor::new(Prompt::from("prompt"), history, &rules);
        let mut map = Vi::new();
        map.init(&mut ed);
        ed.insert_str_after_cursor("some data in the buffer");
        assert_eq!(ed.cursor(), 23);

        simulate_key_codes(
            &mut map,
            &mut ed,
            [
                KeyCode::Esc,
                KeyCode::Char('1'),
                KeyCode::Char('9'),
                KeyCode::Char('h'),
                KeyCode::Char('2'),
                KeyCode::Char('d'),
                KeyCode::Char('f'),
                KeyCode::Char(' '),
                KeyCode::Char('P'),
                KeyCode::Char('P'),
                KeyCode::Char('P'),
            ]
            .iter(),
        );
        assert_eq!(ed.cursor(), 21);
        assert_eq!(String::from(ed), "some datae datae data   in the buffer");
    }
}

#[test]
fn vi_substitute_command() {
    let history = History::new();
    let rules = DefaultEditorRules::default();
    let mut ed = Editor::new(Prompt::from("prompt"), history, &rules);
    let mut map = Vi::new();
    map.init(&mut ed);
    ed.insert_str_after_cursor("data");
    assert_eq!(ed.cursor(), 4);

    simulate_keys(
        &mut map,
        &mut ed,
        [
            //ctrl+[ is the same as KeyCode::Esc
            Key::new_mod(KeyCode::Char('['), KeyMod::Ctrl),
            Key::new(KeyCode::Char('0')),
            Key::new(KeyCode::Char('s')),
            Key::new(KeyCode::Char('s')),
        ]
        .iter(),
    );
    assert_eq!(String::from(ed), "sata");
}

#[test]
fn substitute_with_count() {
    let history = History::new();
    let rules = DefaultEditorRules::default();
    let mut ed = Editor::new(Prompt::from("prompt"), history, &rules);
    let mut map = Vi::new();
    map.init(&mut ed);
    ed.insert_str_after_cursor("data");
    assert_eq!(ed.cursor(), 4);

    simulate_key_codes(
        &mut map,
        &mut ed,
        [
            KeyCode::Esc,
            KeyCode::Char('0'),
            KeyCode::Char('2'),
            KeyCode::Char('s'),
            KeyCode::Char('b'),
            KeyCode::Char('e'),
        ]
        .iter(),
    );
    assert_eq!(String::from(ed), "beta");
}

#[test]
fn substitute_with_count_repeat() {
    let history = History::new();
    let rules = DefaultEditorRules::default();
    let mut ed = Editor::new(Prompt::from("prompt"), history, &rules);
    let mut map = Vi::new();
    map.init(&mut ed);
    ed.insert_str_after_cursor("data data");

    simulate_keys(
        &mut map,
        &mut ed,
        [
            Key::new(KeyCode::Esc),
            Key::new(KeyCode::Char('0')),
            Key::new(KeyCode::Char('2')),
            Key::new(KeyCode::Char('s')),
            Key::new(KeyCode::Char('b')),
            Key::new(KeyCode::Char('e')),
            //The same as KeyCode::Esc
            Key::new_mod(KeyCode::Char('['), KeyMod::Ctrl),
            Key::new(KeyCode::Char('4')),
            Key::new(KeyCode::Char('l')),
            Key::new(KeyCode::Char('.')),
        ]
        .iter(),
    );
    assert_eq!(String::from(ed), "beta beta");
}

#[test]
/// make sure our count is accurate
fn vi_count() {
    let history = History::new();
    let rules = DefaultEditorRules::default();
    let mut ed = Editor::new(Prompt::from("prompt"), history, &rules);
    let mut map = Vi::new();
    map.init(&mut ed);

    simulate_key_codes(&mut map, &mut ed, [KeyCode::Esc].iter());
    assert_eq!(map.count(), 0);

    simulate_key_codes(&mut map, &mut ed, [KeyCode::Char('1')].iter());
    assert_eq!(map.count(), 1);

    simulate_key_codes(&mut map, &mut ed, [KeyCode::Char('1')].iter());
    assert_eq!(map.count(), 11);

    // switching to insert mode and back to edit mode should reset the count
    simulate_key_codes(&mut map, &mut ed, [KeyCode::Char('i'), KeyCode::Esc].iter());
    assert_eq!(map.count(), 0);

    assert_eq!(String::from(ed), "");
}

#[test]
/// make sure large counts don't overflow
fn vi_count_overflow() {
    let history = History::new();
    let rules = DefaultEditorRules::default();
    let mut ed = Editor::new(Prompt::from("prompt"), history, &rules);
    let mut map = Vi::new();
    map.init(&mut ed);

    // make sure large counts don't overflow our u32
    simulate_key_codes(
        &mut map,
        &mut ed,
        [
            KeyCode::Esc,
            KeyCode::Char('9'),
            KeyCode::Char('9'),
            KeyCode::Char('9'),
            KeyCode::Char('9'),
            KeyCode::Char('9'),
            KeyCode::Char('9'),
            KeyCode::Char('9'),
            KeyCode::Char('9'),
            KeyCode::Char('9'),
            KeyCode::Char('9'),
            KeyCode::Char('9'),
            KeyCode::Char('9'),
            KeyCode::Char('9'),
            KeyCode::Char('9'),
            KeyCode::Char('9'),
            KeyCode::Char('9'),
            KeyCode::Char('9'),
            KeyCode::Char('9'),
            KeyCode::Char('9'),
            KeyCode::Char('9'),
            KeyCode::Char('9'),
            KeyCode::Char('9'),
            KeyCode::Char('9'),
            KeyCode::Char('9'),
            KeyCode::Char('9'),
            KeyCode::Char('9'),
            KeyCode::Char('9'),
            KeyCode::Char('9'),
            KeyCode::Char('9'),
            KeyCode::Char('9'),
            KeyCode::Char('9'),
            KeyCode::Char('9'),
            KeyCode::Char('9'),
            KeyCode::Char('9'),
            KeyCode::Char('9'),
            KeyCode::Char('9'),
            KeyCode::Char('9'),
            KeyCode::Char('9'),
            KeyCode::Char('9'),
            KeyCode::Char('9'),
            KeyCode::Char('9'),
            KeyCode::Char('9'),
            KeyCode::Char('9'),
            KeyCode::Char('9'),
            KeyCode::Char('9'),
            KeyCode::Char('9'),
            KeyCode::Char('9'),
            KeyCode::Char('9'),
            KeyCode::Char('9'),
            KeyCode::Char('9'),
            KeyCode::Char('9'),
            KeyCode::Char('9'),
            KeyCode::Char('9'),
            KeyCode::Char('9'),
            KeyCode::Char('9'),
            KeyCode::Char('9'),
            KeyCode::Char('9'),
            KeyCode::Char('9'),
            KeyCode::Char('9'),
            KeyCode::Char('9'),
            KeyCode::Char('9'),
            KeyCode::Char('9'),
            KeyCode::Char('9'),
            KeyCode::Char('9'),
            KeyCode::Char('9'),
        ]
        .iter(),
    );
    assert_eq!(String::from(ed), "");
}

#[test]
/// make sure large counts ending in zero don't overflow
fn vi_count_overflow_zero() {
    let history = History::new();
    let rules = DefaultEditorRules::default();
    let mut ed = Editor::new(Prompt::from("prompt"), history, &rules);
    let mut map = Vi::new();
    map.init(&mut ed);

    // make sure large counts don't overflow our u32
    simulate_key_codes(
        &mut map,
        &mut ed,
        [
            KeyCode::Esc,
            KeyCode::Char('1'),
            KeyCode::Char('0'),
            KeyCode::Char('0'),
            KeyCode::Char('0'),
            KeyCode::Char('0'),
            KeyCode::Char('0'),
            KeyCode::Char('0'),
            KeyCode::Char('0'),
            KeyCode::Char('0'),
            KeyCode::Char('0'),
            KeyCode::Char('0'),
            KeyCode::Char('0'),
            KeyCode::Char('0'),
            KeyCode::Char('0'),
            KeyCode::Char('0'),
            KeyCode::Char('0'),
            KeyCode::Char('0'),
            KeyCode::Char('0'),
            KeyCode::Char('0'),
            KeyCode::Char('0'),
            KeyCode::Char('0'),
            KeyCode::Char('0'),
            KeyCode::Char('0'),
            KeyCode::Char('0'),
            KeyCode::Char('0'),
            KeyCode::Char('0'),
            KeyCode::Char('0'),
            KeyCode::Char('0'),
            KeyCode::Char('0'),
            KeyCode::Char('0'),
            KeyCode::Char('0'),
            KeyCode::Char('0'),
            KeyCode::Char('0'),
            KeyCode::Char('0'),
            KeyCode::Char('0'),
            KeyCode::Char('0'),
            KeyCode::Char('0'),
            KeyCode::Char('0'),
            KeyCode::Char('0'),
            KeyCode::Char('0'),
            KeyCode::Char('0'),
            KeyCode::Char('0'),
            KeyCode::Char('0'),
            KeyCode::Char('0'),
            KeyCode::Char('0'),
            KeyCode::Char('0'),
            KeyCode::Char('0'),
            KeyCode::Char('0'),
            KeyCode::Char('0'),
            KeyCode::Char('0'),
            KeyCode::Char('0'),
            KeyCode::Char('0'),
            KeyCode::Char('0'),
            KeyCode::Char('0'),
            KeyCode::Char('0'),
            KeyCode::Char('0'),
            KeyCode::Char('0'),
            KeyCode::Char('0'),
            KeyCode::Char('0'),
            KeyCode::Char('0'),
        ]
        .iter(),
    );
    assert_eq!(String::from(ed), "");
}

#[test]
/// Esc should cancel the count
fn vi_count_cancel() {
    let history = History::new();
    let rules = DefaultEditorRules::default();
    let mut ed = Editor::new(Prompt::from("prompt"), history, &rules);
    let mut map = Vi::new();
    map.init(&mut ed);

    simulate_key_codes(
        &mut map,
        &mut ed,
        [
            KeyCode::Esc,
            KeyCode::Char('1'),
            KeyCode::Char('0'),
            KeyCode::Esc,
        ]
        .iter(),
    );
    assert_eq!(map.count(), 0);
    assert_eq!(String::from(ed), "");
}

#[test]
/// test insert with a count
fn vi_count_simple() {
    let history = History::new();
    let rules = DefaultEditorRules::default();
    let mut ed = Editor::new(Prompt::from("prompt"), history, &rules);
    let mut map = Vi::new();
    map.init(&mut ed);

    simulate_keys(
        &mut map,
        &mut ed,
        [
            //same as KeyCode::Esc
            Key::new_mod(KeyCode::Char('['), KeyMod::Ctrl),
            Key::new(KeyCode::Char('3')),
            Key::new(KeyCode::Char('i')),
            Key::new(KeyCode::Char('t')),
            Key::new(KeyCode::Char('h')),
            Key::new(KeyCode::Char('i')),
            Key::new(KeyCode::Char('s')),
            Key::new(KeyCode::Esc),
        ]
        .iter(),
    );
    assert_eq!(String::from(ed), "thisthisthis");
}

#[test]
/// test dot command
fn vi_dot_command() {
    let history = History::new();
    let rules = DefaultEditorRules::default();
    let mut ed = Editor::new(Prompt::from("prompt"), history, &rules);
    let mut map = Vi::new();
    map.init(&mut ed);

    simulate_key_codes(
        &mut map,
        &mut ed,
        [
            KeyCode::Char('i'),
            KeyCode::Char('f'),
            KeyCode::Esc,
            KeyCode::Char('.'),
            KeyCode::Char('.'),
        ]
        .iter(),
    );
    assert_eq!(String::from(ed), "iiifff");
}

#[test]
/// test dot command with repeat
fn vi_dot_command_repeat() {
    let history = History::new();
    let rules = DefaultEditorRules::default();
    let mut ed = Editor::new(Prompt::from("prompt"), history, &rules);
    let mut map = Vi::new();
    map.init(&mut ed);

    simulate_key_codes(
        &mut map,
        &mut ed,
        [
            KeyCode::Char('i'),
            KeyCode::Char('f'),
            KeyCode::Esc,
            KeyCode::Char('3'),
            KeyCode::Char('.'),
        ]
        .iter(),
    );
    assert_eq!(String::from(ed), "iifififf");
}

#[test]
/// test dot command with repeat
fn vi_dot_command_repeat_multiple() {
    let history = History::new();
    let rules = DefaultEditorRules::default();
    let mut ed = Editor::new(Prompt::from("prompt"), history, &rules);
    let mut map = Vi::new();
    map.init(&mut ed);

    simulate_key_codes(
        &mut map,
        &mut ed,
        [
            KeyCode::Char('i'),
            KeyCode::Char('f'),
            KeyCode::Esc,
            KeyCode::Char('3'),
            KeyCode::Char('.'),
            KeyCode::Char('.'),
        ]
        .iter(),
    );
    assert_eq!(String::from(ed), "iififiifififff");
}

#[test]
/// test dot command with append
fn vi_dot_command_append() {
    let history = History::new();
    let rules = DefaultEditorRules::default();
    let mut ed = Editor::new(Prompt::from("prompt"), history, &rules);
    let mut map = Vi::new();
    map.init(&mut ed);

    simulate_key_codes(
        &mut map,
        &mut ed,
        [
            KeyCode::Esc,
            KeyCode::Char('a'),
            KeyCode::Char('i'),
            KeyCode::Char('f'),
            KeyCode::Esc,
            KeyCode::Char('.'),
            KeyCode::Char('.'),
        ]
        .iter(),
    );
    assert_eq!(String::from(ed), "ififif");
}

#[test]
/// test dot command with append and repeat
fn vi_dot_command_append_repeat() {
    let history = History::new();
    let rules = DefaultEditorRules::default();
    let mut ed = Editor::new(Prompt::from("prompt"), history, &rules);
    let mut map = Vi::new();
    map.init(&mut ed);

    simulate_key_codes(
        &mut map,
        &mut ed,
        [
            KeyCode::Esc,
            KeyCode::Char('a'),
            KeyCode::Char('i'),
            KeyCode::Char('f'),
            KeyCode::Esc,
            KeyCode::Char('3'),
            KeyCode::Char('.'),
        ]
        .iter(),
    );
    assert_eq!(String::from(ed), "ifififif");
}

#[test]
/// test dot command with movement
fn vi_dot_command_movement() {
    let history = History::new();
    let rules = DefaultEditorRules::default();
    let mut ed = Editor::new(Prompt::from("prompt"), history, &rules);
    let mut map = Vi::new();
    map.init(&mut ed);

    simulate_key_codes(
        &mut map,
        &mut ed,
        [
            KeyCode::Esc,
            KeyCode::Char('a'),
            KeyCode::Char('d'),
            KeyCode::Char('t'),
            KeyCode::Char(' '),
            KeyCode::Left,
            KeyCode::Left,
            KeyCode::Char('a'),
            KeyCode::Esc,
            KeyCode::Right,
            KeyCode::Right,
            KeyCode::Char('.'),
        ]
        .iter(),
    );
    assert_eq!(String::from(ed), "data ");
}

#[test]
/// test move_count function
fn move_count() {
    let history = History::new();
    let rules = DefaultEditorRules::default();
    let mut ed = Editor::new(Prompt::from("prompt"), history, &rules);
    let mut map = Vi::new();
    map.init(&mut ed);

    assert_eq!(map.move_count(), 1);
    map.set_typed_count(1);
    assert_eq!(map.move_count(), 1);
    map.set_typed_count(99);
    assert_eq!(map.move_count(), 99);
}

#[test]
/// make sure the count is reset if movement occurs
fn vi_count_movement_reset() {
    let history = History::new();
    let rules = DefaultEditorRules::default();
    let mut ed = Editor::new(Prompt::from("prompt"), history, &rules);
    let mut map = Vi::new();
    map.init(&mut ed);

    simulate_key_codes(
        &mut map,
        &mut ed,
        [
            KeyCode::Esc,
            KeyCode::Char('3'),
            KeyCode::Char('i'),
            KeyCode::Char('t'),
            KeyCode::Char('h'),
            KeyCode::Char('i'),
            KeyCode::Char('s'),
            KeyCode::Left,
            KeyCode::Esc,
        ]
        .iter(),
    );
    assert_eq!(String::from(ed), "this");
}

#[test]
/// test movement with counts
fn movement_with_count() {
    let history = History::new();
    let rules = DefaultEditorRules::default();
    let mut ed = Editor::new(Prompt::from("prompt"), history, &rules);
    let mut map = Vi::new();
    map.init(&mut ed);
    ed.insert_str_after_cursor("right");
    assert_eq!(ed.cursor(), 5);

    simulate_key_codes(
        &mut map,
        &mut ed,
        [KeyCode::Esc, KeyCode::Char('3'), KeyCode::Left].iter(),
    );

    assert_eq!(ed.cursor(), 1);
}

#[test]
/// test movement with counts, then insert (count should be reset before insert)
fn movement_with_count_then_insert() {
    let history = History::new();
    let rules = DefaultEditorRules::default();
    let mut ed = Editor::new(Prompt::from("prompt"), history, &rules);
    let mut map = Vi::new();
    map.init(&mut ed);
    ed.insert_str_after_cursor("right");
    assert_eq!(ed.cursor(), 5);

    simulate_key_codes(
        &mut map,
        &mut ed,
        [
            KeyCode::Esc,
            KeyCode::Char('3'),
            KeyCode::Left,
            KeyCode::Char('i'),
            KeyCode::Char(' '),
            KeyCode::Esc,
        ]
        .iter(),
    );
    assert_eq!(String::from(ed), "r ight");
}

#[test]
/// make sure we only attempt to repeat for as many chars are in the buffer
fn count_at_buffer_edge() {
    let history = History::new();
    let rules = DefaultEditorRules::default();
    let mut ed = Editor::new(Prompt::from("prompt"), history, &rules);
    let mut map = Vi::new();
    map.init(&mut ed);
    ed.insert_str_after_cursor("replace");
    assert_eq!(ed.cursor(), 7);

    simulate_key_codes(
        &mut map,
        &mut ed,
        [
            KeyCode::Esc,
            KeyCode::Char('3'),
            KeyCode::Char('r'),
            KeyCode::Char('x'),
        ]
        .iter(),
    );
    // the cursor should not have moved and no change should have occured
    assert_eq!(ed.cursor(), 6);
    assert_eq!(String::from(ed), "replace");
}

#[test]
/// test basic replace
fn basic_replace() {
    let history = History::new();
    let rules = DefaultEditorRules::default();
    let mut ed = Editor::new(Prompt::from("prompt"), history, &rules);
    let mut map = Vi::new();
    map.init(&mut ed);
    ed.insert_str_after_cursor("replace");
    assert_eq!(ed.cursor(), 7);

    simulate_key_codes(
        &mut map,
        &mut ed,
        [KeyCode::Esc, KeyCode::Char('r'), KeyCode::Char('x')].iter(),
    );
    assert_eq!(ed.cursor(), 6);
    assert_eq!(String::from(ed), "replacx");
}

#[test]
fn replace_with_count() {
    let history = History::new();
    let rules = DefaultEditorRules::default();
    let mut ed = Editor::new(Prompt::from("prompt"), history, &rules);
    let mut map = Vi::new();
    map.init(&mut ed);
    ed.insert_str_after_cursor("replace");
    assert_eq!(ed.cursor(), 7);

    simulate_key_codes(
        &mut map,
        &mut ed,
        [
            KeyCode::Esc,
            KeyCode::Char('0'),
            KeyCode::Char('3'),
            KeyCode::Char('r'),
            KeyCode::Char(' '),
        ]
        .iter(),
    );
    // cursor should be on the last replaced char
    assert_eq!(ed.cursor(), 2);
    assert_eq!(String::from(ed), "   lace");
}

#[test]
/// make sure replace won't work if there aren't enough chars
fn replace_with_count_eol() {
    let history = History::new();
    let rules = DefaultEditorRules::default();
    let mut ed = Editor::new(Prompt::from("prompt"), history, &rules);
    let mut map = Vi::new();
    map.init(&mut ed);
    ed.insert_str_after_cursor("replace");
    assert_eq!(ed.cursor(), 7);

    simulate_key_codes(
        &mut map,
        &mut ed,
        [
            KeyCode::Esc,
            KeyCode::Char('3'),
            KeyCode::Char('r'),
            KeyCode::Char('x'),
        ]
        .iter(),
    );
    // the cursor should not have moved and no change should have occured
    assert_eq!(ed.cursor(), 6);
    assert_eq!(String::from(ed), "replace");
}

#[test]
/// make sure normal mode is enabled after replace
fn replace_then_normal() {
    let history = History::new();
    let rules = DefaultEditorRules::default();
    let mut ed = Editor::new(Prompt::from("prompt"), history, &rules);
    let mut map = Vi::new();
    map.init(&mut ed);
    ed.insert_str_after_cursor("replace");
    assert_eq!(ed.cursor(), 7);

    simulate_key_codes(
        &mut map,
        &mut ed,
        [
            KeyCode::Esc,
            KeyCode::Char('r'),
            KeyCode::Char('x'),
            KeyCode::Char('0'),
        ]
        .iter(),
    );
    assert_eq!(ed.cursor(), 0);
    assert_eq!(String::from(ed), "replacx");
}

#[test]
/// test replace with dot
fn dot_replace() {
    let history = History::new();
    let rules = DefaultEditorRules::default();
    let mut ed = Editor::new(Prompt::from("prompt"), history, &rules);
    let mut map = Vi::new();
    map.init(&mut ed);
    ed.insert_str_after_cursor("replace");
    assert_eq!(ed.cursor(), 7);

    simulate_key_codes(
        &mut map,
        &mut ed,
        [
            KeyCode::Esc,
            KeyCode::Char('0'),
            KeyCode::Char('r'),
            KeyCode::Char('x'),
            KeyCode::Char('.'),
            KeyCode::Char('.'),
            KeyCode::Char('7'),
            KeyCode::Char('.'),
        ]
        .iter(),
    );
    assert_eq!(String::from(ed), "xxxxxxx");
}

#[test]
/// test replace with dot
fn dot_replace_count() {
    let history = History::new();
    let rules = DefaultEditorRules::default();
    let mut ed = Editor::new(Prompt::from("prompt"), history, &rules);
    let mut map = Vi::new();
    map.init(&mut ed);
    ed.insert_str_after_cursor("replace");
    assert_eq!(ed.cursor(), 7);

    simulate_key_codes(
        &mut map,
        &mut ed,
        [
            KeyCode::Esc,
            KeyCode::Char('0'),
            KeyCode::Char('2'),
            KeyCode::Char('r'),
            KeyCode::Char('x'),
            KeyCode::Char('.'),
            KeyCode::Char('.'),
            KeyCode::Char('.'),
            KeyCode::Char('.'),
            KeyCode::Char('.'),
        ]
        .iter(),
    );
    assert_eq!(String::from(ed), "xxxxxxx");
}

#[test]
/// test replace with dot at eol
fn dot_replace_eol() {
    let history = History::new();
    let rules = DefaultEditorRules::default();
    let mut ed = Editor::new(Prompt::from("prompt"), history, &rules);
    let mut map = Vi::new();
    map.init(&mut ed);
    ed.insert_str_after_cursor("test");

    simulate_key_codes(
        &mut map,
        &mut ed,
        [
            KeyCode::Esc,
            KeyCode::Char('0'),
            KeyCode::Char('3'),
            KeyCode::Char('r'),
            KeyCode::Char('x'),
            KeyCode::Char('.'),
            KeyCode::Char('.'),
        ]
        .iter(),
    );
    assert_eq!(String::from(ed), "xxxt");
}

#[test]
/// test replace with dot at eol multiple times
fn dot_replace_eol_multiple() {
    let history = History::new();
    let rules = DefaultEditorRules::default();
    let mut ed = Editor::new(Prompt::from("prompt"), history, &rules);
    let mut map = Vi::new();
    map.init(&mut ed);
    ed.insert_str_after_cursor("this is a test");

    simulate_key_codes(
        &mut map,
        &mut ed,
        [
            KeyCode::Esc,
            KeyCode::Char('0'),
            KeyCode::Char('3'),
            KeyCode::Char('r'),
            KeyCode::Char('x'),
            KeyCode::Char('$'),
            KeyCode::Char('.'),
            KeyCode::Char('4'),
            KeyCode::Char('h'),
            KeyCode::Char('.'),
        ]
        .iter(),
    );
    assert_eq!(String::from(ed), "xxxs is axxxst");
}

#[test]
/// verify our move count
fn move_count_right() {
    let history = History::new();
    let rules = DefaultEditorRules::default();
    let mut ed = Editor::new(Prompt::from("prompt"), history, &rules);
    let mut map = Vi::new();
    map.init(&mut ed);
    ed.insert_str_after_cursor("replace");
    assert_eq!(ed.cursor(), 7);
    assert_eq!(map.move_count_right(&ed), 0);
    map.set_typed_count(10);
    assert_eq!(map.move_count_right(&ed), 0);

    map.set_typed_count(0);

    simulate_key_codes(&mut map, &mut ed, [KeyCode::Esc, KeyCode::Left].iter());
    assert_eq!(map.move_count_right(&ed), 1);
}

#[test]
/// verify our move count
fn move_count_left() {
    let history = History::new();
    let rules = DefaultEditorRules::default();
    let mut ed = Editor::new(Prompt::from("prompt"), history, &rules);
    let mut map = Vi::new();
    map.init(&mut ed);
    ed.insert_str_after_cursor("replace");
    assert_eq!(ed.cursor(), 7);
    assert_eq!(map.move_count_left(&ed), 1);
    map.set_typed_count(10);
    assert_eq!(map.move_count_left(&ed), 7);

    map.set_typed_count(0);

    simulate_key_codes(&mut map, &mut ed, [KeyCode::Esc, KeyCode::Char('0')].iter());
    assert_eq!(map.move_count_left(&ed), 0);
}

#[test]
/// test delete with dot
fn dot_x_delete() {
    let history = History::new();
    let rules = DefaultEditorRules::default();
    let mut ed = Editor::new(Prompt::from("prompt"), history, &rules);
    let mut map = Vi::new();
    map.init(&mut ed);
    ed.insert_str_after_cursor("replace");
    assert_eq!(ed.cursor(), 7);

    simulate_key_codes(
        &mut map,
        &mut ed,
        [
            KeyCode::Esc,
            KeyCode::Char('0'),
            KeyCode::Char('2'),
            KeyCode::Char('x'),
            KeyCode::Char('.'),
        ]
        .iter(),
    );
    assert_eq!(String::from(ed), "ace");
}

#[test]
/// test deleting a line
fn delete_line() {
    let history = History::new();
    let rules = DefaultEditorRules::default();
    let mut ed = Editor::new(Prompt::from("prompt"), history, &rules);
    let mut map = Vi::new();
    map.init(&mut ed);
    ed.insert_str_after_cursor("delete");

    simulate_key_codes(
        &mut map,
        &mut ed,
        [KeyCode::Esc, KeyCode::Char('d'), KeyCode::Char('d')].iter(),
    );
    assert_eq!(ed.cursor(), 0);
    assert_eq!(String::from(ed), "");
}

#[test]
/// test for normal mode after deleting a line
fn delete_line_normal() {
    let history = History::new();
    let rules = DefaultEditorRules::default();
    let mut ed = Editor::new(Prompt::from("prompt"), history, &rules);
    let mut map = Vi::new();
    map.init(&mut ed);
    ed.insert_str_after_cursor("delete");

    simulate_key_codes(
        &mut map,
        &mut ed,
        [
            KeyCode::Esc,
            KeyCode::Char('d'),
            KeyCode::Char('d'),
            KeyCode::Char('i'),
            KeyCode::Char('n'),
            KeyCode::Char('e'),
            KeyCode::Char('w'),
            KeyCode::Esc,
        ]
        .iter(),
    );
    assert_eq!(ed.cursor(), 2);
    assert_eq!(String::from(ed), "new");
}

#[test]
/// test aborting a delete (and change)
fn delete_abort() {
    let history = History::new();
    let rules = DefaultEditorRules::default();
    let mut ed = Editor::new(Prompt::from("prompt"), history, &rules);
    let mut map = Vi::new();
    map.init(&mut ed);
    ed.insert_str_after_cursor("don't delete");

    simulate_key_codes(
        &mut map,
        &mut ed,
        [
            KeyCode::Esc,
            KeyCode::Char('d'),
            KeyCode::Esc,
            KeyCode::Char('d'),
            KeyCode::Char('c'),
            KeyCode::Char('c'),
            KeyCode::Char('d'),
        ]
        .iter(),
    );
    assert_eq!(ed.cursor(), 11);
    assert_eq!(String::from(ed), "don't delete");
}

#[test]
/// test deleting a single char to the left
fn delete_char_left() {
    let history = History::new();
    let rules = DefaultEditorRules::default();
    let mut ed = Editor::new(Prompt::from("prompt"), history, &rules);
    let mut map = Vi::new();
    map.init(&mut ed);
    ed.insert_str_after_cursor("delete");

    simulate_key_codes(
        &mut map,
        &mut ed,
        [KeyCode::Esc, KeyCode::Char('d'), KeyCode::Char('h')].iter(),
    );
    assert_eq!(ed.cursor(), 4);
    assert_eq!(String::from(ed), "delee");
}

#[test]
/// test deleting multiple chars to the left
fn delete_chars_left() {
    let history = History::new();
    let rules = DefaultEditorRules::default();
    let mut ed = Editor::new(Prompt::from("prompt"), history, &rules);
    let mut map = Vi::new();
    map.init(&mut ed);
    ed.insert_str_after_cursor("delete");

    simulate_key_codes(
        &mut map,
        &mut ed,
        [
            KeyCode::Esc,
            KeyCode::Char('3'),
            KeyCode::Char('d'),
            KeyCode::Char('h'),
        ]
        .iter(),
    );
    assert_eq!(ed.cursor(), 2);
    assert_eq!(String::from(ed), "dee");
}

#[test]
/// test deleting a single char to the right
fn delete_char_right() {
    let history = History::new();
    let rules = DefaultEditorRules::default();
    let mut ed = Editor::new(Prompt::from("prompt"), history, &rules);
    let mut map = Vi::new();
    map.init(&mut ed);
    ed.insert_str_after_cursor("delete");

    simulate_key_codes(
        &mut map,
        &mut ed,
        [
            KeyCode::Esc,
            KeyCode::Char('0'),
            KeyCode::Char('d'),
            KeyCode::Char('l'),
        ]
        .iter(),
    );
    assert_eq!(ed.cursor(), 0);
    assert_eq!(String::from(ed), "elete");
}

#[test]
/// test deleting multiple chars to the right
fn delete_chars_right() {
    let history = History::new();
    let rules = DefaultEditorRules::default();
    let mut ed = Editor::new(Prompt::from("prompt"), history, &rules);
    let mut map = Vi::new();
    map.init(&mut ed);
    ed.insert_str_after_cursor("delete");

    simulate_key_codes(
        &mut map,
        &mut ed,
        [
            KeyCode::Esc,
            KeyCode::Char('0'),
            KeyCode::Char('3'),
            KeyCode::Char('d'),
            KeyCode::Char('l'),
        ]
        .iter(),
    );
    assert_eq!(ed.cursor(), 0);
    assert_eq!(String::from(ed), "ete");
}

#[test]
/// test repeat with delete
fn delete_and_repeat() {
    let history = History::new();
    let rules = DefaultEditorRules::default();
    let mut ed = Editor::new(Prompt::from("prompt"), history, &rules);
    let mut map = Vi::new();
    map.init(&mut ed);
    ed.insert_str_after_cursor("delete");

    simulate_key_codes(
        &mut map,
        &mut ed,
        [
            KeyCode::Esc,
            KeyCode::Char('0'),
            KeyCode::Char('d'),
            KeyCode::Char('l'),
            KeyCode::Char('.'),
        ]
        .iter(),
    );
    assert_eq!(ed.cursor(), 0);
    assert_eq!(String::from(ed), "lete");
}

#[test]
/// test delete until end of line
fn delete_until_end() {
    let history = History::new();
    let rules = DefaultEditorRules::default();
    let mut ed = Editor::new(Prompt::from("prompt"), history, &rules);
    let mut map = Vi::new();
    map.init(&mut ed);
    ed.insert_str_after_cursor("delete");

    simulate_key_codes(
        &mut map,
        &mut ed,
        [
            KeyCode::Esc,
            KeyCode::Char('0'),
            KeyCode::Char('d'),
            KeyCode::Char('$'),
        ]
        .iter(),
    );
    assert_eq!(ed.cursor(), 0);
    assert_eq!(String::from(ed), "");
}

#[test]
/// test delete until end of line
fn delete_until_end_shift_d() {
    let history = History::new();
    let rules = DefaultEditorRules::default();
    let mut ed = Editor::new(Prompt::from("prompt"), history, &rules);
    let mut map = Vi::new();
    map.init(&mut ed);
    ed.insert_str_after_cursor("delete");

    simulate_key_codes(
        &mut map,
        &mut ed,
        [KeyCode::Esc, KeyCode::Char('0'), KeyCode::Char('D')].iter(),
    );
    assert_eq!(ed.cursor(), 0);
    assert_eq!(String::from(ed), "");
}

#[test]
/// test delete until start of line
fn delete_until_start() {
    let history = History::new();
    let rules = DefaultEditorRules::default();
    let mut ed = Editor::new(Prompt::from("prompt"), history, &rules);
    let mut map = Vi::new();
    map.init(&mut ed);
    ed.insert_str_after_cursor("delete");

    simulate_key_codes(
        &mut map,
        &mut ed,
        [
            KeyCode::Esc,
            KeyCode::Char('$'),
            KeyCode::Char('d'),
            KeyCode::Char('0'),
        ]
        .iter(),
    );
    assert_eq!(ed.cursor(), 0);
    assert_eq!(String::from(ed), "e");
}

#[test]
/// test a compound count with delete
fn delete_with_count() {
    let history = History::new();
    let rules = DefaultEditorRules::default();
    let mut ed = Editor::new(Prompt::from("prompt"), history, &rules);
    let mut map = Vi::new();
    map.init(&mut ed);
    ed.insert_str_after_cursor("delete");

    simulate_key_codes(
        &mut map,
        &mut ed,
        [
            KeyCode::Esc,
            KeyCode::Char('0'),
            KeyCode::Char('2'),
            KeyCode::Char('d'),
            KeyCode::Char('2'),
            KeyCode::Char('l'),
        ]
        .iter(),
    );
    assert_eq!(ed.cursor(), 0);
    assert_eq!(String::from(ed), "te");
}

#[test]
/// test a compound count with delete and repeat
fn delete_with_count_and_repeat() {
    let history = History::new();
    let rules = DefaultEditorRules::default();
    let mut ed = Editor::new(Prompt::from("prompt"), history, &rules);
    let mut map = Vi::new();
    map.init(&mut ed);
    ed.insert_str_after_cursor("delete delete");

    simulate_key_codes(
        &mut map,
        &mut ed,
        [
            KeyCode::Esc,
            KeyCode::Char('0'),
            KeyCode::Char('2'),
            KeyCode::Char('d'),
            KeyCode::Char('2'),
            KeyCode::Char('l'),
            KeyCode::Char('.'),
        ]
        .iter(),
    );
    assert_eq!(ed.cursor(), 0);
    assert_eq!(String::from(ed), "elete");
}

#[test]
fn move_to_end_of_word_simple() {
    let history = History::new();
    let rules = DefaultEditorRules::default();
    let mut ed = Editor::new(Prompt::from("prompt"), history, &rules);

    ed.insert_str_after_cursor("here are");
    let start_pos = ed.cursor();
    ed.insert_str_after_cursor(" som");
    let end_pos = ed.cursor();
    ed.insert_str_after_cursor("e words");
    ed.move_cursor_to(start_pos);
    let vi = Vi::new();
    vi.move_to_end_of_word(&mut ed, 1);
    assert_eq!(ed.cursor(), end_pos);
}

#[test]
fn move_to_end_of_word_comma() {
    let history = History::new();
    let rules = DefaultEditorRules::default();
    let mut ed = Editor::new(Prompt::from("prompt"), history, &rules);

    ed.insert_str_after_cursor("here ar");
    let start_pos = ed.cursor();
    ed.insert_after_cursor('e');
    let end_pos1 = ed.cursor();
    ed.insert_str_after_cursor(", som");
    let end_pos2 = ed.cursor();
    ed.insert_str_after_cursor("e words");
    ed.move_cursor_to(start_pos);

    let vi = Vi::new();
    vi.move_to_end_of_word(&mut ed, 1);
    assert_eq!(ed.cursor(), end_pos1);
    vi.move_to_end_of_word(&mut ed, 1);
    assert_eq!(ed.cursor(), end_pos2);
}

#[test]
fn move_to_end_of_word_nonkeywords() {
    let history = History::new();
    let rules = DefaultEditorRules::default();
    let mut ed = Editor::new(Prompt::from("prompt"), history, &rules);

    ed.insert_str_after_cursor("here ar");
    let start_pos = ed.cursor();
    ed.insert_str_after_cursor("e,,,");
    let end_pos1 = ed.cursor();
    ed.insert_str_after_cursor(",som");
    let end_pos2 = ed.cursor();
    ed.insert_str_after_cursor("e words");
    ed.move_cursor_to(start_pos);

    let vi = Vi::new();
    vi.move_to_end_of_word(&mut ed, 1);
    assert_eq!(ed.cursor(), end_pos1);
    vi.move_to_end_of_word(&mut ed, 1);
    assert_eq!(ed.cursor(), end_pos2);
}

#[test]
fn move_to_end_of_word_whitespace() {
    let history = History::new();
    let rules = DefaultEditorRules::default();
    let mut ed = Editor::new(Prompt::from("prompt"), history, &rules);

    assert_eq!(ed.cursor(), 0);
    ed.insert_str_after_cursor("here are");
    let start_pos = ed.cursor();
    assert_eq!(ed.cursor(), 8);
    ed.insert_str_after_cursor("      som");
    assert_eq!(ed.cursor(), 17);
    ed.insert_str_after_cursor("e words");
    assert_eq!(ed.cursor(), 24);
    ed.move_cursor_to(start_pos);
    assert_eq!(ed.cursor(), 8);

    let vi = Vi::new();
    vi.move_to_end_of_word(&mut ed, 1);
    assert_eq!(ed.cursor(), 17);
}

#[test]
fn move_to_end_of_word_whitespace_nonkeywords() {
    let history = History::new();
    let rules = DefaultEditorRules::default();
    let mut ed = Editor::new(Prompt::from("prompt"), history, &rules);

    ed.insert_str_after_cursor("here ar");
    let start_pos = ed.cursor();
    ed.insert_str_after_cursor("e   ,,,");
    let end_pos1 = ed.cursor();
    ed.insert_str_after_cursor(", som");
    let end_pos2 = ed.cursor();
    ed.insert_str_after_cursor("e words");
    ed.move_cursor_to(start_pos);

    let vi = Vi::new();
    vi.move_to_end_of_word(&mut ed, 1);
    assert_eq!(ed.cursor(), end_pos1);
    vi.move_to_end_of_word(&mut ed, 1);
    assert_eq!(ed.cursor(), end_pos2);
}

#[test]
fn move_to_end_of_word_ws_simple() {
    let history = History::new();
    let rules = DefaultEditorRules::default();
    let mut ed = Editor::new(Prompt::from("prompt"), history, &rules);

    ed.insert_str_after_cursor("here are");
    let start_pos = ed.cursor();
    ed.insert_str_after_cursor(" som");
    let end_pos = ed.cursor();
    ed.insert_str_after_cursor("e words");
    ed.move_cursor_to(start_pos);
    let vi = Vi::new();
    vi.move_to_end_of_word_ws(&mut ed, 1);
    assert_eq!(ed.cursor(), end_pos);
}

#[test]
fn move_to_end_of_word_ws_comma() {
    let history = History::new();
    let rules = DefaultEditorRules::default();
    let mut ed = Editor::new(Prompt::from("prompt"), history, &rules);

    ed.insert_str_after_cursor("here ar");
    let start_pos = ed.cursor();
    ed.insert_after_cursor('e');
    let end_pos1 = ed.cursor();
    ed.insert_str_after_cursor(", som");
    let end_pos2 = ed.cursor();
    ed.insert_str_after_cursor("e words");
    ed.move_cursor_to(start_pos);

    let vi = Vi::new();
    vi.move_to_end_of_word_ws(&mut ed, 1);
    assert_eq!(ed.cursor(), end_pos1);
    vi.move_to_end_of_word_ws(&mut ed, 1);
    assert_eq!(ed.cursor(), end_pos2);
}

#[test]
fn move_to_end_of_word_ws_nonkeywords() {
    let history = History::new();
    let rules = DefaultEditorRules::default();
    let mut ed = Editor::new(Prompt::from("prompt"), history, &rules);

    ed.insert_str_after_cursor("here ar");
    let start_pos = ed.cursor();
    ed.insert_str_after_cursor("e,,,,som");
    let end_pos = ed.cursor();
    ed.insert_str_after_cursor("e words");
    ed.move_cursor_to(start_pos);
    let vi = Vi::new();
    vi.move_to_end_of_word_ws(&mut ed, 1);
    assert_eq!(ed.cursor(), end_pos);
}

#[test]
fn move_to_end_of_word_ws_whitespace() {
    let history = History::new();
    let rules = DefaultEditorRules::default();
    let mut ed = Editor::new(Prompt::from("prompt"), history, &rules);

    ed.insert_str_after_cursor("here are");
    let start_pos = ed.cursor();
    ed.insert_str_after_cursor("      som");
    let end_pos = ed.cursor();
    ed.insert_str_after_cursor("e words");
    ed.move_cursor_to(start_pos);

    let vi = Vi::new();
    vi.move_to_end_of_word_ws(&mut ed, 1);
    assert_eq!(ed.cursor(), end_pos);
}

#[test]
fn move_to_end_of_word_ws_whitespace_nonkeywords() {
    let history = History::new();
    let rules = DefaultEditorRules::default();
    let mut ed = Editor::new(Prompt::from("prompt"), history, &rules);

    ed.insert_str_after_cursor("here ar");
    let start_pos = ed.cursor();
    ed.insert_str_after_cursor("e   ,,,");
    let end_pos1 = ed.cursor();
    ed.insert_str_after_cursor(", som");
    let end_pos2 = ed.cursor();
    ed.insert_str_after_cursor("e words");
    ed.move_cursor_to(start_pos);

    let vi = Vi::new();
    vi.move_to_end_of_word_ws(&mut ed, 1);
    assert_eq!(ed.cursor(), end_pos1);
    vi.move_to_end_of_word_ws(&mut ed, 1);
    assert_eq!(ed.cursor(), end_pos2);
}

#[test]
fn move_word_simple() {
    let history = History::new();
    let rules = DefaultEditorRules::default();
    let mut ed = Editor::new(Prompt::from("prompt"), history, &rules);

    ed.insert_str_after_cursor("here ");
    let pos1 = ed.cursor();
    ed.insert_str_after_cursor("are ");
    let pos2 = ed.cursor();
    ed.insert_str_after_cursor("some words");
    ed.move_cursor_to_start_of_line();

    let vi = Vi::new();
    vi.move_word(&mut ed, 1);
    assert_eq!(ed.cursor(), pos1);
    vi.move_word(&mut ed, 1);
    assert_eq!(ed.cursor(), pos2);

    ed.move_cursor_to_start_of_line();
    vi.move_word_ws(&mut ed, 1);
    assert_eq!(ed.cursor(), pos1);
    vi.move_word_ws(&mut ed, 1);
    assert_eq!(ed.cursor(), pos2);
}

#[test]
fn move_word_whitespace() {
    let history = History::new();
    let rules = DefaultEditorRules::default();
    let mut ed = Editor::new(Prompt::from("prompt"), history, &rules);

    ed.insert_str_after_cursor("   ");
    let pos1 = ed.cursor();
    ed.insert_str_after_cursor("word");
    let pos2 = ed.cursor();
    ed.move_cursor_to_start_of_line();

    let vi = Vi::new();
    vi.move_word(&mut ed, 1);
    assert_eq!(ed.cursor(), pos1);
    vi.move_word(&mut ed, 1);
    assert_eq!(ed.cursor(), pos2);

    ed.move_cursor_to_start_of_line();
    vi.move_word_ws(&mut ed, 1);
    assert_eq!(ed.cursor(), pos1);
    vi.move_word_ws(&mut ed, 1);
    assert_eq!(ed.cursor(), pos2);
}

#[test]
fn move_word_nonkeywords() {
    let history = History::new();
    let rules = DefaultEditorRules::default();
    let mut ed = Editor::new(Prompt::from("prompt"), history, &rules);

    ed.insert_str_after_cursor("..=");
    let pos1 = ed.cursor();
    ed.insert_str_after_cursor("word");
    let pos2 = ed.cursor();
    ed.move_cursor_to_start_of_line();

    let vi = Vi::new();
    vi.move_word(&mut ed, 1);
    assert_eq!(ed.cursor(), pos1);
    vi.move_word(&mut ed, 1);
    assert_eq!(ed.cursor(), pos2);

    ed.move_cursor_to_start_of_line();
    vi.move_word_ws(&mut ed, 1);
    assert_eq!(ed.cursor(), pos2);
}

#[test]
fn move_word_whitespace_nonkeywords() {
    let history = History::new();
    let rules = DefaultEditorRules::default();
    let mut ed = Editor::new(Prompt::from("prompt"), history, &rules);

    ed.insert_str_after_cursor("..=   ");
    let pos1 = ed.cursor();
    ed.insert_str_after_cursor("..=");
    let pos2 = ed.cursor();
    ed.insert_str_after_cursor("word");
    let pos3 = ed.cursor();
    ed.move_cursor_to_start_of_line();

    let vi = Vi::new();
    vi.move_word(&mut ed, 1);
    assert_eq!(ed.cursor(), pos1);
    vi.move_word(&mut ed, 1);
    assert_eq!(ed.cursor(), pos2);

    ed.move_cursor_to_start_of_line();
    vi.move_word_ws(&mut ed, 1);
    assert_eq!(ed.cursor(), pos1);
    vi.move_word_ws(&mut ed, 1);
    assert_eq!(ed.cursor(), pos3);
}

#[test]
fn move_word_and_back() {
    let history = History::new();
    let rules = DefaultEditorRules::default();
    let mut ed = Editor::new(Prompt::from("prompt"), history, &rules);

    ed.insert_str_after_cursor("here ");
    let pos1 = ed.cursor();
    ed.insert_str_after_cursor("are ");
    let pos2 = ed.cursor();
    ed.insert_str_after_cursor("some");
    let pos3 = ed.cursor();
    ed.insert_str_after_cursor("..= ");
    let pos4 = ed.cursor();
    ed.insert_str_after_cursor("words");
    let pos5 = ed.cursor();

    // make sure move_word() and move_word_back() are reflections of eachother

    let vi = Vi::new();
    ed.move_cursor_to_start_of_line();
    vi.move_word(&mut ed, 1);
    assert_eq!(ed.cursor(), pos1);
    vi.move_word(&mut ed, 1);
    assert_eq!(ed.cursor(), pos2);
    vi.move_word(&mut ed, 1);
    assert_eq!(ed.cursor(), pos3);
    vi.move_word(&mut ed, 1);
    assert_eq!(ed.cursor(), pos4);
    vi.move_word(&mut ed, 1);
    assert_eq!(ed.cursor(), pos5);

    vi.move_word_back(&mut ed, 1);
    assert_eq!(ed.cursor(), pos4);
    vi.move_word_back(&mut ed, 1);
    assert_eq!(ed.cursor(), pos3);
    vi.move_word_back(&mut ed, 1);
    assert_eq!(ed.cursor(), pos2);
    vi.move_word_back(&mut ed, 1);
    assert_eq!(ed.cursor(), pos1);
    vi.move_word_back(&mut ed, 1);
    assert_eq!(ed.cursor(), 0);

    ed.move_cursor_to_start_of_line();
    vi.move_word_ws(&mut ed, 1);
    assert_eq!(ed.cursor(), pos1);
    vi.move_word_ws(&mut ed, 1);
    assert_eq!(ed.cursor(), pos2);
    vi.move_word_ws(&mut ed, 1);
    assert_eq!(ed.cursor(), pos4);
    vi.move_word_ws(&mut ed, 1);
    assert_eq!(ed.cursor(), pos5);

    vi.move_word_ws_back(&mut ed, 1);
    assert_eq!(ed.cursor(), pos4);
    vi.move_word_ws_back(&mut ed, 1);
    assert_eq!(ed.cursor(), pos2);
    vi.move_word_ws_back(&mut ed, 1);
    assert_eq!(ed.cursor(), pos1);
    vi.move_word_ws_back(&mut ed, 1);
    assert_eq!(ed.cursor(), 0);
}

#[test]
fn move_word_and_back_with_count() {
    let history = History::new();
    let rules = DefaultEditorRules::default();
    let mut ed = Editor::new(Prompt::from("prompt"), history, &rules);

    ed.insert_str_after_cursor("here ");
    ed.insert_str_after_cursor("are ");
    let pos1 = ed.cursor();
    ed.insert_str_after_cursor("some");
    let pos2 = ed.cursor();
    ed.insert_str_after_cursor("..= ");
    ed.insert_str_after_cursor("words");
    let pos3 = ed.cursor();

    let vi = Vi::new();
    // make sure move_word() and move_word_back() are reflections of eachother
    ed.move_cursor_to_start_of_line();
    vi.move_word(&mut ed, 3);
    assert_eq!(ed.cursor(), pos2);
    vi.move_word(&mut ed, 2);
    assert_eq!(ed.cursor(), pos3);

    vi.move_word_back(&mut ed, 2);
    assert_eq!(ed.cursor(), pos2);
    vi.move_word_back(&mut ed, 3);
    assert_eq!(ed.cursor(), 0);

    ed.move_cursor_to_start_of_line();
    vi.move_word_ws(&mut ed, 2);
    assert_eq!(ed.cursor(), pos1);
    vi.move_word_ws(&mut ed, 2);
    assert_eq!(ed.cursor(), pos3);

    vi.move_word_ws_back(&mut ed, 2);
    assert_eq!(ed.cursor(), pos1);
    vi.move_word_ws_back(&mut ed, 2);
    assert_eq!(ed.cursor(), 0);
}

#[test]
fn move_to_end_of_word_ws_whitespace_count() {
    let history = History::new();
    let rules = DefaultEditorRules::default();
    let mut ed = Editor::new(Prompt::from("prompt"), history, &rules);

    ed.insert_str_after_cursor("here are");
    let start_pos = ed.cursor();
    ed.insert_str_after_cursor("      som");
    ed.insert_str_after_cursor("e word");
    let end_pos = ed.cursor();
    ed.insert_str_after_cursor("s and some");

    ed.move_cursor_to(start_pos);
    let vi = Vi::new();
    vi.move_to_end_of_word_ws(&mut ed, 2);
    assert_eq!(ed.cursor(), end_pos);
}

#[test]
/// test delete word
fn delete_word() {
    let history = History::new();
    let rules = DefaultEditorRules::default();
    let mut ed = Editor::new(Prompt::from("prompt"), history, &rules);
    let mut map = Vi::new();
    map.init(&mut ed);
    ed.insert_str_after_cursor("delete some words");

    simulate_key_codes(
        &mut map,
        &mut ed,
        [
            KeyCode::Esc,
            KeyCode::Char('0'),
            KeyCode::Char('d'),
            KeyCode::Char('w'),
        ]
        .iter(),
    );
    assert_eq!(ed.cursor(), 0);
    assert_eq!(String::from(ed), "some words");
}

#[test]
/// test changing a line
fn change_line() {
    let history = History::new();
    let rules = DefaultEditorRules::default();
    let mut ed = Editor::new(Prompt::from("prompt"), history, &rules);
    let mut map = Vi::new();
    map.init(&mut ed);
    ed.insert_str_after_cursor("change");

    simulate_key_codes(
        &mut map,
        &mut ed,
        [
            KeyCode::Esc,
            KeyCode::Char('c'),
            KeyCode::Char('c'),
            KeyCode::Char('d'),
            KeyCode::Char('o'),
            KeyCode::Char('n'),
            KeyCode::Char('e'),
        ]
        .iter(),
    );
    assert_eq!(ed.cursor(), 4);
    assert_eq!(String::from(ed), "done");
}

#[test]
/// test deleting a single char to the left
fn change_char_left() {
    let history = History::new();
    let rules = DefaultEditorRules::default();
    let mut ed = Editor::new(Prompt::from("prompt"), history, &rules);
    let mut map = Vi::new();
    map.init(&mut ed);
    ed.insert_str_after_cursor("change");

    simulate_key_codes(
        &mut map,
        &mut ed,
        [
            KeyCode::Esc,
            KeyCode::Char('c'),
            KeyCode::Char('h'),
            KeyCode::Char('e'),
            KeyCode::Esc,
        ]
        .iter(),
    );
    assert_eq!(ed.cursor(), 4);
    assert_eq!(String::from(ed), "chanee");
}

#[test]
/// test deleting multiple chars to the left
fn change_chars_left() {
    let history = History::new();
    let rules = DefaultEditorRules::default();
    let mut ed = Editor::new(Prompt::from("prompt"), history, &rules);
    let mut map = Vi::new();
    map.init(&mut ed);
    ed.insert_str_after_cursor("change");

    simulate_key_codes(
        &mut map,
        &mut ed,
        [
            KeyCode::Esc,
            KeyCode::Char('3'),
            KeyCode::Char('c'),
            KeyCode::Char('h'),
            KeyCode::Char('e'),
        ]
        .iter(),
    );
    assert_eq!(ed.cursor(), 3);
    assert_eq!(String::from(ed), "chee");
}

#[test]
/// test deleting a single char to the right
fn change_char_right() {
    let history = History::new();
    let rules = DefaultEditorRules::default();
    let mut ed = Editor::new(Prompt::from("prompt"), history, &rules);
    let mut map = Vi::new();
    map.init(&mut ed);
    ed.insert_str_after_cursor("change");

    simulate_key_codes(
        &mut map,
        &mut ed,
        [
            KeyCode::Esc,
            KeyCode::Char('0'),
            KeyCode::Char('c'),
            KeyCode::Char('l'),
            KeyCode::Char('s'),
        ]
        .iter(),
    );
    assert_eq!(ed.cursor(), 1);
    assert_eq!(String::from(ed), "shange");
}

#[test]
/// test changing multiple chars to the right
fn change_chars_right() {
    let history = History::new();
    let rules = DefaultEditorRules::default();
    let mut ed = Editor::new(Prompt::from("prompt"), history, &rules);
    let mut map = Vi::new();
    map.init(&mut ed);
    ed.insert_str_after_cursor("change");

    simulate_key_codes(
        &mut map,
        &mut ed,
        [
            KeyCode::Esc,
            KeyCode::Char('0'),
            KeyCode::Char('3'),
            KeyCode::Char('c'),
            KeyCode::Char('l'),
            KeyCode::Char('s'),
            KeyCode::Char('t'),
            KeyCode::Char('r'),
            KeyCode::Char('a'),
            KeyCode::Esc,
        ]
        .iter(),
    );
    assert_eq!(ed.cursor(), 3);
    assert_eq!(String::from(ed), "strange");
}

#[test]
/// test repeat with change
fn change_and_repeat() {
    let history = History::new();
    let rules = DefaultEditorRules::default();
    let mut ed = Editor::new(Prompt::from("prompt"), history, &rules);
    let mut map = Vi::new();
    map.init(&mut ed);
    ed.insert_str_after_cursor("change");

    simulate_key_codes(
        &mut map,
        &mut ed,
        [
            KeyCode::Esc,
            KeyCode::Char('0'),
            KeyCode::Char('c'),
            KeyCode::Char('l'),
            KeyCode::Char('s'),
            KeyCode::Esc,
            KeyCode::Char('l'),
            KeyCode::Char('.'),
            KeyCode::Char('l'),
            KeyCode::Char('.'),
        ]
        .iter(),
    );
    assert_eq!(ed.cursor(), 2);
    assert_eq!(String::from(ed), "sssnge");
}

#[test]
/// test change until end of line
fn change_until_end() {
    let history = History::new();
    let rules = DefaultEditorRules::default();
    let mut ed = Editor::new(Prompt::from("prompt"), history, &rules);
    let mut map = Vi::new();
    map.init(&mut ed);
    ed.insert_str_after_cursor("change");

    simulate_key_codes(
        &mut map,
        &mut ed,
        [
            KeyCode::Esc,
            KeyCode::Char('0'),
            KeyCode::Char('c'),
            KeyCode::Char('$'),
            KeyCode::Char('o'),
            KeyCode::Char('k'),
            KeyCode::Esc,
        ]
        .iter(),
    );
    assert_eq!(ed.cursor(), 1);
    assert_eq!(String::from(ed), "ok");
}

#[test]
/// test change until end of line
fn change_until_end_shift_c() {
    let history = History::new();
    let rules = DefaultEditorRules::default();
    let mut ed = Editor::new(Prompt::from("prompt"), history, &rules);
    let mut map = Vi::new();
    map.init(&mut ed);
    ed.insert_str_after_cursor("change");

    simulate_key_codes(
        &mut map,
        &mut ed,
        [
            KeyCode::Esc,
            KeyCode::Char('0'),
            KeyCode::Char('C'),
            KeyCode::Char('o'),
            KeyCode::Char('k'),
        ]
        .iter(),
    );
    assert_eq!(ed.cursor(), 2);
    assert_eq!(String::from(ed), "ok");
}

#[test]
/// test change until end of line
fn change_until_end_from_middle_shift_c() {
    let history = History::new();
    let rules = DefaultEditorRules::default();
    let mut ed = Editor::new(Prompt::from("prompt"), history, &rules);
    let mut map = Vi::new();
    map.init(&mut ed);
    ed.insert_str_after_cursor("change");

    simulate_key_codes(
        &mut map,
        &mut ed,
        [
            KeyCode::Esc,
            KeyCode::Char('0'),
            KeyCode::Char('2'),
            KeyCode::Char('l'),
            KeyCode::Char('C'),
            KeyCode::Char(' '),
            KeyCode::Char('o'),
            KeyCode::Char('k'),
            KeyCode::Esc,
        ]
        .iter(),
    );
    assert_eq!(String::from(ed), "ch ok");
}

#[test]
/// test change until start of line
fn change_until_start() {
    let history = History::new();
    let rules = DefaultEditorRules::default();
    let mut ed = Editor::new(Prompt::from("prompt"), history, &rules);
    let mut map = Vi::new();
    map.init(&mut ed);
    ed.insert_str_after_cursor("change");

    simulate_key_codes(
        &mut map,
        &mut ed,
        [
            KeyCode::Esc,
            KeyCode::Char('$'),
            KeyCode::Char('c'),
            KeyCode::Char('0'),
            KeyCode::Char('s'),
            KeyCode::Char('t'),
            KeyCode::Char('r'),
            KeyCode::Char('a'),
            KeyCode::Char('n'),
            KeyCode::Char('g'),
        ]
        .iter(),
    );
    assert_eq!(ed.cursor(), 6);
    assert_eq!(String::from(ed), "strange");
}

#[test]
/// test a compound count with change
fn change_with_count() {
    let history = History::new();
    let rules = DefaultEditorRules::default();
    let mut ed = Editor::new(Prompt::from("prompt"), history, &rules);
    let mut map = Vi::new();
    map.init(&mut ed);
    ed.insert_str_after_cursor("change");

    simulate_key_codes(
        &mut map,
        &mut ed,
        [
            KeyCode::Esc,
            KeyCode::Char('0'),
            KeyCode::Char('2'),
            KeyCode::Char('c'),
            KeyCode::Char('2'),
            KeyCode::Char('l'),
            KeyCode::Char('s'),
            KeyCode::Char('t'),
            KeyCode::Char('r'),
            KeyCode::Char('a'),
            KeyCode::Char('n'),
            KeyCode::Esc,
        ]
        .iter(),
    );
    assert_eq!(ed.cursor(), 4);
    assert_eq!(String::from(ed), "strange");
}

#[test]
/// test a compound count with change and repeat
fn change_with_count_and_repeat() {
    let history = History::new();
    let rules = DefaultEditorRules::default();
    let mut ed = Editor::new(Prompt::from("prompt"), history, &rules);
    let mut map = Vi::new();
    map.init(&mut ed);
    ed.insert_str_after_cursor("change change");

    simulate_key_codes(
        &mut map,
        &mut ed,
        [
            KeyCode::Esc,
            KeyCode::Char('0'),
            KeyCode::Char('2'),
            KeyCode::Char('c'),
            KeyCode::Char('2'),
            KeyCode::Char('l'),
            KeyCode::Char('o'),
            KeyCode::Esc,
            KeyCode::Char('.'),
        ]
        .iter(),
    );
    assert_eq!(ed.cursor(), 0);
    assert_eq!(String::from(ed), "ochange");
}

#[test]
/// test change word
fn change_word() {
    let history = History::new();
    let rules = DefaultEditorRules::default();
    let mut ed = Editor::new(Prompt::from("prompt"), history, &rules);
    let mut map = Vi::new();
    map.init(&mut ed);
    ed.insert_str_after_cursor("change some words");

    simulate_key_codes(
        &mut map,
        &mut ed,
        [
            KeyCode::Esc,
            KeyCode::Char('0'),
            KeyCode::Char('c'),
            KeyCode::Char('w'),
            KeyCode::Char('t'),
            KeyCode::Char('w'),
            KeyCode::Char('e'),
            KeyCode::Char('a'),
            KeyCode::Char('k'),
            KeyCode::Char(' '),
        ]
        .iter(),
    );
    assert_eq!(String::from(ed), "tweak some words");
}

#[test]
/// make sure the count is properly reset
fn test_count_reset_around_insert_and_delete() {
    let history = History::new();
    let rules = DefaultEditorRules::default();
    let mut ed = Editor::new(Prompt::from("prompt"), history, &rules);
    let mut map = Vi::new();
    map.init(&mut ed);
    ed.insert_str_after_cursor("these are some words");

    simulate_key_codes(
        &mut map,
        &mut ed,
        [
            KeyCode::Esc,
            KeyCode::Char('0'),
            KeyCode::Char('d'),
            KeyCode::Char('3'),
            KeyCode::Char('w'),
            KeyCode::Char('i'),
            KeyCode::Char('w'),
            KeyCode::Char('o'),
            KeyCode::Char('r'),
            KeyCode::Char('d'),
            KeyCode::Char('s'),
            KeyCode::Char(' '),
            KeyCode::Esc,
            KeyCode::Char('l'),
            KeyCode::Char('.'),
        ]
        .iter(),
    );
    assert_eq!(String::from(ed), "words words words");
}

#[test]
/// make sure t command does nothing if nothing was found
fn test_t_not_found() {
    let history = History::new();
    let rules = DefaultEditorRules::default();
    let mut ed = Editor::new(Prompt::from("prompt"), history, &rules);
    let mut map = Vi::new();
    map.init(&mut ed);
    ed.insert_str_after_cursor("abc defg");

    simulate_key_codes(
        &mut map,
        &mut ed,
        [
            KeyCode::Esc,
            KeyCode::Char('0'),
            KeyCode::Char('t'),
            KeyCode::Char('z'),
        ]
        .iter(),
    );
    assert_eq!(ed.cursor(), 0);
}

#[test]
/// make sure t command moves the cursor
fn test_t_movement() {
    let history = History::new();
    let rules = DefaultEditorRules::default();
    let mut ed = Editor::new(Prompt::from("prompt"), history, &rules);
    let mut map = Vi::new();
    map.init(&mut ed);
    ed.insert_str_after_cursor("abc defg");

    simulate_key_codes(
        &mut map,
        &mut ed,
        [
            KeyCode::Esc,
            KeyCode::Char('0'),
            KeyCode::Char('t'),
            KeyCode::Char('d'),
        ]
        .iter(),
    );
    assert_eq!(ed.cursor(), 3);
}

#[test]
/// make sure t command moves the cursor
fn test_t_movement_with_count() {
    let history = History::new();
    let rules = DefaultEditorRules::default();
    let mut ed = Editor::new(Prompt::from("prompt"), history, &rules);
    let mut map = Vi::new();
    map.init(&mut ed);
    ed.insert_str_after_cursor("abc defg d");

    simulate_key_codes(
        &mut map,
        &mut ed,
        [
            KeyCode::Esc,
            KeyCode::Char('0'),
            KeyCode::Char('2'),
            KeyCode::Char('t'),
            KeyCode::Char('d'),
        ]
        .iter(),
    );
    assert_eq!(ed.cursor(), 8);
}

#[test]
/// test normal mode after char movement
fn test_t_movement_then_normal() {
    let history = History::new();
    let rules = DefaultEditorRules::default();
    let mut ed = Editor::new(Prompt::from("prompt"), history, &rules);
    let mut map = Vi::new();
    map.init(&mut ed);
    ed.insert_str_after_cursor("abc defg");

    simulate_key_codes(
        &mut map,
        &mut ed,
        [
            KeyCode::Esc,
            KeyCode::Char('0'),
            KeyCode::Char('t'),
            KeyCode::Char('d'),
            KeyCode::Char('l'),
        ]
        .iter(),
    );
    assert_eq!(ed.cursor(), 4);
}

#[test]
/// test delete with char movement
fn test_t_movement_with_delete() {
    let history = History::new();
    let rules = DefaultEditorRules::default();
    let mut ed = Editor::new(Prompt::from("prompt"), history, &rules);
    let mut map = Vi::new();
    map.init(&mut ed);
    ed.insert_str_after_cursor("abc defg");

    simulate_key_codes(
        &mut map,
        &mut ed,
        [
            KeyCode::Esc,
            KeyCode::Char('0'),
            KeyCode::Char('d'),
            KeyCode::Char('t'),
            KeyCode::Char('d'),
        ]
        .iter(),
    );
    assert_eq!(ed.cursor(), 0);
    assert_eq!(String::from(ed), "defg");
}

#[test]
/// test change with char movement
fn test_t_movement_with_change() {
    let history = History::new();
    let rules = DefaultEditorRules::default();
    let mut ed = Editor::new(Prompt::from("prompt"), history, &rules);
    let mut map = Vi::new();
    map.init(&mut ed);
    ed.insert_str_after_cursor("abc defg");

    simulate_key_codes(
        &mut map,
        &mut ed,
        [
            KeyCode::Esc,
            KeyCode::Char('0'),
            KeyCode::Char('c'),
            KeyCode::Char('t'),
            KeyCode::Char('d'),
            KeyCode::Char('z'),
            KeyCode::Char(' '),
            KeyCode::Esc,
        ]
        .iter(),
    );
    assert_eq!(ed.cursor(), 1);
    assert_eq!(String::from(ed), "z defg");
}

#[test]
/// make sure f command moves the cursor
fn test_f_movement() {
    let history = History::new();
    let rules = DefaultEditorRules::default();
    let mut ed = Editor::new(Prompt::from("prompt"), history, &rules);
    let mut map = Vi::new();
    map.init(&mut ed);
    ed.insert_str_after_cursor("abc defg");

    simulate_key_codes(
        &mut map,
        &mut ed,
        [
            KeyCode::Esc,
            KeyCode::Char('0'),
            KeyCode::Char('f'),
            KeyCode::Char('d'),
        ]
        .iter(),
    );
    assert_eq!(ed.cursor(), 4);
}

#[test]
/// make sure T command moves the cursor
fn test_cap_t_movement() {
    let history = History::new();
    let rules = DefaultEditorRules::default();
    let mut ed = Editor::new(Prompt::from("prompt"), history, &rules);
    let mut map = Vi::new();
    map.init(&mut ed);
    ed.insert_str_after_cursor("abc defg");

    simulate_key_codes(
        &mut map,
        &mut ed,
        [
            KeyCode::Esc,
            KeyCode::Char('$'),
            KeyCode::Char('T'),
            KeyCode::Char('d'),
        ]
        .iter(),
    );
    assert_eq!(ed.cursor(), 5);
}

#[test]
/// make sure F command moves the cursor
fn test_cap_f_movement() {
    let history = History::new();
    let rules = DefaultEditorRules::default();
    let mut ed = Editor::new(Prompt::from("prompt"), history, &rules);
    let mut map = Vi::new();
    map.init(&mut ed);
    ed.insert_str_after_cursor("abc defg");

    simulate_key_codes(
        &mut map,
        &mut ed,
        [
            KeyCode::Esc,
            KeyCode::Char('$'),
            KeyCode::Char('F'),
            KeyCode::Char('d'),
        ]
        .iter(),
    );
    assert_eq!(ed.cursor(), 4);
}

#[test]
/// make sure ; command moves the cursor
fn test_semi_movement() {
    let history = History::new();
    let rules = DefaultEditorRules::default();
    let mut ed = Editor::new(Prompt::from("prompt"), history, &rules);
    let mut map = Vi::new();
    map.init(&mut ed);
    ed.insert_str_after_cursor("abc abc");

    simulate_key_codes(
        &mut map,
        &mut ed,
        [
            KeyCode::Esc,
            KeyCode::Char('0'),
            KeyCode::Char('f'),
            KeyCode::Char('c'),
            KeyCode::Char(';'),
        ]
        .iter(),
    );
    assert_eq!(ed.cursor(), 6);
}

#[test]
/// make sure , command moves the cursor
fn test_comma_movement() {
    let history = History::new();
    let rules = DefaultEditorRules::default();
    let mut ed = Editor::new(Prompt::from("prompt"), history, &rules);
    let mut map = Vi::new();
    map.init(&mut ed);
    ed.insert_str_after_cursor("abc abc");

    simulate_key_codes(
        &mut map,
        &mut ed,
        [
            KeyCode::Esc,
            KeyCode::Char('0'),
            KeyCode::Char('f'),
            KeyCode::Char('c'),
            KeyCode::Char('$'),
            KeyCode::Char(','),
        ]
        .iter(),
    );
    assert_eq!(ed.cursor(), 2);
}

#[test]
/// test delete with semi (;)
fn test_semi_delete() {
    let history = History::new();
    let rules = DefaultEditorRules::default();
    let mut ed = Editor::new(Prompt::from("prompt"), history, &rules);
    let mut map = Vi::new();
    map.init(&mut ed);
    ed.insert_str_after_cursor("abc abc");

    simulate_key_codes(
        &mut map,
        &mut ed,
        [
            KeyCode::Esc,
            KeyCode::Char('0'),
            KeyCode::Char('f'),
            KeyCode::Char('c'),
            KeyCode::Char('d'),
            KeyCode::Char(';'),
        ]
        .iter(),
    );
    assert_eq!(ed.cursor(), 1);
    assert_eq!(String::from(ed), "ab");
}

#[test]
/// test delete with semi (;) and repeat
fn test_semi_delete_repeat() {
    let history = History::new();
    let rules = DefaultEditorRules::default();
    let mut ed = Editor::new(Prompt::from("prompt"), history, &rules);
    let mut map = Vi::new();
    map.init(&mut ed);
    ed.insert_str_after_cursor("abc abc abc abc");

    simulate_key_codes(
        &mut map,
        &mut ed,
        [
            KeyCode::Esc,
            KeyCode::Char('0'),
            KeyCode::Char('f'),
            KeyCode::Char('c'),
            KeyCode::Char('d'),
            KeyCode::Char(';'),
            KeyCode::Char('.'),
            KeyCode::Char('.'),
        ]
        .iter(),
    );
    assert_eq!(String::from(ed), "ab");
}

#[test]
/// undo with counts
fn test_undo_with_counts() {
    let history = History::new();
    let rules = DefaultEditorRules::default();
    let mut ed = Editor::new(Prompt::from("prompt"), history, &rules);
    let mut map = Vi::new();
    map.init(&mut ed);
    ed.insert_str_after_cursor("abcdefg");

    simulate_key_codes(
        &mut map,
        &mut ed,
        [
            KeyCode::Esc,
            KeyCode::Char('x'),
            KeyCode::Char('x'),
            KeyCode::Char('x'),
            KeyCode::Char('3'),
            KeyCode::Char('u'),
        ]
        .iter(),
    );
    assert_eq!(ed.cursor(), 6);
    assert_eq!(String::from(ed), "abcdefg");
}

#[test]
/// redo with counts
fn test_redo_with_counts() {
    let history = History::new();
    let rules = DefaultEditorRules::default();
    let mut ed = Editor::new(Prompt::from("prompt"), history, &rules);
    let mut map = Vi::new();
    map.init(&mut ed);
    ed.insert_str_after_cursor("abcdefg");

    simulate_keys(
        &mut map,
        &mut ed,
        [
            Key::new(KeyCode::Esc),
            Key::new(KeyCode::Char('x')),
            Key::new(KeyCode::Char('x')),
            Key::new(KeyCode::Char('x')),
            Key::new(KeyCode::Char('u')),
            Key::new(KeyCode::Char('u')),
            Key::new(KeyCode::Char('u')),
        ]
        .iter(),
    );
    // Ctrl-r taken by incremental search so do this manually.
    map.handle_redo(&mut ed);
    map.handle_redo(&mut ed);
    assert_eq!(ed.cursor(), 4);
    assert_eq!(String::from(ed), "abcde");
}

#[test]
/// test change word with 'gE'
fn change_word_ge_ws() {
    let history = History::new();
    let rules = DefaultEditorRules::default();
    let mut ed = Editor::new(Prompt::from("prompt"), history, &rules);
    let mut map = Vi::new();
    map.init(&mut ed);
    ed.insert_str_after_cursor("change some words");

    simulate_key_codes(
        &mut map,
        &mut ed,
        [
            KeyCode::Esc,
            KeyCode::Char('c'),
            KeyCode::Char('g'),
            KeyCode::Char('E'),
            KeyCode::Char('e'),
            KeyCode::Char('t'),
            KeyCode::Char('h'),
            KeyCode::Char('i'),
            KeyCode::Char('n'),
            KeyCode::Char('g'),
            KeyCode::Esc,
        ]
        .iter(),
    );
    assert_eq!(String::from(ed), "change something");
}

#[test]
/// test undo in groups
fn undo_insert() {
    let history = History::new();
    let rules = DefaultEditorRules::default();
    let mut ed = Editor::new(Prompt::from("prompt"), history, &rules);
    let mut map = Vi::new();
    map.init(&mut ed);

    simulate_key_codes(
        &mut map,
        &mut ed,
        [
            KeyCode::Char('i'),
            KeyCode::Char('n'),
            KeyCode::Char('s'),
            KeyCode::Char('e'),
            KeyCode::Char('r'),
            KeyCode::Char('t'),
            KeyCode::Esc,
            KeyCode::Char('u'),
        ]
        .iter(),
    );
    assert_eq!(ed.cursor(), 0);
    assert_eq!(String::from(ed), "");
}

#[test]
/// test undo in groups
fn undo_insert2() {
    let history = History::new();
    let rules = DefaultEditorRules::default();
    let mut ed = Editor::new(Prompt::from("prompt"), history, &rules);
    let mut map = Vi::new();
    map.init(&mut ed);

    simulate_key_codes(
        &mut map,
        &mut ed,
        [
            KeyCode::Esc,
            KeyCode::Char('i'),
            KeyCode::Char('i'),
            KeyCode::Char('n'),
            KeyCode::Char('s'),
            KeyCode::Char('e'),
            KeyCode::Char('r'),
            KeyCode::Char('t'),
            KeyCode::Esc,
            KeyCode::Char('u'),
        ]
        .iter(),
    );
    assert_eq!(ed.cursor(), 0);
    assert_eq!(String::from(ed), "");
}

#[test]
/// test undo in groups
fn undo_insert_with_history() {
    let mut history = History::new();
    history.push(Buffer::from("insert-xxx"));
    let rules = DefaultEditorRules::default();
    let mut ed = Editor::new(Prompt::from("prompt"), history, &rules);
    let mut map = Vi::new();
    map.init(&mut ed);

    simulate_key_codes(
        &mut map,
        &mut ed,
        [
            KeyCode::Esc,
            KeyCode::Char('i'),
            KeyCode::Char('i'),
            KeyCode::Char('n'),
            KeyCode::Char('s'),
            KeyCode::Char('e'),
            KeyCode::Char('r'),
            KeyCode::Char('t'),
            KeyCode::Up,
            KeyCode::Char('h'),
            KeyCode::Char('i'),
            KeyCode::Char('s'),
            KeyCode::Char('t'),
            KeyCode::Char('o'),
            KeyCode::Char('r'),
            KeyCode::Char('y'),
            KeyCode::Down,
            KeyCode::Char(' '),
            KeyCode::Char('t'),
            KeyCode::Char('e'),
            KeyCode::Char('x'),
            KeyCode::Char('t'),
            KeyCode::Esc,
            KeyCode::Char('u'),
        ]
        .iter(),
    );
    assert_eq!(ed.cursor(), 5);
    assert_eq!(String::from(ed), "insert");
}

#[test]
/// test undo in groups
fn undo_insert_with_history2() {
    let mut history = History::new();
    history.push(Buffer::from(""));
    let rules = DefaultEditorRules::default();
    let mut ed = Editor::new(Prompt::from("prompt"), history, &rules);
    let mut map = Vi::new();
    map.init(&mut ed);

    simulate_key_codes(
        &mut map,
        &mut ed,
        [
            KeyCode::Esc,
            KeyCode::Char('i'),
            KeyCode::Char('i'),
            KeyCode::Char('n'),
            KeyCode::Char('s'),
            KeyCode::Char('e'),
            KeyCode::Char('r'),
            KeyCode::Char('t'),
            KeyCode::Up,
            KeyCode::Esc,
            KeyCode::Down,
            KeyCode::Char('u'),
        ]
        .iter(),
    );
    assert_eq!(ed.cursor(), 0);
    assert_eq!(String::from(ed), "");
}

#[test]
/// test undo in groups
fn undo_insert_with_movement_reset() {
    let history = History::new();
    let rules = DefaultEditorRules::default();
    let mut ed = Editor::new(Prompt::from("prompt"), history, &rules);
    let mut map = Vi::new();
    map.init(&mut ed);

    simulate_key_codes(
        &mut map,
        &mut ed,
        [
            KeyCode::Esc,
            KeyCode::Char('i'),
            KeyCode::Char('i'),
            KeyCode::Char('n'),
            KeyCode::Char('s'),
            KeyCode::Char('e'),
            KeyCode::Char('r'),
            KeyCode::Char('t'),
            // movement reset will get triggered here
            KeyCode::Left,
            KeyCode::Right,
            KeyCode::Char(' '),
            KeyCode::Char('t'),
            KeyCode::Char('e'),
            KeyCode::Char('x'),
            KeyCode::Char('t'),
            KeyCode::Esc,
            KeyCode::Char('u'),
        ]
        .iter(),
    );
    assert_eq!(ed.cursor(), 5);
    assert_eq!(String::from(ed), "insert");
}

#[test]
/// test undo in groups
fn undo_3x() {
    let history = History::new();
    let rules = DefaultEditorRules::default();
    let mut ed = Editor::new(Prompt::from("prompt"), history, &rules);
    let mut map = Vi::new();
    map.init(&mut ed);
    ed.insert_str_after_cursor("rm some words");

    simulate_key_codes(
        &mut map,
        &mut ed,
        [
            KeyCode::Esc,
            KeyCode::Char('0'),
            KeyCode::Char('3'),
            KeyCode::Char('x'),
            KeyCode::Char('u'),
        ]
        .iter(),
    );
    assert_eq!(ed.cursor(), 0);
    assert_eq!(String::from(ed), "rm some words");
}

#[test]
/// test undo in groups
fn undo_insert_with_count() {
    let history = History::new();
    let rules = DefaultEditorRules::default();
    let mut ed = Editor::new(Prompt::from("prompt"), history, &rules);
    let mut map = Vi::new();
    map.init(&mut ed);

    simulate_key_codes(
        &mut map,
        &mut ed,
        [
            KeyCode::Char('i'),
            KeyCode::Char('n'),
            KeyCode::Char('s'),
            KeyCode::Char('e'),
            KeyCode::Char('r'),
            KeyCode::Char('t'),
            KeyCode::Esc,
            KeyCode::Char('3'),
            KeyCode::Char('i'),
            KeyCode::Char('i'),
            KeyCode::Char('n'),
            KeyCode::Char('s'),
            KeyCode::Char('e'),
            KeyCode::Char('r'),
            KeyCode::Char('t'),
            KeyCode::Esc,
            KeyCode::Char('u'),
        ]
        .iter(),
    );
    assert_eq!(ed.cursor(), 5);
    assert_eq!(String::from(ed), "insert");
}

#[test]
/// test undo in groups
fn undo_insert_with_repeat() {
    let history = History::new();
    let rules = DefaultEditorRules::default();
    let mut ed = Editor::new(Prompt::from("prompt"), history, &rules);
    let mut map = Vi::new();
    map.init(&mut ed);

    simulate_key_codes(
        &mut map,
        &mut ed,
        [
            KeyCode::Char('i'),
            KeyCode::Char('n'),
            KeyCode::Char('s'),
            KeyCode::Char('e'),
            KeyCode::Char('r'),
            KeyCode::Char('t'),
            KeyCode::Esc,
            KeyCode::Char('3'),
            KeyCode::Char('.'),
            KeyCode::Esc,
            KeyCode::Char('u'),
        ]
        .iter(),
    );
    assert_eq!(ed.cursor(), 5);
    assert_eq!(String::from(ed), "insert");
}

#[test]
/// test undo in groups
fn undo_s_with_count() {
    let history = History::new();
    let rules = DefaultEditorRules::default();
    let mut ed = Editor::new(Prompt::from("prompt"), history, &rules);
    let mut map = Vi::new();
    map.init(&mut ed);
    ed.insert_str_after_cursor(
        "replace so\u{1f469}\u{200d}\u{1f4bb}\u{1f469}\u{200d}\u{1f4bb}me words",
    );

    simulate_key_codes(
        &mut map,
        &mut ed,
        [
            KeyCode::Esc,
            KeyCode::Char('0'),
            KeyCode::Char('8'),
            KeyCode::Char('s'),
            KeyCode::Char('o'),
            KeyCode::Char('k'),
            KeyCode::Esc,
            KeyCode::Char('u'),
        ]
        .iter(),
    );
    assert_eq!(
        String::from(ed),
        "replace so\u{1f469}\u{200d}\u{1f4bb}\u{1f469}\u{200d}\u{1f4bb}me words"
    );
}

#[test]
/// test undo in groups
fn undo_multiple_groups() {
    let history = History::new();
    let rules = DefaultEditorRules::default();
    let mut ed = Editor::new(Prompt::from("prompt"), history, &rules);
    let mut map = Vi::new();
    map.init(&mut ed);
    ed.insert_str_after_cursor("replace some words");

    simulate_key_codes(
        &mut map,
        &mut ed,
        [
            KeyCode::Esc,
            KeyCode::Char('A'),
            KeyCode::Char(' '),
            KeyCode::Char('h'),
            KeyCode::Char('e'),
            KeyCode::Char('r'),
            KeyCode::Char('e'),
            KeyCode::Esc,
            KeyCode::Char('0'),
            KeyCode::Char('8'),
            KeyCode::Char('s'),
            KeyCode::Char('o'),
            KeyCode::Char('k'),
            KeyCode::Esc,
            KeyCode::Char('2'),
            KeyCode::Char('u'),
        ]
        .iter(),
    );
    assert_eq!(String::from(ed), "replace some words");
}

#[test]
/// test undo in groups
fn undo_r_command_with_count() {
    let history = History::new();
    let rules = DefaultEditorRules::default();
    let mut ed = Editor::new(Prompt::from("prompt"), history, &rules);
    let mut map = Vi::new();
    map.init(&mut ed);
    ed.insert_str_after_cursor("replace some words");

    simulate_key_codes(
        &mut map,
        &mut ed,
        [
            KeyCode::Esc,
            KeyCode::Char('0'),
            KeyCode::Char('8'),
            KeyCode::Char('r'),
            KeyCode::Char(' '),
            KeyCode::Char('u'),
        ]
        .iter(),
    );
    assert_eq!(String::from(ed), "replace some words");
}

#[test]
/// test tilde
fn tilde_basic() {
    let history = History::new();
    let rules = DefaultEditorRules::default();
    let mut ed = Editor::new(Prompt::from("prompt"), history, &rules);
    let mut map = Vi::new();
    map.init(&mut ed);
    ed.insert_str_after_cursor("tilde");

    simulate_key_codes(&mut map, &mut ed, [KeyCode::Esc, KeyCode::Char('~')].iter());
    assert_eq!(String::from(ed), "tildE");
}

#[test]
/// test tilde
fn tilde_basic2() {
    let history = History::new();
    let rules = DefaultEditorRules::default();
    let mut ed = Editor::new(Prompt::from("prompt"), history, &rules);
    let mut map = Vi::new();
    map.init(&mut ed);
    ed.insert_str_after_cursor("tilde");

    simulate_key_codes(
        &mut map,
        &mut ed,
        [KeyCode::Esc, KeyCode::Char('~'), KeyCode::Char('~')].iter(),
    );
    assert_eq!(String::from(ed), "tilde");
}

#[test]
/// test tilde
fn tilde_move() {
    let history = History::new();
    let rules = DefaultEditorRules::default();
    let mut ed = Editor::new(Prompt::from("prompt"), history, &rules);
    let mut map = Vi::new();
    map.init(&mut ed);
    ed.insert_str_after_cursor("tilde");

    simulate_key_codes(
        &mut map,
        &mut ed,
        [
            KeyCode::Esc,
            KeyCode::Char('0'),
            KeyCode::Char('~'),
            KeyCode::Char('~'),
        ]
        .iter(),
    );
    assert_eq!(String::from(ed), "TIlde");
}

#[test]
/// test tilde
fn tilde_repeat() {
    let history = History::new();
    let rules = DefaultEditorRules::default();
    let mut ed = Editor::new(Prompt::from("prompt"), history, &rules);
    let mut map = Vi::new();
    map.init(&mut ed);
    ed.insert_str_after_cursor("tilde");

    simulate_key_codes(
        &mut map,
        &mut ed,
        [KeyCode::Esc, KeyCode::Char('~'), KeyCode::Char('.')].iter(),
    );
    assert_eq!(String::from(ed), "tilde");
}

#[test]
/// test tilde
fn tilde_count() {
    let history = History::new();
    let rules = DefaultEditorRules::default();
    let mut ed = Editor::new(Prompt::from("prompt"), history, &rules);
    let mut map = Vi::new();
    map.init(&mut ed);
    ed.insert_str_after_cursor("tilde");

    simulate_key_codes(
        &mut map,
        &mut ed,
        [
            KeyCode::Esc,
            KeyCode::Char('0'),
            KeyCode::Char('1'),
            KeyCode::Char('0'),
            KeyCode::Char('~'),
        ]
        .iter(),
    );
    assert_eq!(String::from(ed), "TILDE");
}

#[test]
/// test tilde
fn tilde_count_short() {
    let history = History::new();
    let rules = DefaultEditorRules::default();
    let mut ed = Editor::new(Prompt::from("prompt"), history, &rules);
    let mut map = Vi::new();
    map.init(&mut ed);
    ed.insert_str_after_cursor("TILDE");

    simulate_key_codes(
        &mut map,
        &mut ed,
        [
            KeyCode::Esc,
            KeyCode::Char('0'),
            KeyCode::Char('2'),
            KeyCode::Char('~'),
        ]
        .iter(),
    );
    assert_eq!(String::from(ed), "tiLDE");
}

#[test]
/// test tilde
fn tilde_nocase() {
    let history = History::new();
    let rules = DefaultEditorRules::default();
    let mut ed = Editor::new(Prompt::from("prompt"), history, &rules);
    let mut map = Vi::new();
    map.init(&mut ed);
    ed.insert_str_after_cursor("ti_lde");

    simulate_key_codes(
        &mut map,
        &mut ed,
        [
            KeyCode::Esc,
            KeyCode::Char('0'),
            KeyCode::Char('6'),
            KeyCode::Char('~'),
        ]
        .iter(),
    );
    assert_eq!(String::from(ed), "TI_LDE");
}

#[test]
/// ctrl-h should act as backspace
fn vi_ctrl_h() {
    let history = History::new();
    let rules = DefaultEditorRules::default();
    let mut ed = Editor::new(Prompt::from("prompt"), history, &rules);
    let mut map = Vi::new();
    map.init(&mut ed);
    ed.insert_str_after_cursor("not empty");

    let res = map.handle_key(
        Key::new_mod(KeyCode::Char('h'), KeyMod::Ctrl),
        &mut ed,
        &mut EmptyCompleter::new(),
        NOW,
    );
    assert_eq!(res.is_ok(), true);
    assert_eq!(ed.current_buffer().to_string(), "not empt".to_string());
}

#[test]
/// repeat char move with no last char
fn repeat_char_move_no_char() {
    let history = History::new();
    let rules = DefaultEditorRules::default();
    let mut ed = Editor::new(Prompt::from("prompt"), history, &rules);
    let mut map = Vi::new();
    map.init(&mut ed);
    ed.insert_str_after_cursor("abc defg");

    simulate_key_codes(
        &mut map,
        &mut ed,
        [KeyCode::Esc, KeyCode::Char('$'), KeyCode::Char(';')].iter(),
    );
    assert_eq!(ed.cursor(), 7);
}

#[test]
fn test_yank_and_put_back() {
    let history = History::new();
    let rules = DefaultEditorRules::default();
    let mut ed = Editor::new(Prompt::from("prompt"), history, &rules);
    let mut map = Vi::new();
    map.init(&mut ed);
    ed.insert_str_after_cursor("abc defg");

    simulate_key_codes(
        &mut map,
        &mut ed,
        [
            KeyCode::Esc,
            KeyCode::Char('0'),
            KeyCode::Char('y'),
            KeyCode::Char('$'),
            KeyCode::Char('P'),
        ]
        .iter(),
    );
    assert_eq!(ed.cursor(), 7);
    assert_eq!(String::from(ed), "abc defgabc defg");
}

#[test]
fn test_delete_surround_text_object() {
    let history = History::new();
    let rules = DefaultEditorRules::default();
    let mut ed = Editor::new(Prompt::from("prompt"), history, &rules);
    let mut map = Vi::new();
    map.init(&mut ed);
    ed.insert_str_after_cursor("(ab\u{1f469}\u{200d}\u{1f4bb} \u{1f469}\u{200d}\u{1f4bb}efg)");

    simulate_key_codes(
        &mut map,
        &mut ed,
        [
            KeyCode::Esc,
            KeyCode::Char('0'),
            KeyCode::Char('d'),
            KeyCode::Char('i'),
            KeyCode::Char('('),
        ]
        .iter(),
    );
    assert_eq!(ed.cursor(), 1);
    assert_eq!(String::from(ed), "()");
}

#[test]
fn test_delete_surround_empty_text_object() {
    let history = History::new();
    let rules = DefaultEditorRules::default();
    let mut ed = Editor::new(Prompt::from("prompt"), history, &rules);
    let mut map = Vi::new();
    map.init(&mut ed);
    ed.insert_str_after_cursor("()");

    simulate_key_codes(
        &mut map,
        &mut ed,
        [
            KeyCode::Esc,
            KeyCode::Char('0'),
            KeyCode::Char('d'),
            KeyCode::Char('i'),
            KeyCode::Char('('),
        ]
        .iter(),
    );
    assert_eq!(ed.cursor(), 1);
    assert_eq!(String::from(ed), "()");
}

#[test]
fn test_delete_surround_text_object_paste() {
    let history = History::new();
    let rules = DefaultEditorRules::default();
    let mut ed = Editor::new(Prompt::from("prompt"), history, &rules);
    let mut map = Vi::new();
    map.init(&mut ed);
    ed.insert_str_after_cursor("aaaa(Bbbb)cccc");

    simulate_key_codes(
        &mut map,
        &mut ed,
        [
            KeyCode::Esc,
            KeyCode::Char('0'),
            KeyCode::Char('2'),
            KeyCode::Char('w'),
            KeyCode::Char('d'),
            KeyCode::Char('i'),
            KeyCode::Char(')'),
            KeyCode::Char('p'),
        ]
        .iter(),
    );
    assert_eq!(ed.cursor(), 9);
    assert_eq!(String::from(ed), "aaaa()Bbbbcccc");
}

#[test]
fn test_delete_surround_text_object_over_match_character_left() {
    let history = History::new();
    let rules = DefaultEditorRules::default();
    let mut ed = Editor::new(Prompt::from("prompt"), history, &rules);
    let mut map = Vi::new();
    map.init(&mut ed);
    ed.insert_str_after_cursor("`aaaa` bbbb `cccc`");

    simulate_key_codes(
        &mut map,
        &mut ed,
        [
            KeyCode::Esc,
            KeyCode::Char('5'),
            KeyCode::Char('h'),
            KeyCode::Char('d'),
            KeyCode::Char('a'),
            KeyCode::Char('`'),
        ]
        .iter(),
    );
    assert_eq!(ed.cursor(), 5);
    assert_eq!(String::from(ed), "`aaaacccc`");
}

#[test]
fn test_delete_surround_text_object_over_match_character_no_match() {
    let history = History::new();
    let rules = DefaultEditorRules::default();
    let mut ed = Editor::new(Prompt::from("prompt"), history, &rules);
    let mut map = Vi::new();
    map.init(&mut ed);
    ed.insert_str_after_cursor("aaaa bbbb 'cccc");

    simulate_key_codes(
        &mut map,
        &mut ed,
        [
            KeyCode::Esc,
            KeyCode::Char('4'),
            KeyCode::Char('h'),
            KeyCode::Char('d'),
            KeyCode::Char('i'),
            KeyCode::Char('\''),
        ]
        .iter(),
    );
    assert_eq!(ed.cursor(), 10);
    assert_eq!(String::from(ed), "aaaa bbbb 'cccc");
}

#[test]
fn test_yank_surround_text_object() {
    let history = History::new();
    let rules = DefaultEditorRules::default();
    let mut ed = Editor::new(Prompt::from("prompt"), history, &rules);
    let mut map = Vi::new();
    map.init(&mut ed);
    ed.insert_str_after_cursor("echo \"hello world\u{1f469}\u{200d}\u{1f52c}\"");

    simulate_key_codes(
        &mut map,
        &mut ed,
        [
            KeyCode::Esc,
            KeyCode::Char('y'),
            KeyCode::Char('i'),
            KeyCode::Char('"'),
            KeyCode::Char('P'),
        ]
        .iter(),
    );
    assert_eq!(ed.cursor(), 17);
    assert_eq!(
        String::from(ed),
        "echo \"hello world\u{1f469}\u{200d}\u{1f52c}hello world\u{1f469}\u{200d}\u{1f52c}\""
    );
}

#[test]
fn test_change_surround_text_object() {
    let history = History::new();
    let rules = DefaultEditorRules::default();
    let mut ed = Editor::new(Prompt::from("prompt"), history, &rules);
    let mut map = Vi::new();
    map.init(&mut ed);
    ed.insert_str_after_cursor("echo ");

    simulate_key_codes(
        &mut map,
        &mut ed,
        [
            KeyCode::Esc,
            KeyCode::Char('c'),
            KeyCode::Char('a'),
            KeyCode::Char('}'),
            KeyCode::Esc,
        ]
        .iter(),
    );
    assert_eq!(ed.cursor(), 4);
    assert_eq!(String::from(ed), "echo ");
}

#[test]
fn test_change_and_insert_surround_text_object() {
    let history = History::new();
    let rules = DefaultEditorRules::default();
    let mut ed = Editor::new(Prompt::from("prompt"), history, &rules);
    let mut map = Vi::new();
    map.init(&mut ed);
    ed.insert_str_after_cursor(
        "echo [hello \u{1f469}\u{200d}\u{1f52c}\u{1f469}\u{200d}\u{1f52c} world]",
    );

    simulate_key_codes(
        &mut map,
        &mut ed,
        [
            KeyCode::Esc,
            KeyCode::Char('c'),
            KeyCode::Char('i'),
            KeyCode::Char('['),
            KeyCode::Char('o'),
            KeyCode::Char('h'),
            KeyCode::Char(' '),
            KeyCode::Char('h'),
            KeyCode::Char('i'),
            KeyCode::Esc,
        ]
        .iter(),
    );
    assert_eq!(ed.cursor(), 10);
    assert_eq!(String::from(ed), "echo [oh hi]");
}

#[test]
fn test_yank_and_delete_surround_xml() {
    let history = History::new();
    let rules = DefaultEditorRules::default();
    let mut ed = Editor::new(Prompt::from("prompt"), history, &rules);
    let mut map = Vi::new();
    map.init(&mut ed);
    ed.insert_str_after_cursor(
        "<div id='foo'>\u{1f468}\u{200d}\u{1f52c}content\u{1f468}\u{200d}\u{1f52c}</p>",
    );

    simulate_key_codes(
        &mut map,
        &mut ed,
        [
            KeyCode::Esc,
            KeyCode::Char('0'),
            KeyCode::Char('w'),
            KeyCode::Char('c'),
            KeyCode::Char('i'),
            KeyCode::Char('>'),
            KeyCode::Char('p'),
            KeyCode::Esc,
            KeyCode::Char('2'),
            KeyCode::Char('w'),
            KeyCode::Char('d'),
            KeyCode::Char('i'),
            KeyCode::Char('t'),
            KeyCode::Esc,
        ]
        .iter(),
    );
    assert_eq!(ed.cursor(), 3);
    assert_eq!(String::from(ed), "<p></p>");
}

#[test]
fn test_do_not_match_asymmetrical_surround_objects() {
    let history = History::new();
    let rules = DefaultEditorRules::default();
    let mut ed = Editor::new(Prompt::from("prompt"), history, &rules);
    let mut map = Vi::new();
    map.init(&mut ed);
    ed.insert_str_after_cursor("aaabbb)ccc)ddd");

    simulate_key_codes(
        &mut map,
        &mut ed,
        [
            KeyCode::Esc,
            KeyCode::Char('4'),
            KeyCode::Char('b'),
            KeyCode::Char('d'),
            KeyCode::Char('i'),
            KeyCode::Char('('),
        ]
        .iter(),
    );
    assert_eq!(ed.cursor(), 6);
    assert_eq!(String::from(ed), "aaabbb)ccc)ddd");
}

#[test]
fn test_do_not_match_unbalanced_asymmetrical_surround_objects_close() {
    let history = History::new();
    let rules = DefaultEditorRules::default();
    let mut ed = Editor::new(Prompt::from("prompt"), history, &rules);
    let mut map = Vi::new();
    map.init(&mut ed);
    ed.insert_str_after_cursor("aaaa(bbbb)ccc)ddd");

    simulate_key_codes(
        &mut map,
        &mut ed,
        [
            KeyCode::Esc,
            KeyCode::Char('4'),
            KeyCode::Char('h'),
            KeyCode::Char('d'),
            KeyCode::Char('i'),
            KeyCode::Char('('),
        ]
        .iter(),
    );
    assert_eq!(ed.cursor(), 12);
    assert_eq!(String::from(ed), "aaaa(bbbb)ccc)ddd");
}

#[test]
fn test_do_not_match_unbalanced_asymmetrical_surround_objects_open() {
    let history = History::new();
    let rules = DefaultEditorRules::default();
    let mut ed = Editor::new(Prompt::from("prompt"), history, &rules);
    let mut map = Vi::new();
    map.init(&mut ed);
    ed.insert_str_after_cursor("(aaaa(bbbb)cccddd");

    simulate_key_codes(
        &mut map,
        &mut ed,
        [
            KeyCode::Esc,
            KeyCode::Char('0'),
            KeyCode::Char('d'),
            KeyCode::Char('i'),
            KeyCode::Char(')'),
        ]
        .iter(),
    );
    assert_eq!(ed.cursor(), 0);
    assert_eq!(String::from(ed), "(aaaa(bbbb)cccddd");
}

#[test]
fn test_do_not_match_surround_balanced_text_objects_with_count() {
    let history = History::new();
    let rules = DefaultEditorRules::default();
    let mut ed = Editor::new(Prompt::from("prompt"), history, &rules);
    let mut map = Vi::new();
    map.init(&mut ed);
    ed.insert_str_after_cursor("(aaaa(bbbb)cccddd");

    simulate_key_codes(
        &mut map,
        &mut ed,
        [
            KeyCode::Esc,
            KeyCode::Char('0'),
            KeyCode::Char('3'),
            KeyCode::Char('w'),
            KeyCode::Char('2'),
            KeyCode::Char('d'),
            KeyCode::Char('i'),
            KeyCode::Char(')'),
        ]
        .iter(),
    );
    assert_eq!(ed.cursor(), 6);
    assert_eq!(String::from(ed), "(aaaa(bbbb)cccddd");
}

#[test]
fn test_match_surround_balanced_text_objects_with_count() {
    let history = History::new();
    let rules = DefaultEditorRules::default();
    let mut ed = Editor::new(Prompt::from("prompt"), history, &rules);
    let mut map = Vi::new();
    map.init(&mut ed);
    ed.insert_str_after_cursor("(aaaa(bbbb)cccddd)");

    simulate_key_codes(
        &mut map,
        &mut ed,
        [
            KeyCode::Esc,
            KeyCode::Char('0'),
            KeyCode::Char('3'),
            KeyCode::Char('w'),
            KeyCode::Char('2'),
            KeyCode::Char('d'),
            KeyCode::Char('i'),
            KeyCode::Char(')'),
        ]
        .iter(),
    );
    assert_eq!(ed.cursor(), 1);
    assert_eq!(String::from(ed), "()");
}

#[test]
fn yank_line_leaves_the_text() {
    let history = History::new();
    let rules = DefaultEditorRules::default();
    let mut ed = Editor::new(Prompt::from("prompt"), history, &rules);
    let mut map = Vi::new();
    map.init(&mut ed);
    ed.insert_str_after_cursor("keep me");

    simulate_key_codes(
        &mut map,
        &mut ed,
        [KeyCode::Esc, KeyCode::Char('y'), KeyCode::Char('y')].iter(),
    );
    assert_eq!(String::from(ed), "keep me");
}

#[test]
fn motions_in_normal_mode_leave_the_text() {
    let history = History::new();
    let rules = DefaultEditorRules::default();
    let mut ed = Editor::new(Prompt::from("prompt"), history, &rules);
    let mut map = Vi::new();
    map.init(&mut ed);
    ed.insert_str_after_cursor("one two three");

    simulate_key_codes(
        &mut map,
        &mut ed,
        [
            KeyCode::Esc,
            KeyCode::Char('0'),
            KeyCode::Char('w'),
            KeyCode::Char('e'),
            KeyCode::Char('b'),
            KeyCode::Char('$'),
            KeyCode::Char('h'),
            KeyCode::Char('g'),
            KeyCode::Char('e'),
        ]
        .iter(),
    );
    assert_eq!(ed.cursor(), 6);
    assert_eq!(String::from(ed), "one two three");
}

#[test]
fn replace_without_room_changes_nothing() {
    let history = History::new();
    let rules = DefaultEditorRules::default();
    let mut ed = Editor::new(Prompt::from("prompt"), history, &rules);
    let mut map = Vi::new();
    map.init(&mut ed);
    ed.insert_str_after_cursor("abc");

    simulate_key_codes(
        &mut map,
        &mut ed,
        [
            KeyCode::Esc,
            KeyCode::Char('0'),
            KeyCode::Char('5'),
            KeyCode::Char('r'),
            KeyCode::Char('x'),
        ]
        .iter(),
    );
    assert_eq!(String::from(ed), "abc");
}

#[test]
fn delete_to_end_and_to_start() {
    let history = History::new();
    let rules = DefaultEditorRules::default();
    let mut ed = Editor::new(Prompt::from("prompt"), history, &rules);
    let mut map = Vi::new();
    map.init(&mut ed);
    ed.insert_str_after_cursor("abcdef");

    simulate_key_codes(
        &mut map,
        &mut ed,
        [
            KeyCode::Esc,
            KeyCode::Char('0'),
            KeyCode::Char('l'),
            KeyCode::Char('l'),
            KeyCode::Char('d'),
            KeyCode::Char('0'),
        ]
        .iter(),
    );
    assert_eq!(ed.current_buffer().to_string(), "cdef");
    simulate_key_codes(
        &mut map,
        &mut ed,
        [KeyCode::Char('l'), KeyCode::Char('d'), KeyCode::Char('$')].iter(),
    );
    assert_eq!(String::from(ed), "c");
}

#[test]
fn delete_inside_parentheses() {
    let history = History::new();
    let rules = DefaultEditorRules::default();
    let mut ed = Editor::new(Prompt::from("prompt"), history, &rules);
    let mut map = Vi::new();
    map.init(&mut ed);
    ed.insert_str_after_cursor("f(a(b)c)d");

    simulate_key_codes(
        &mut map,
        &mut ed,
        [
            KeyCode::Esc,
            KeyCode::Char('0'),
            KeyCode::Char('l'),
            KeyCode::Char('l'),
            KeyCode::Char('d'),
            KeyCode::Char('i'),
            KeyCode::Char('('),
        ]
        .iter(),
    );
    assert_eq!(String::from(ed), "f()d");
}

#[test]
fn delete_through_and_until_a_character() {
    let history = History::new();
    let rules = DefaultEditorRules::default();
    let mut ed = Editor::new(Prompt::from("prompt"), history, &rules);
    let mut map = Vi::new();
    map.init(&mut ed);
    ed.insert_str_after_cursor("one,two,three");

    simulate_key_codes(
        &mut map,
        &mut ed,
        [
            KeyCode::Esc,
            KeyCode::Char('0'),
            KeyCode::Char('d'),
            KeyCode::Char('f'),
            KeyCode::Char(','),
        ]
        .iter(),
    );
    assert_eq!(ed.current_buffer().to_string(), "two,three");
    simulate_key_codes(
        &mut map,
        &mut ed,
        [KeyCode::Char('d'), KeyCode::Char('t'), KeyCode::Char(',')].iter(),
    );
    assert_eq!(String::from(ed), ",three");
}

#[test]
fn tilde_flips_the_case_of_counted_graphemes() {
    let history = History::new();
    let rules = DefaultEditorRules::default();
    let mut ed = Editor::new(Prompt::from("prompt"), history, &rules);
    let mut map = Vi::new();
    map.init(&mut ed);
    ed.insert_str_after_cursor("abC1d");

    simulate_key_codes(
        &mut map,
        &mut ed,
        [
            KeyCode::Esc,
            KeyCode::Char('0'),
            KeyCode::Char('4'),
            KeyCode::Char('~'),
        ]
        .iter(),
    );
    assert_eq!(String::from(ed), "ABc1d");
}

#[test]
fn vi_escape_steps_back_into_normal_mode() {
    let history = History::new();
    let rules = DefaultEditorRules::default();
    let mut ed = Editor::new(Prompt::from("prompt"), history, &rules);
    let mut map = Vi::new();
    map.init(&mut ed);
    ed.insert_str_after_cursor("abc");
    simulate_key_codes(&mut map, &mut ed, [KeyCode::Esc].iter());
    assert_eq!(ed.cursor(), 2);
    simulate_key_codes(&mut map, &mut ed, [KeyCode::Char('x')].iter());
    assert_eq!(String::from(ed), "ab");
}

#[test]
fn vi_normal_motions_place_the_cursor() {
    let history = History::new();
    let rules = DefaultEditorRules::default();
    let mut ed = Editor::new(Prompt::from("prompt"), history, &rules);
    let mut map = Vi::new();
    map.init(&mut ed);
    ed.insert_str_after_cursor("abc def");
    simulate_key_codes(&mut map, &mut ed, [KeyCode::Esc, KeyCode::Char('0')].iter());
    assert_eq!(ed.cursor(), 0);
    simulate_key_codes(&mut map, &mut ed, [KeyCode::Char('$')].iter());
    assert_eq!(ed.cursor(), 6);
    simulate_key_codes(&mut map, &mut ed, [KeyCode::Char('0'), KeyCode::Char('w')].iter());
    assert_eq!(ed.cursor(), 4);
    simulate_key_codes(&mut map, &mut ed, [KeyCode::Char('0'), KeyCode::Char('f'), KeyCode::Char('e')].iter());
    assert_eq!(ed.cursor(), 5);
    simulate_key_codes(&mut map, &mut ed, [KeyCode::Char('h'), KeyCode::Char('h')].iter());
    assert_eq!(ed.cursor(), 3);
}

#[test]
fn vi_yank_word_then_paste() {
    let history = History::new();
    let rules = DefaultEditorRules::default();
    let mut ed = Editor::new(Prompt::from("prompt"), history, &rules);
    let mut map = Vi::new();
    map.init(&mut ed);
    ed.insert_str_after_cursor("abc def");
    simulate_key_codes(
        &mut map,
        &mut ed,
        [KeyCode::Esc, KeyCode::Char('0'), KeyCode::Char('y'), KeyCode::Char('w')].iter(),
    );
    assert_eq!(ed.cursor(), 0);
    simulate_key_codes(&mut map, &mut ed, [KeyCode::Char('P')].iter());
    assert_eq!(String::from(ed), "abc abc def");
}

#[test]
fn vi_undo_then_redo_the_last_insert() {
    let history = History::new();
    let rules = DefaultEditorRules::default();
    let mut ed = Editor::new(Prompt::from("prompt"), history, &rules);
    let mut map = Vi::new();
    map.init(&mut ed);
    simulate_key_codes(
        &mut map,
        &mut ed,
        [KeyCode::Char('a'), KeyCode::Char('b'), KeyCode::Esc, KeyCode::Char('u')].iter(),
    );
    assert_eq!(ed.current_buffer().to_string(), "");
    map.handle_redo(&mut ed);
    assert_eq!(String::from(ed), "ab");
}
