use sl_liner::complete::EmptyCompleter;
use sl_liner::editor::Editor;
use sl_liner::editor_rules::{DefaultEditorRules, DefaultNewlineRule, DefaultWordDivideRule};
use sl_liner::history::History;
use sl_liner::keymap::{Key, KeyCode, KeyMap, KeyMod};
use sl_liner::prompt::Prompt;
use sl_liner::Buffer;
use sl_liner::keymap::emacs::Emacs;

type Rules = DefaultEditorRules<DefaultWordDivideRule, DefaultNewlineRule>;

/// The time the keys are pressed at, in milliseconds.
const NOW: u128 = 1;

fn simulate_key_codes<'a, 'b, M: KeyMap, I>(
    keymap: &mut M,
    ed: &mut Editor<'a, Rules>,
    keys: I,
) -> bool
where
    I: IntoIterator<Item = &'b KeyCode>,
{
    for k in keys {
        if keymap
            .handle_key(
                Key {
                    code: *k,
                    mods: None,
                },
                ed,
                &mut EmptyCompleter::new(),
                NOW,
            )
            .unwrap()
        {
            return true;
        }
    }

    false
}

fn simulate_keys<'a, 'b, M: KeyMap, I>(keymap: &mut M, ed: &mut Editor<'a, Rules>, keys: I) -> bool
where
    I: IntoIterator<Item = &'b Key>,
{
    for k in keys {
        if keymap
            .handle_key(*k, ed, &mut EmptyCompleter::new(), NOW)
            .unwrap()
        {
            return true;
        }
    }

    false
}

#[test]
fn emacs_enter_is_done() {
    let history = History::new();
    let rules = DefaultEditorRules::default();
    let mut ed = Editor::new(Prompt::from("prompt"), history, &rules);
    let mut map = Emacs::new();
    ed.insert_str_after_cursor("done");
    assert_eq!(ed.cursor(), 4);

    assert!(simulate_key_codes(
        &mut map,
        &mut ed,
        [KeyCode::Char('\n')].iter()
    ));

    assert_eq!(ed.cursor(), 4);
    assert_eq!(String::from(ed), "done");
}

#[test]
fn emacs_move_cursor_left() {
    let history = History::new();
    let rules = DefaultEditorRules::default();
    let mut ed = Editor::new(Prompt::from("prompt"), history, &rules);
    let mut map = Emacs::new();
    ed.insert_str_after_cursor("let");
    assert_eq!(ed.cursor(), 3);

    simulate_key_codes(
        &mut map,
        &mut ed,
        [KeyCode::Left, KeyCode::Char('f')].iter(),
    );

    assert_eq!(ed.cursor(), 3);
    assert_eq!(String::from(ed), "left");
}

#[test]
fn move_word() {
    let history = History::new();
    let rules = DefaultEditorRules::default();
    let mut ed = Editor::new(Prompt::from("prompt"), history, &rules);
    let mut map = Emacs::new();
    ed.insert_str_after_cursor("abc def ghi");
    assert_eq!(ed.cursor(), 11);

    simulate_keys(
        &mut map,
        &mut ed,
        [Key::new_mod(KeyCode::Char('b'), KeyMod::Alt)].iter(),
    );

    // Move to `g`
    assert_eq!(ed.cursor(), 8);

    simulate_keys(
        &mut map,
        &mut ed,
        [
            Key::new_mod(KeyCode::Char('b'), KeyMod::Alt),
            Key::new_mod(KeyCode::Char('f'), KeyMod::Alt),
        ]
        .iter(),
    );

    // Move to the char after `f`
    assert_eq!(ed.cursor(), 7);
}

#[test]
fn emacs_cursor_movement() {
    let history = History::new();
    let rules = DefaultEditorRules::default();
    let mut ed = Editor::new(Prompt::from("prompt"), history, &rules);
    let mut map = Emacs::new();
    ed.insert_str_after_cursor("right");
    assert_eq!(ed.cursor(), 5);

    simulate_key_codes(
        &mut map,
        &mut ed,
        [KeyCode::Left, KeyCode::Left, KeyCode::Right].iter(),
    );

    assert_eq!(ed.cursor(), 4);
}

#[test]
/// ctrl-h should act as backspace
fn emacs_ctrl_h() {
    let history = History::new();
    let rules = DefaultEditorRules::default();
    let mut ed = Editor::new(Prompt::from("prompt"), history, &rules);
    let mut map = Emacs::new();
    ed.insert_str_after_cursor("not empty");

    let res = map.handle_key(
        Key::new_mod(KeyCode::Char('h'), KeyMod::Ctrl),
        &mut ed,
        &mut EmptyCompleter::new(),
        NOW,
    );
    assert_eq!(res.is_ok(), true);
    assert_eq!(ed.current_buffer().to_string(), "not empt".to_string());
}

#[test]
fn emacs_line_editing_keys() {
    let history = History::new();
    let rules = DefaultEditorRules::default();
    let mut ed = Editor::new(Prompt::from("prompt"), history, &rules);
    let mut map = Emacs::new();
    map.init(&mut ed);
    ed.insert_str_after_cursor("hello big world");

    simulate_keys(
        &mut map,
        &mut ed,
        [
            Key::new_mod(KeyCode::Char('a'), KeyMod::Ctrl),
            Key::new_mod(KeyCode::Char('f'), KeyMod::Ctrl),
            Key::new_mod(KeyCode::Char('f'), KeyMod::Ctrl),
        ]
        .iter(),
    );
    assert_eq!(ed.cursor(), 2);
    simulate_keys(
        &mut map,
        &mut ed,
        [Key::new_mod(KeyCode::Char('k'), KeyMod::Ctrl)].iter(),
    );
    assert_eq!(ed.current_buffer().to_string(), "he");
    simulate_keys(
        &mut map,
        &mut ed,
        [
            Key::new_mod(KeyCode::Char('e'), KeyMod::Ctrl),
            Key::new_mod(KeyCode::Char('b'), KeyMod::Ctrl),
            Key::new_mod(KeyCode::Char('u'), KeyMod::Ctrl),
        ]
        .iter(),
    );
    assert_eq!(ed.cursor(), 0);
    assert_eq!(String::from(ed), "e");
}
