use sl_liner::complete::BasicCompleter;
use sl_liner::editor::Editor;
use sl_liner::editor_rules::{DefaultEditorRules, DefaultNewlineRule, DefaultWordDivideRule};
use sl_liner::history::History;
use sl_liner::prompt::Prompt;

type Rules = DefaultEditorRules<DefaultWordDivideRule, DefaultNewlineRule>;

fn editor(rules: &Rules) -> Editor<'_, Rules> {
    Editor::new(Prompt::from("prompt"), History::new(), rules)
}

#[test]
/// test undoing delete_all_after_cursor
fn delete_all_after_cursor_undo() {
    let rules = DefaultEditorRules::default();
    let mut ed = editor(&rules);

    ed.insert_str_after_cursor("delete all of this");
    ed.move_cursor_to_start_of_line();
    ed.delete_all_after_cursor();
    ed.undo();
    assert_eq!(String::from(ed), "delete all of this");
}

#[test]
fn move_cursor_multiline() {
    let rules = DefaultEditorRules::default();
    let mut ed = editor(&rules);
    ed.insert_str_after_cursor("let\\");
    assert_eq!(ed.cursor(), 4);
    let done = ed.handle_newline();
    assert!(!done);
    ed.insert_str_after_cursor("\\\n");
    assert_eq!(ed.cursor(), 7);
    let done = ed.handle_newline();
    assert!(done);
}

#[test]
fn editor_move_cursor_left() {
    let rules = DefaultEditorRules::default();
    let mut ed = editor(&rules);
    ed.insert_str_after_cursor("let");
    assert_eq!(ed.cursor(), 3);

    ed.move_cursor_left(1);
    assert_eq!(ed.cursor(), 2);

    ed.insert_after_cursor('f');
    assert_eq!(ed.cursor(), 3);
    assert_eq!(String::from(ed), "left");
}

#[test]
fn test_handle_newline() {
    let rules = DefaultEditorRules::default();
    let mut ed = editor(&rules);

    ed.insert_str_after_cursor("oneline");
    assert_eq!(ed.cursor(), 7);

    let done = ed.handle_newline();
    assert!(done);
}

#[test]
fn editor_cursor_movement() {
    let rules = DefaultEditorRules::default();
    let mut ed = editor(&rules);
    ed.insert_str_after_cursor("right");
    assert_eq!(ed.cursor(), 5);

    ed.move_cursor_left(2);
    ed.move_cursor_right(1);
    assert_eq!(ed.cursor(), 4);
}

#[test]
fn delete_until_backwards() {
    let rules = DefaultEditorRules::default();
    let mut ed = editor(&rules);
    ed.insert_str_after_cursor("right");
    assert_eq!(ed.cursor(), 5);

    ed.delete_until(0);
    assert_eq!(ed.cursor(), 0);
    assert_eq!(String::from(ed), "");
}

#[test]
fn delete_until_forwards() {
    let rules = DefaultEditorRules::default();
    let mut ed = editor(&rules);
    ed.insert_str_after_cursor("right");
    ed.move_cursor_to_start_of_line();

    ed.delete_until(5);
    assert_eq!(ed.cursor(), 0);
    assert_eq!(String::from(ed), "");
}

#[test]
fn delete_until() {
    let rules = DefaultEditorRules::default();
    let mut ed = editor(&rules);
    ed.insert_str_after_cursor("right");
    ed.move_cursor_left(1);

    ed.delete_until(1);
    assert_eq!(ed.cursor(), 1);
    assert_eq!(String::from(ed), "rt");
}

#[test]
fn delete_until_inclusive() {
    let rules = DefaultEditorRules::default();
    let mut ed = editor(&rules);
    ed.insert_str_after_cursor("right");
    ed.move_cursor_left(1);

    ed.delete_until_inclusive(1);
    assert_eq!(ed.cursor(), 1);
    assert_eq!(String::from(ed), "r");
}

#[test]
fn single_completion_replaces_the_word() {
    let rules = DefaultEditorRules::default();
    let mut ed = editor(&rules);
    ed.insert_str_after_cursor("say hel");
    ed.apply_completions(String::from("hel"), vec![String::from("hello")]);
    assert_eq!(String::from(ed), "say hello");
}

#[test]
fn common_prefix_extends_the_word() {
    let rules = DefaultEditorRules::default();
    let mut ed = editor(&rules);
    ed.insert_str_after_cursor("h");
    ed.apply_completions(
        String::from("h"),
        vec![String::from("hello"), String::from("help")],
    );
    assert!(ed.completions_hint().is_none());
    assert_eq!(String::from(ed), "hel");
}

#[test]
fn several_completions_are_shown_then_cycled() {
    let rules = DefaultEditorRules::default();
    let mut ed = editor(&rules);
    ed.insert_str_after_cursor("hel");
    let mut completer = BasicCompleter::new(vec![String::from("help"), String::from("hello")]);
    ed.complete(&mut completer);
    assert_eq!(
        ed.completions_hint(),
        Some(&vec![String::from("hello"), String::from("help")])
    );
    assert_eq!(ed.completion_highlight(), None);
    assert_eq!(ed.current_buffer().to_string(), "hel");
    ed.complete(&mut completer);
    assert_eq!(ed.completion_highlight(), Some(0));
    assert_eq!(ed.current_buffer().to_string(), "hello");
    ed.complete(&mut completer);
    assert_eq!(ed.completion_highlight(), Some(1));
    assert_eq!(ed.current_buffer().to_string(), "help");
    ed.complete(&mut completer);
    assert_eq!(ed.completion_highlight(), Some(0));
    assert_eq!(String::from(ed), "hello");
}

#[test]
fn no_completion_changes_nothing() {
    let rules = DefaultEditorRules::default();
    let mut ed = editor(&rules);
    ed.insert_str_after_cursor("xyz");
    ed.apply_completions(String::from("xyz"), Vec::new());
    assert!(ed.completions_hint().is_none());
    assert_eq!(ed.cursor(), 3);
    assert_eq!(String::from(ed), "xyz");
}

#[test]
fn undo_takes_back_the_last_insert_at_the_cursor() {
    let rules = DefaultEditorRules::default();
    let mut ed = editor(&rules);
    ed.insert_str_after_cursor("abc");
    ed.insert_str_after_cursor("de");
    assert_eq!(ed.undo(), Some(3));
    assert_eq!(String::from(ed), "abc");
}

#[test]
fn undo_takes_back_a_delete_before_the_cursor() {
    let rules = DefaultEditorRules::default();
    let mut ed = editor(&rules);
    ed.insert_str_after_cursor("héllo");
    ed.delete_before_cursor();
    ed.delete_before_cursor();
    assert_eq!(ed.undo(), Some(3));
    assert_eq!(ed.current_buffer().to_string(), "héll");
    assert_eq!(ed.undo(), Some(4));
    assert_eq!(String::from(ed), "héllo");
}

#[test]
fn redo_puts_back_the_insert_undo_took_back() {
    let rules = DefaultEditorRules::default();
    let mut ed = editor(&rules);
    ed.insert_str_after_cursor("abc");
    ed.insert_str_after_cursor("dé");
    ed.undo();
    assert_eq!(ed.current_buffer().to_string(), "abc");
    assert_eq!(ed.redo(), Some(3));
    assert_eq!(String::from(ed), "abcdé");
}

#[test]
fn undo_after_recalling_an_entry_empties_the_line() {
    let rules = DefaultEditorRules::default();
    let mut history = History::new();
    let _ = history.push(sl_liner::Buffer::from("abc"));
    let mut ed = Editor::new(Prompt::from("prompt"), history, &rules);
    ed.move_up();
    assert_eq!(ed.current_history_location(), Some(0));
    assert_eq!(ed.current_buffer().to_string(), "abc");
    assert_eq!(ed.redo(), None);
    assert_eq!(ed.current_buffer().to_string(), "abc");
    assert_eq!(ed.undo(), Some(0));
    assert_eq!(ed.current_buffer().to_string(), "");
    assert_eq!(ed.redo(), Some(0));
    assert_eq!(ed.current_buffer().to_string(), "abc");
}

#[test]
fn redo_puts_back_a_removal_undo_took_back() {
    let rules = DefaultEditorRules::default();
    let mut ed = editor(&rules);
    ed.insert_str_after_cursor("abcdé");
    ed.move_cursor_to(1);
    ed.delete_until(3);
    assert_eq!(ed.current_buffer().to_string(), "adé");
    ed.undo();
    assert_eq!(ed.current_buffer().to_string(), "abcdé");
    ed.redo();
    assert_eq!(String::from(ed), "adé");
}

#[test]
fn deleting_no_word_leaves_text_and_cursor() {
    let rules = DefaultEditorRules::default();
    let mut ed = editor(&rules);
    ed.insert_str_after_cursor("abc ");
    ed.delete_word_before_cursor(false);
    assert_eq!(ed.cursor(), 4);
    assert_eq!(String::from(ed), "abc ");
}

#[test]
fn start_of_empty_history_keeps_the_line() {
    let rules = DefaultEditorRules::default();
    let mut ed = editor(&rules);
    ed.insert_str_after_cursor("abc");
    ed.move_cursor_left(1);
    ed.move_to_start_of_history();
    assert_eq!(ed.current_history_location(), None);
    assert_eq!(ed.cursor(), 2);
    assert_eq!(String::from(ed), "abc");
}
