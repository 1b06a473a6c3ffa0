use calculator::line_editor::{is_typeable, KeyAction, KeyPress, LineEditor};

fn type_keys(editor: &mut LineEditor, keys: Vec<KeyPress>) -> Vec<KeyAction> {
    let mut actions = Vec::new();
    for key in keys {
        assert!(editor.fits(&key));
        actions.push(editor.handle_key(key));
    }
    actions
}

#[test]
fn typing_inserts_at_the_cursor() {
    let mut e = LineEditor::new(1);
    type_keys(&mut e, vec![KeyPress::Char('1'), KeyPress::Char('+'), KeyPress::Char('2')]);
    assert_eq!(e.input, "1+2");
    assert_eq!(e.cursor_position, 4);
    type_keys(&mut e, vec![KeyPress::Left, KeyPress::Left, KeyPress::Char('0')]);
    assert_eq!(e.input, "10+2");
    assert_eq!(e.cursor_position, 3);
}

#[test]
fn other_characters_are_ignored() {
    let mut e = LineEditor::new(1);
    let actions = type_keys(&mut e, vec![KeyPress::Char('a'), KeyPress::Char(' '), KeyPress::Other]);
    assert_eq!(actions, vec![KeyAction::Redraw, KeyAction::Redraw, KeyAction::Redraw]);
    assert_eq!(e.input, "");
    assert!(!is_typeable('.'));
    assert!(is_typeable('^'));
}

#[test]
fn the_cursor_stays_within_the_line() {
    let mut e = LineEditor::new(1);
    type_keys(&mut e, vec![KeyPress::Left, KeyPress::Right, KeyPress::Char('5'), KeyPress::Right, KeyPress::Right]);
    assert_eq!(e.cursor_position, 2);
    type_keys(&mut e, vec![KeyPress::Left, KeyPress::Left, KeyPress::Left]);
    assert_eq!(e.cursor_position, 1);
}

#[test]
fn backspace_undoes_typing() {
    let mut e = LineEditor::new(1);
    type_keys(&mut e, vec![KeyPress::Char('1'), KeyPress::Char('2'), KeyPress::Left]);
    let before = (e.input.clone(), e.cursor_position);
    type_keys(&mut e, vec![KeyPress::Char('*'), KeyPress::Backspace]);
    assert_eq!((e.input.clone(), e.cursor_position), before);
    type_keys(&mut e, vec![KeyPress::Backspace, KeyPress::Backspace]);
    assert_eq!(e.input, "2");
    assert_eq!(e.cursor_position, 1);
}

#[test]
fn enter_and_quit() {
    let mut e = LineEditor::new(1);
    assert_eq!(type_keys(&mut e, vec![KeyPress::Char('\n')]), vec![KeyAction::Submit]);
    assert_eq!(type_keys(&mut e, vec![KeyPress::Char('q')]), vec![KeyAction::Quit]);
    assert_eq!(type_keys(&mut e, vec![KeyPress::Ctrl('c')]), vec![KeyAction::Quit]);
    assert_eq!(type_keys(&mut e, vec![KeyPress::Ctrl('d')]), vec![KeyAction::Redraw]);
}

#[test]
fn keys_that_would_overrun_the_line_do_not_fit() {
    let e = LineEditor::new(5);
    assert!(!e.fits(&KeyPress::Char('1')));
    assert!(!e.fits(&KeyPress::Backspace));
    assert!(e.fits(&KeyPress::Left));
    let mut f = LineEditor { input: "é".to_string(), cursor_position: 1 };
    assert!(!f.fits(&KeyPress::Char('1')));
    assert!(f.fits(&KeyPress::Left));
    assert!(f.fits(&KeyPress::Char('\n')));
    assert!(f.fits(&KeyPress::Right));
    assert_eq!(f.handle_key(KeyPress::Right), KeyAction::Redraw);
    assert_eq!(f.cursor_position, 2);
    assert!(f.fits(&KeyPress::Right));
    f.handle_key(KeyPress::Right);
    assert_eq!(f.cursor_position, 3);
    assert!(!f.fits(&KeyPress::Backspace));
}

#[test]
fn left_then_right_comes_back() {
    let mut e = LineEditor::new(1);
    type_keys(&mut e, vec![KeyPress::Char('4'), KeyPress::Char('2')]);
    type_keys(&mut e, vec![KeyPress::Left, KeyPress::Right]);
    assert_eq!((e.input.as_str(), e.cursor_position), ("42", 3));
}
