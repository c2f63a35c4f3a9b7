use zglyph::controls::{terminal_dimensions, Action, Controls, Input, KeyInput};

fn rotation(a: Action) -> Option<(i32, i32)> {
    match a {
        Action::Rotate { columns, rows } => Some((columns, rows)),
        _ => None,
    }
}

#[test]
fn controls_start_state() {
    let c = Controls::new();
    assert!(c.spinning && !c.inertia && !c.dragging);
    assert!(c.spins_now());
    assert!(!c.coasts_now());
}

#[test]
fn controls_quit_keys() {
    let mut c = Controls::new();
    assert!(matches!(c.handle(Input::Key(KeyInput::Esc)), Action::Quit));
    assert!(matches!(c.handle(Input::Key(KeyInput::Char('q'))), Action::Quit));
    assert!(matches!(c.handle(Input::Key(KeyInput::Char('x'))), Action::Nothing));
    assert!(matches!(c.handle(Input::Key(KeyInput::Other)), Action::Nothing));
}

#[test]
fn controls_toggle_spin_and_inertia() {
    let mut c = Controls::new();
    c.handle(Input::Key(KeyInput::Char('s')));
    assert!(!c.spinning);
    c.handle(Input::Key(KeyInput::Char('m')));
    assert!(c.inertia);
    assert!(c.coasts_now());
    c.handle(Input::Key(KeyInput::Char('s')));
    c.handle(Input::Key(KeyInput::Char('m')));
    assert!(c.spinning && !c.inertia);
}

#[test]
fn controls_drag_rotates_by_mouse_movement() {
    let mut c = Controls::new();
    assert!(matches!(c.handle(Input::MouseDown { column: 10, row: 5 }), Action::Nothing));
    assert_eq!(rotation(c.handle(Input::MouseDrag { column: 13, row: 4 })), Some((3, -1)));
    assert!(c.dragging);
    assert!(!c.spins_now());
    assert_eq!(rotation(c.handle(Input::MouseMoved { column: 11, row: 9 })), Some((-2, 5)));
    assert!(matches!(c.handle(Input::MouseUp), Action::Nothing));
    assert!(!c.dragging);
    assert!(matches!(c.handle(Input::MouseMoved { column: 0, row: 0 }), Action::Nothing));
    assert_eq!((c.last_column, c.last_row), (11, 9));
}

#[test]
fn controls_scroll_and_resize() {
    let mut c = Controls::new();
    assert!(matches!(c.handle(Input::ScrollUp), Action::ZoomIn));
    assert!(matches!(c.handle(Input::ScrollDown), Action::ZoomOut));
    assert!(matches!(c.handle(Input::Resize { columns: 120, rows: 30 }), Action::Resize { width: 120, height: 30 }));
    assert!(matches!(c.handle(Input::Other), Action::Nothing));
}

#[test]
fn controls_terminal_fallback() {
    assert_eq!(terminal_dimensions(None), (80, 40));
    assert_eq!(terminal_dimensions(Some((132, 43))), (132, 43));
}
