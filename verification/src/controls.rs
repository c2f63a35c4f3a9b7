//! The interactive controls: how keys and mouse events steer the view.
//! The caller reads the events and applies the returned actions to the view's
//! angles and zoom.

use vstd::prelude::*;

verus! {

/// A key press.
pub enum KeyInput {
    Esc,
    Char(char),
    Other,
}

/// An input event from the terminal.
pub enum Input {
    Key(KeyInput),
    /// A mouse button went down at the given cell.
    MouseDown { column: u16, row: u16 },
    /// A mouse button went up.
    MouseUp,
    /// The mouse moved with a button held.
    MouseDrag { column: u16, row: u16 },
    /// The mouse moved with no button held.
    MouseMoved { column: u16, row: u16 },
    ScrollUp,
    ScrollDown,
    /// The terminal now has `columns` x `rows` cells.
    Resize { columns: u16, rows: u16 },
    Other,
}

/// What the view must do in answer to an event.
pub enum Action {
    /// Leave the program.
    Quit,
    /// Turn the view by the mouse's movement, in cells: the horizontal
    /// movement turns about the vertical axis, the vertical about the horizontal.
    Rotate { columns: i32, rows: i32 },
    ZoomIn,
    ZoomOut,
    /// Resize the frame buffer to `width` x `height` cells.
    Resize { width: usize, height: usize },
    Nothing,
}

/// The state of the controls.
pub struct Controls {
    /// The model spins about the z axis when not dragged.
    pub spinning: bool,
    /// The model keeps turning after a drag, slowing down.
    pub inertia: bool,
    /// The model is being dragged with the mouse.
    pub dragging: bool,
    /// Where the mouse was last seen.
    pub last_column: u16,
    pub last_row: u16,
}

/// The controls after `input`.
pub open spec fn next_controls(c: Controls, input: Input) -> Controls {
    match input {
        Input::Key(KeyInput::Char('s')) => Controls { spinning: !c.spinning, ..c },
        Input::Key(KeyInput::Char('m')) => Controls { inertia: !c.inertia, ..c },
        Input::MouseDown { column, row } => Controls { last_column: column, last_row: row, ..c },
        Input::MouseUp => Controls { dragging: false, ..c },
        Input::MouseDrag { column, row } => Controls { dragging: true, last_column: column, last_row: row, ..c },
        Input::MouseMoved { column, row } => if c.dragging {
            Controls { last_column: column, last_row: row, ..c }
        } else {
            c
        },
        _ => c,
    }
}

/// What the view must do in answer to `input`, given the controls before it.
pub open spec fn action_for(c: Controls, input: Input) -> Action {
    match input {
        Input::Key(KeyInput::Esc) => Action::Quit,
        Input::Key(KeyInput::Char('q')) => Action::Quit,
        Input::MouseDrag { column, row } => Action::Rotate {
            columns: (column - c.last_column) as i32,
            rows: (row - c.last_row) as i32,
        },
        Input::MouseMoved { column, row } => if c.dragging {
            Action::Rotate { columns: (column - c.last_column) as i32, rows: (row - c.last_row) as i32 }
        } else {
            Action::Nothing
        },
        Input::ScrollUp => Action::ZoomIn,
        Input::ScrollDown => Action::ZoomOut,
        Input::Resize { columns, rows } => Action::Resize { width: columns as usize, height: rows as usize },
        _ => Action::Nothing,
    }
}

impl Controls {
    /// The controls at start: spinning, no inertia, not dragging, mouse at the origin.
    pub fn new() -> (c: Self)
        ensures
            c.spinning,
            !c.inertia,
            !c.dragging,
            c.last_column == 0,
            c.last_row == 0,
    {
        Controls { spinning: true, inertia: false, dragging: false, last_column: 0, last_row: 0 }
    }

    /// Takes in one input event and says what the view must do.
    pub fn handle(&mut self, input: Input) -> (a: Action)
        ensures
            *final(self) == next_controls(*old(self), input),
            a == action_for(*old(self), input),
            final(self).inertia != old(self).inertia <==> input == Input::Key(KeyInput::Char('m')),
            final(self).spinning != old(self).spinning <==> input == Input::Key(KeyInput::Char('s')),
            input is Key && input != Input::Key(KeyInput::Char('s')) && input != Input::Key(KeyInput::Char('m'))
                ==> *final(self) == *old(self),
    {
        match input {
            Input::Key(key) => match key {
                KeyInput::Esc => Action::Quit,
                KeyInput::Char(ch) => {
                    if ch == 'q' {
                        Action::Quit
                    } else {
                        if ch == 's' {
                            self.spinning = !self.spinning;
                        } else if ch == 'm' {
                            self.inertia = !self.inertia;
                        }
                        Action::Nothing
                    }
                },
                KeyInput::Other => Action::Nothing,
            },
            Input::MouseDown { column, row } => {
                self.last_column = column;
                self.last_row = row;
                Action::Nothing
            },
            Input::MouseUp => {
                self.dragging = false;
                Action::Nothing
            },
            Input::MouseDrag { column, row } => {
                self.dragging = true;
                let a = Action::Rotate {
                    columns: column as i32 - self.last_column as i32,
                    rows: row as i32 - self.last_row as i32,
                };
                self.last_column = column;
                self.last_row = row;
                a
            },
            Input::MouseMoved { column, row } => {
                if self.dragging {
                    let a = Action::Rotate {
                        columns: column as i32 - self.last_column as i32,
                        rows: row as i32 - self.last_row as i32,
                    };
                    self.last_column = column;
                    self.last_row = row;
                    a
                } else {
                    Action::Nothing
                }
            },
            Input::ScrollUp => Action::ZoomIn,
            Input::ScrollDown => Action::ZoomOut,
            Input::Resize { columns, rows } => Action::Resize { width: columns as usize, height: rows as usize },
            Input::Other => Action::Nothing,
        }
    }

    /// The model turns about the z axis this frame.
    pub fn spins_now(&self) -> (b: bool)
        ensures
            b == (!self.dragging && self.spinning),
    {
        !self.dragging && self.spinning
    }

    /// The model coasts on its remaining velocity this frame.
    pub fn coasts_now(&self) -> (b: bool)
        ensures
            b == (!self.dragging && self.inertia),
    {
        !self.dragging && self.inertia
    }
}

/// The terminal's size in cells, or 80 x 40 when it cannot be told.
pub fn terminal_dimensions(size: Option<(u16, u16)>) -> (r: (usize, usize))
    ensures
        r == match size {
            Some((w, h)) => (w as usize, h as usize),
            None => (80usize, 40usize),
        },
{
    match size {
        Some((w, h)) => (w as usize, h as usize),
        None => (80, 40),
    }
}

/// Pressing `s` (spin) or `m` (inertia) twice leaves the controls as they were.
pub proof fn lemma_toggle_twice(c: Controls, ch: char)
    requires
        ch == 's' || ch == 'm',
    ensures
        next_controls(next_controls(c, Input::Key(KeyInput::Char(ch))), Input::Key(KeyInput::Char(ch))) == c,
{
}

/// Only `Esc` and `q` end the program.
pub proof fn lemma_quit_keys(c: Controls, input: Input)
    ensures
        action_for(c, input) is Quit <==> (input == Input::Key(KeyInput::Esc) || input == Input::Key(
            KeyInput::Char('q'),
        )),
{
}

/// Two successive drags turn the view by the mouse's whole movement: the
/// rotations they ask for add up to the distance from where the mouse was
/// last seen to where the second drag ends.
pub proof fn lemma_drags_add_up(c: Controls, col1: u16, row1: u16, col2: u16, row2: u16)
    ensures
        ({
            let d1 = Input::MouseDrag { column: col1, row: row1 };
            let d2 = Input::MouseDrag { column: col2, row: row2 };
            let a1 = action_for(c, d1);
            let a2 = action_for(next_controls(c, d1), d2);
            &&& a1 matches Action::Rotate { columns: x1, rows: y1 }
            &&& a2 matches Action::Rotate { columns: x2, rows: y2 }
            &&& x1 + x2 == col2 - c.last_column
            &&& y1 + y2 == row2 - c.last_row
        }),
{
}

/// Keys change only the two mode switches, each on its own key: `m` and only
/// `m` flips inertia, `s` and only `s` flips spinning, and every other key
/// (including `q` and `Esc`) leaves the controls as they were. A key never
/// turns the view or zooms: it quits (`Esc`, `q`) or does nothing.
pub proof fn lemma_keys_toggle_modes(c: Controls, input: Input)
    ensures
        next_controls(c, input).inertia != c.inertia <==> input == Input::Key(KeyInput::Char('m')),
        next_controls(c, input).spinning != c.spinning <==> input == Input::Key(KeyInput::Char('s')),
        input is Key ==> next_controls(c, input).dragging == c.dragging
            && next_controls(c, input).last_column == c.last_column
            && next_controls(c, input).last_row == c.last_row,
        input is Key && input != Input::Key(KeyInput::Char('s')) && input != Input::Key(KeyInput::Char('m'))
            ==> next_controls(c, input) == c,
        input is Key ==> (action_for(c, input) is Quit || action_for(c, input) is Nothing),
{
}

} // verus!
