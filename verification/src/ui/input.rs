use vstd::prelude::*;

use crate::world::Board;

use super::render::{clamp_int, max_edge, Camera};

verus! {

/// The keys the viewer tells apart.
#[derive(Clone, Copy, Debug, PartialEq, Eq, Structural)]
pub enum Key {
    Char(char),
    Up,
    Down,
    Left,
    Right,
    Other,
}

/// A terminal event, as far as the viewer cares. The mouse events are those
/// of the middle button (`MouseMoved` is any motion with no button held).
#[derive(Clone, Copy, Debug, PartialEq, Eq, Structural)]
pub enum InputEvent {
    Key { key: Key, ctrl: bool, released: bool },
    MiddleDown { column: u16, row: u16 },
    MiddleDrag { column: u16, row: u16 },
    MouseMoved { column: u16, row: u16 },
    MiddleUp,
    Other,
}

/// `q`, `Q` and Ctrl+C quit.
pub open spec fn quits(key: Key, ctrl: bool) -> bool {
    key == Key::Char('q') || key == Key::Char('Q') || (key == Key::Char('c') && ctrl)
}

pub fn is_quit_key(key: Key, ctrl: bool) -> (quit: bool)
    ensures
        quit == quits(key, ctrl),
{
    match key {
        Key::Char(c) => c == 'q' || c == 'Q' || (c == 'c' && ctrl),
        _ => false,
    }
}

/// The pan an arrow key asks for.
pub open spec fn arrow_pan(key: Key) -> Option<(int, int)> {
    match key {
        Key::Up => Some((0, -1)),
        Key::Down => Some((0, 1)),
        Key::Left => Some((-1, 0)),
        Key::Right => Some((1, 0)),
        _ => None,
    }
}

/// Whether `event` asks the application to quit.
pub open spec fn quit_event(event: InputEvent) -> bool {
    match event {
        InputEvent::Key { key, ctrl, released } => !released && quits(key, ctrl),
        _ => false,
    }
}

/// The camera panned by `(dx, dy)` within its last view; nothing else
/// changes.
pub open spec fn panned(before: Camera, after: Camera, board: Board, dx: int, dy: int) -> bool {
    &&& after.x == clamp_int(before.x + dx, 0, max_edge(board.width, before.last_view_w))
    &&& after.y == clamp_int(before.y + dy, 0, max_edge(board.height, before.last_view_h))
    &&& after.last_view_w == before.last_view_w
    &&& after.last_view_h == before.last_view_h
    &&& after.is_dragging == before.is_dragging
}

/// The camera after `event`: arrows pan one cell; pressing the middle button
/// starts a drag at the pointer, moving while dragging pans against the
/// pointer's motion, releasing it ends the drag; anything else leaves it.
pub open spec fn camera_after(before: Camera, board: Board, event: InputEvent, after: Camera) -> bool {
    match event {
        InputEvent::Key { key, ctrl, released } => match arrow_pan(key) {
            Some((dx, dy)) if !released && !quits(key, ctrl) => panned(before, after, board, dx, dy)
                && after.last_mouse_pos == before.last_mouse_pos,
            _ => after == before,
        },
        InputEvent::MiddleDown { column, row } => after == Camera {
            is_dragging: true,
            last_mouse_pos: Some((column, row)),
            ..before
        },
        InputEvent::MiddleDrag { column, row } | InputEvent::MouseMoved { column, row } => if before.is_dragging
            && before.last_mouse_pos is Some {
            let (last_x, last_y) = before.last_mouse_pos->0;
            panned(before, after, board, last_x - column, last_y - row) && after.last_mouse_pos == Some(
                (column, row),
            )
        } else {
            after == before
        },
        InputEvent::MiddleUp => after == Camera { is_dragging: false, last_mouse_pos: None, ..before },
        InputEvent::Other => after == before,
    }
}

impl Camera {
    /// Applies one input event; returns whether it asks to quit.
    pub fn handle_event(&mut self, board: &Board, event: InputEvent) -> (quit: bool)
        ensures
            quit == quit_event(event),
            camera_after(*old(self), *board, event, *final(self)),
    {
        match event {
            InputEvent::Key { key, ctrl, released } => {
                if released {
                    return false;
                }
                if is_quit_key(key, ctrl) {
                    return true;
                }
                let (dx, dy): (isize, isize) = match key {
                    Key::Up => (0, -1),
                    Key::Down => (0, 1),
                    Key::Left => (-1, 0),
                    Key::Right => (1, 0),
                    _ => {
                        return false;
                    },
                };
                let (view_w, view_h) = (self.last_view_w, self.last_view_h);
                self.move_by(dx, dy, board, view_w, view_h);
                false
            },
            InputEvent::MiddleDown { column, row } => {
                self.is_dragging = true;
                self.last_mouse_pos = Some((column, row));
                false
            },
            InputEvent::MiddleDrag { column, row } | InputEvent::MouseMoved { column, row } => {
                if self.is_dragging {
                    if let Some((last_x, last_y)) = self.last_mouse_pos {
                        let delta_x = column as i32 - last_x as i32;
                        let delta_y = row as i32 - last_y as i32;
                        let (view_w, view_h) = (self.last_view_w, self.last_view_h);
                        self.move_by(-delta_x as isize, -delta_y as isize, board, view_w, view_h);
                        self.last_mouse_pos = Some((column, row));
                    }
                }
                false
            },
            InputEvent::MiddleUp => {
                self.is_dragging = false;
                self.last_mouse_pos = None;
                false
            },
            InputEvent::Other => false,
        }
    }
}


/// The arrow keys pan by one cell: Up towards `y = 0`, Down away from it,
/// Left towards `x = 0`, Right away from it, each clamped to the board; the
/// other axis stays where it was (clamped, so a camera already in range does
/// not move along it), and the drag state is kept. Releasing a key, and any
/// other key that does not quit, leaves the camera alone.
pub proof fn lemma_arrow_keys_pan(before: Camera, board: Board, key: Key, ctrl: bool, released: bool, after: Camera)
    requires
        camera_after(before, board, InputEvent::Key { key, ctrl, released }, after),
    ensures
        released ==> after == before,
        !released && key == Key::Up ==> after.y == clamp_int(before.y - 1, 0, max_edge(board.height, before.last_view_h))
            && after.x == clamp_int(before.x as int, 0, max_edge(board.width, before.last_view_w)),
        !released && key == Key::Down ==> after.y == clamp_int(before.y + 1, 0, max_edge(board.height, before.last_view_h))
            && after.x == clamp_int(before.x as int, 0, max_edge(board.width, before.last_view_w)),
        !released && key == Key::Left ==> after.x == clamp_int(before.x - 1, 0, max_edge(board.width, before.last_view_w))
            && after.y == clamp_int(before.y as int, 0, max_edge(board.height, before.last_view_h)),
        !released && key == Key::Right ==> after.x == clamp_int(before.x + 1, 0, max_edge(board.width, before.last_view_w))
            && after.y == clamp_int(before.y as int, 0, max_edge(board.height, before.last_view_h)),
        !released && key == Key::Down && before.y + 1 <= max_edge(board.height, before.last_view_h) ==> after.y == before.y + 1,
        !released && key == Key::Up && 1 <= before.y <= max_edge(board.height, before.last_view_h) ==> after.y == before.y - 1,
        !released && key == Key::Right && before.x + 1 <= max_edge(board.width, before.last_view_w) ==> after.x == before.x + 1,
        !released && key == Key::Left && 1 <= before.x <= max_edge(board.width, before.last_view_w) ==> after.x == before.x - 1,
        key != Key::Up && key != Key::Down && key != Key::Left && key != Key::Right ==> after == before,
        after.last_view_w == before.last_view_w && after.last_view_h == before.last_view_h,
        after.is_dragging == before.is_dragging && after.last_mouse_pos == before.last_mouse_pos,
{
}

/// `q`, `Q` and Ctrl+C quit, pressed or held; no other key does, and a
/// released key never does.
pub proof fn lemma_quit_keys(key: Key, ctrl: bool, released: bool)
    ensures
        quit_event(InputEvent::Key { key: Key::Char('q'), ctrl, released: false }),
        quit_event(InputEvent::Key { key: Key::Char('Q'), ctrl, released: false }),
        quit_event(InputEvent::Key { key: Key::Char('c'), ctrl: true, released: false }),
        !quit_event(InputEvent::Key { key: Key::Char('c'), ctrl: false, released }),
        !quit_event(InputEvent::Key { key, ctrl, released: true }),
        key != Key::Char('q') && key != Key::Char('Q') && key != Key::Char('c') ==> !quit_event(
            InputEvent::Key { key, ctrl, released },
        ),
{
}


/// Dragging with the middle button: pressing it starts a drag at the
/// pointer, moving while dragging pans the camera against the pointer's
/// motion (clamped to the board) and follows the pointer, moving without a
/// drag changes nothing, and releasing it ends the drag.
pub proof fn lemma_middle_drag(before: Camera, board: Board, event: InputEvent, after: Camera)
    requires
        camera_after(before, board, event, after),
    ensures
        event matches InputEvent::MiddleDown { column, row } ==> after.is_dragging && after.last_mouse_pos == Some(
            (column, row),
        ) && after.x == before.x && after.y == before.y,
        event is MiddleUp ==> !after.is_dragging && after.last_mouse_pos is None && after.x == before.x && after.y
            == before.y,
        (event is MiddleDrag || event is MouseMoved) && !before.is_dragging ==> after == before,
        event matches InputEvent::MiddleDrag { column, row } ==> before.is_dragging && before.last_mouse_pos is Some
            ==> after.x == clamp_int(
            before.x - (column - (before.last_mouse_pos->0).0),
            0,
            max_edge(board.width, before.last_view_w),
        ) && after.y == clamp_int(
            before.y - (row - (before.last_mouse_pos->0).1),
            0,
            max_edge(board.height, before.last_view_h),
        ) && after.last_mouse_pos == Some((column, row)),
        !quit_event(event) || after == before,
{
}

} // verus!
