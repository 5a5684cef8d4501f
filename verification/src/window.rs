//! Keyboard state as the window reports it.
use vstd::prelude::*;

verus! {

#[derive(PartialEq, Eq, Hash, Clone, Copy, Debug, Structural)]
pub enum Key {
    Unknown,
    UpArrow,
    DownArrow,
    LeftArrow,
    RightArrow,
    A,
    D,
    W,
    S,
    Escape,
}

/// The key that a virtual-key code stands for: the letters A, D, S and W and
/// the escape key are known, every other code is `Unknown`.
pub open spec fn key_of(virtual_key_code: int) -> Key {
    if virtual_key_code == 0x41 {
        Key::A
    } else if virtual_key_code == 0x44 {
        Key::D
    } else if virtual_key_code == 0x53 {
        Key::S
    } else if virtual_key_code == 0x57 {
        Key::W
    } else if virtual_key_code == 0x1B {
        Key::Escape
    } else {
        Key::Unknown
    }
}

pub fn map_to_key(virtual_key_code: i32) -> (key: Key)
    ensures
        key == key_of(virtual_key_code as int),
{
    match virtual_key_code {
        0x41 => Key::A,
        0x44 => Key::D,
        0x53 => Key::S,
        0x57 => Key::W,
        0x1B => Key::Escape,
        _ => Key::Unknown,
    }
}

/// Half the width of the window, in pixels.
pub const HALF_WIDTH: i32 = 400;

/// Half the height of the window, in pixels.
pub const HALF_HEIGHT: i32 = 300;

/// What the window knows of keyboard and mouse: the keys that are down in
/// the current frame and those that were down in the frame before, how far
/// the mouse moved in the last frame, and where the cursor is held when it
/// is locked to the centre of the window.  Positions are screen coordinates.
#[derive(Debug)]
pub struct Window {
    pub lock_cursor_center: bool,
    pub current_keyboard_state: Vec<Key>,
    pub previous_keyboard_state: Vec<Key>,
    pub mouse_move_x: i32,
    pub mouse_move_y: i32,
    pub previous_mouse_position_x: i32,
    pub previous_mouse_position_y: i32,
    pub mouse_center_position_x: i32,
    pub mouse_center_position_y: i32,
}

impl Default for Window {
    /// A window with no key down, the cursor free, and every position at
    /// the origin.
    fn default() -> (window: Window)
        ensures
            !window.lock_cursor_center,
            window.current_keyboard_state@.len() == 0,
            window.previous_keyboard_state@.len() == 0,
            window.mouse_move_x == 0,
            window.mouse_move_y == 0,
            window.previous_mouse_position() == (0i32, 0i32),
            window.mouse_center_position() == (0i32, 0i32),
    {
        Window {
            lock_cursor_center: false,
            current_keyboard_state: Vec::new(),
            previous_keyboard_state: Vec::new(),
            mouse_move_x: 0,
            mouse_move_y: 0,
            previous_mouse_position_x: 0,
            previous_mouse_position_y: 0,
            mouse_center_position_x: 0,
            mouse_center_position_y: 0,
        }
    }
}

/// Whether `key` is among `keys`.
fn holds(keys: &Vec<Key>, key: Key) -> (found: bool)
    ensures
        found == keys@.contains(key),
{
    let mut i: usize = 0;
    while i < keys.len()
        invariant
            i <= keys@.len(),
            forall|j: int| 0 <= j < i ==> keys@[j] != key,
        decreases keys@.len() - i,
    {
        if keys[i] == key {
            return true;
        }
        i = i + 1;
    }
    false
}

impl Window {
    /// Where the cursor was at the end of the last update.
    pub open spec fn previous_mouse_position(&self) -> (i32, i32) {
        (self.previous_mouse_position_x, self.previous_mouse_position_y)
    }

    /// Where the cursor was last put to hold it in the centre of the window.
    pub open spec fn mouse_center_position(&self) -> (i32, i32) {
        (self.mouse_center_position_x, self.mouse_center_position_y)
    }

    /// The centre of a window whose upper left corner is at `origin`.
    pub open spec fn center_of(origin: (i32, i32)) -> (int, int) {
        (origin.0 + HALF_WIDTH, origin.1 + HALF_HEIGHT)
    }

    /// Where to put the cursor, if anywhere.  `window_origin` is the upper
    /// left corner of the window while the window is in the foreground, and
    /// `None` while it is not.  A locked cursor goes to the centre of a
    /// window in the foreground, and that centre is remembered; in every
    /// other case nothing moves and nothing changes.
    pub fn center_cursor(&mut self, window_origin: Option<(i32, i32)>) -> (target: Option<
        (i32, i32),
    >)
        requires
            old(self).lock_cursor_center ==> (window_origin matches Some(origin)
                ==> Window::center_of(origin).0 <= i32::MAX && Window::center_of(origin).1
                <= i32::MAX),
        ensures
            final(self).lock_cursor_center == old(self).lock_cursor_center,
            final(self).current_keyboard_state == old(self).current_keyboard_state,
            final(self).previous_keyboard_state == old(self).previous_keyboard_state,
            final(self).mouse_move_x == old(self).mouse_move_x,
            final(self).mouse_move_y == old(self).mouse_move_y,
            final(self).previous_mouse_position() == old(self).previous_mouse_position(),
            match window_origin {
                Some(origin) if old(self).lock_cursor_center => {
                    &&& target == Some(final(self).mouse_center_position())
                    &&& final(self).mouse_center_position().0 == Window::center_of(origin).0
                    &&& final(self).mouse_center_position().1 == Window::center_of(origin).1
                },
                _ => target is None && final(self).mouse_center_position() == old(
                    self,
                ).mouse_center_position(),
            },
    {
        if self.lock_cursor_center {
            if let Some(origin) = window_origin {
                self.mouse_center_position_x = origin.0 + HALF_WIDTH;
                self.mouse_center_position_y = origin.1 + HALF_HEIGHT;
                return Some((self.mouse_center_position_x, self.mouse_center_position_y));
            }
        }
        None
    }

    /// Ends a frame.  `mouse_position` is where the cursor is now and
    /// `window_origin` is as for `center_cursor`.  The mouse movement of the
    /// frame is the way from the remembered position to `mouse_position`;
    /// the cursor is centred as `center_cursor` says, and the result is
    /// where to put it; the remembered position becomes the centre while
    /// the cursor is locked and `mouse_position` while it is free; and the
    /// keys of this frame become those of the frame before.
    pub fn update(&mut self, mouse_position: (i32, i32), window_origin: Option<(i32, i32)>) -> (target:
        Option<(i32, i32)>)
        requires
            i32::MIN <= mouse_position.0 - old(self).previous_mouse_position().0 <= i32::MAX,
            i32::MIN <= mouse_position.1 - old(self).previous_mouse_position().1 <= i32::MAX,
            old(self).lock_cursor_center ==> (window_origin matches Some(origin)
                ==> Window::center_of(origin).0 <= i32::MAX && Window::center_of(origin).1
                <= i32::MAX),
        ensures
            final(self).lock_cursor_center == old(self).lock_cursor_center,
            final(self).current_keyboard_state == old(self).current_keyboard_state,
            final(self).previous_keyboard_state@ == old(self).current_keyboard_state@,
            final(self).mouse_move_x == mouse_position.0 - old(self).previous_mouse_position().0,
            final(self).mouse_move_y == mouse_position.1 - old(self).previous_mouse_position().1,
            match window_origin {
                Some(origin) if old(self).lock_cursor_center => {
                    &&& target == Some(final(self).mouse_center_position())
                    &&& final(self).mouse_center_position().0 == Window::center_of(origin).0
                    &&& final(self).mouse_center_position().1 == Window::center_of(origin).1
                },
                _ => target is None && final(self).mouse_center_position() == old(
                    self,
                ).mouse_center_position(),
            },
            final(self).previous_mouse_position() == if old(self).lock_cursor_center {
                final(self).mouse_center_position()
            } else {
                mouse_position
            },
    {
        self.mouse_move_x = mouse_position.0 - self.previous_mouse_position_x;
        self.mouse_move_y = mouse_position.1 - self.previous_mouse_position_y;

        let target = self.center_cursor(window_origin);

        self.previous_mouse_position_x =
        if self.lock_cursor_center {
            self.mouse_center_position_x
        } else {
            mouse_position.0
        };
        self.previous_mouse_position_y =
        if self.lock_cursor_center {
            self.mouse_center_position_y
        } else {
            mouse_position.1
        };

        self.previous_keyboard_state = self.current_keyboard_state.clone();
        target
    }

    /// The key is down.
    pub fn is_key_pressed(&self, key: Key) -> (pressed: bool)
        ensures
            pressed == self.current_keyboard_state@.contains(key),
    {
        holds(&self.current_keyboard_state, key)
    }

    /// The key went down in this frame.
    pub fn was_key_pressed(&self, key: Key) -> (pressed: bool)
        ensures
            pressed == (self.current_keyboard_state@.contains(key)
                && !self.previous_keyboard_state@.contains(key)),
    {
        holds(&self.current_keyboard_state, key) && !holds(&self.previous_keyboard_state, key)
    }

    /// The key came up in this frame.
    pub fn was_key_released(&self, key: Key) -> (released: bool)
        ensures
            released == (!self.current_keyboard_state@.contains(key)
                && self.previous_keyboard_state@.contains(key)),
    {
        !holds(&self.current_keyboard_state, key) && holds(&self.previous_keyboard_state, key)
    }
}

} // verus!
