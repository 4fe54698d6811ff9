//! Input bookkeeping: which keys and mouse buttons went down, are down and
//! went up during the current frame, and how long the last frame took.

use vstd::prelude::*;

verus! {

/// A mouse button.
#[derive(Debug, Clone, Copy, PartialEq, Eq, Structural)]
pub enum MouseButton {
    Left,
    Right,
    Middle,
    Other(u16),
}

/// One thing that happened to the window or the input devices. Keys are
/// named by their codes; times are in microseconds since any fixed moment.
#[derive(Debug, Clone, Copy, PartialEq, Eq, Structural)]
pub enum InputEvent {
    /// A new batch of events begins, at the given time.
    FrameStart(u64),
    /// The window got a new size in pixels.
    Resized(u32, u32),
    /// The user asked to close the window.
    CloseRequested,
    /// A key went down.
    KeyPressed(u32),
    /// A key went up.
    KeyReleased(u32),
    /// A mouse button went down (`true`) or up (`false`).
    MouseInput(MouseButton, bool),
    /// The mouse moved by the given amount along `x` and `y`.
    MouseMotion(i64, i64),
    /// The batch of events is complete, at the given time.
    FrameEnd(u64),
    /// Anything else.
    Other,
}

/// The mathematical model of the input state.
pub struct InputView {
    pub just_pressed: Seq<u32>,
    pub held: Seq<u32>,
    pub released: Seq<u32>,
    pub request_exit: bool,
    pub request_resize: Option<(u32, u32)>,
    pub mouse_motion: (i64, i64),
    pub mouse_buttons: (bool, bool),
    pub old_mouse_buttons: (bool, bool),
    pub start_time: Option<u64>,
    pub delta_time: Option<u64>,
}

/// The time from `start` to `now`, or 0 when `now` is the earlier.
pub open spec fn time_between(start: u64, now: u64) -> u64 {
    if now >= start {
        (now - start) as u64
    } else {
        0
    }
}

impl InputView {
    /// The state in which nothing has happened yet.
    pub open spec fn initial() -> InputView {
        InputView {
            just_pressed: Seq::empty(),
            held: Seq::empty(),
            released: Seq::empty(),
            request_exit: false,
            request_resize: None,
            mouse_motion: (0, 0),
            mouse_buttons: (false, false),
            old_mouse_buttons: (false, false),
            start_time: None,
            delta_time: None,
        }
    }

    /// The state after `event`.
    pub open spec fn after(self, event: InputEvent) -> InputView {
        match event {
            InputEvent::FrameStart(now) => InputView {
                just_pressed: Seq::empty(),
                released: Seq::empty(),
                request_exit: false,
                request_resize: None,
                mouse_motion: (0, 0),
                old_mouse_buttons: self.mouse_buttons,
                start_time: if self.start_time is Some {
                    self.start_time
                } else {
                    Some(now)
                },
                delta_time: None,
                ..self
            },
            InputEvent::Resized(width, height) => InputView {
                request_resize: Some((width, height)),
                ..self
            },
            InputEvent::CloseRequested => InputView { request_exit: true, ..self },
            InputEvent::KeyPressed(key) => if self.just_pressed.contains(key) {
                self
            } else {
                InputView {
                    just_pressed: self.just_pressed.push(key),
                    held: self.held.push(key),
                    ..self
                }
            },
            InputEvent::KeyReleased(key) => if self.released.contains(key) {
                self
            } else {
                InputView {
                    released: self.released.push(key),
                    held: self.held.filter(|k: u32| k != key),
                    ..self
                }
            },
            InputEvent::MouseInput(button, pressed) => match button {
                MouseButton::Left => InputView {
                    mouse_buttons: (pressed, self.mouse_buttons.1),
                    ..self
                },
                MouseButton::Right => InputView {
                    mouse_buttons: (self.mouse_buttons.0, pressed),
                    ..self
                },
                _ => self,
            },
            InputEvent::MouseMotion(dx, dy) => InputView { mouse_motion: (dx, dy), ..self },
            InputEvent::FrameEnd(now) => InputView {
                delta_time: match self.start_time {
                    Some(start) => Some(time_between(start, now)),
                    None => None,
                },
                start_time: Some(now),
                ..self
            },
            InputEvent::Other => self,
        }
    }

    /// Whether the given mouse button is down.
    pub open spec fn mouse_down(self, button: MouseButton) -> bool {
        match button {
            MouseButton::Left => self.mouse_buttons.0,
            MouseButton::Right => self.mouse_buttons.1,
            _ => false,
        }
    }

    /// Whether the given mouse button went down during this frame.
    pub open spec fn mouse_just_pressed(self, button: MouseButton) -> bool {
        match button {
            MouseButton::Left => self.mouse_buttons.0 && !self.old_mouse_buttons.0,
            MouseButton::Right => self.mouse_buttons.1 && !self.old_mouse_buttons.1,
            _ => false,
        }
    }
}

/// Keeps track of keys, mouse buttons, window requests and frame times from
/// one event to the next.
pub struct InputManager {
    just_pressed: Vec<u32>,
    held: Vec<u32>,
    released: Vec<u32>,
    request_exit: bool,
    request_resize: Option<(u32, u32)>,
    mouse_motion: (i64, i64),
    mouse_buttons: [bool; 2],
    old_mouse_buttons: [bool; 2],
    start_time: Option<u64>,
    delta_time: Option<u64>,
}

/// Whether `key` occurs in `keys`.
fn holds(keys: &Vec<u32>, key: u32) -> (found: bool)
    ensures
        found == keys@.contains(key),
{
    let mut i: usize = 0;
    while i < keys.len()
        invariant
            i <= keys.len(),
            forall|k: int| 0 <= k < i ==> keys@[k] != key,
        decreases keys.len() - i,
    {
        if keys[i] == key {
            return true;
        }
        i += 1;
    }
    false
}

/// `keys` without any occurrence of `key`.
fn without(keys: &Vec<u32>, key: u32) -> (rest: Vec<u32>)
    ensures
        rest@ == keys@.filter(|k: u32| k != key),
{
    let ghost other = |k: u32| k != key;
    let mut rest: Vec<u32> = Vec::new();
    let mut i: usize = 0;
    assert(keys@.take(0).filter(other) =~= Seq::<u32>::empty());
    while i < keys.len()
        invariant
            i <= keys.len(),
            other == |k: u32| k != key,
            rest@ == keys@.take(i as int).filter(other),
        decreases keys.len() - i,
    {
        proof {
            assert(keys@.take(i + 1).drop_last() =~= keys@.take(i as int));
            reveal(Seq::filter);
        }
        if keys[i] != key {
            rest.push(keys[i]);
        }
        i += 1;
    }
    assert(keys@.take(i as int) =~= keys@);
    rest
}

impl InputManager {
    /// The state this value stands for.
    pub closed spec fn view(&self) -> InputView {
        InputView {
            just_pressed: self.just_pressed@,
            held: self.held@,
            released: self.released@,
            request_exit: self.request_exit,
            request_resize: self.request_resize,
            mouse_motion: self.mouse_motion,
            mouse_buttons: (self.mouse_buttons[0], self.mouse_buttons[1]),
            old_mouse_buttons: (self.old_mouse_buttons[0], self.old_mouse_buttons[1]),
            start_time: self.start_time,
            delta_time: self.delta_time,
        }
    }

    /// Makes a manager to which nothing has happened yet.
    pub fn new() -> (m: InputManager)
        ensures
            m@ == InputView::initial(),
    {
        InputManager {
            just_pressed: Vec::new(),
            held: Vec::new(),
            released: Vec::new(),
            request_exit: false,
            request_resize: None,
            mouse_motion: (0, 0),
            mouse_buttons: [false, false],
            old_mouse_buttons: [false, false],
            start_time: None,
            delta_time: None,
        }
    }

    /// Takes note of `event` and tells whether the frame's events are
    /// complete.
    pub fn process_event(&mut self, event: &InputEvent) -> (complete: bool)
        ensures
            final(self)@ == old(self)@.after(*event),
            complete == (*event is FrameEnd),
    {
        match *event {
            InputEvent::FrameStart(now) => {
                self.request_resize = None;
                self.request_exit = false;
                self.just_pressed = Vec::new();
                self.released = Vec::new();
                self.mouse_motion = (0, 0);
                self.old_mouse_buttons = self.mouse_buttons;
                if self.start_time.is_none() {
                    self.start_time = Some(now);
                }
                self.delta_time = None;
                false
            },
            InputEvent::Resized(width, height) => {
                self.request_resize = Some((width, height));
                false
            },
            InputEvent::CloseRequested => {
                self.request_exit = true;
                false
            },
            InputEvent::KeyPressed(key) => {
                if !holds(&self.just_pressed, key) {
                    self.just_pressed.push(key);
                    self.held.push(key);
                }
                false
            },
            InputEvent::KeyReleased(key) => {
                if !holds(&self.released, key) {
                    self.released.push(key);
                    self.held = without(&self.held, key);
                }
                false
            },
            InputEvent::MouseInput(button, pressed) => {
                match button {
                    MouseButton::Left => {
                        self.mouse_buttons = [pressed, self.mouse_buttons[1]];
                    },
                    MouseButton::Right => {
                        self.mouse_buttons = [self.mouse_buttons[0], pressed];
                    },
                    _ => {},
                }
                false
            },
            InputEvent::MouseMotion(dx, dy) => {
                self.mouse_motion = (dx, dy);
                false
            },
            InputEvent::FrameEnd(now) => {
                self.delta_time = match self.start_time {
                    Some(start) => Some(if now >= start { now - start } else { 0 }),
                    None => None,
                };
                self.start_time = Some(now);
                true
            },
            InputEvent::Other => false,
        }
    }

    /// Whether the user asked to close the window during this frame.
    pub fn request_exit(&self) -> (r: bool)
        ensures
            r == self@.request_exit,
    {
        self.request_exit
    }

    /// The size in pixels that the window got during this frame, if it got
    /// one.
    pub fn request_resize(&self) -> (r: Option<(u32, u32)>)
        ensures
            r == self@.request_resize,
    {
        self.request_resize
    }

    /// Whether the key went down during this frame.
    pub fn is_just_pressed(&self, key: u32) -> (r: bool)
        ensures
            r == self@.just_pressed.contains(key),
    {
        holds(&self.just_pressed, key)
    }

    /// Whether the key is down.
    pub fn is_down(&self, key: u32) -> (r: bool)
        ensures
            r == self@.held.contains(key),
    {
        holds(&self.held, key)
    }

    /// Whether the key went up during this frame.
    pub fn is_just_released(&self, key: u32) -> (r: bool)
        ensures
            r == self@.released.contains(key),
    {
        holds(&self.released, key)
    }

    /// The time between the ends of the last two frames, once two have
    /// ended.
    pub fn elapsed(&self) -> (r: Option<u64>)
        ensures
            r == self@.delta_time,
    {
        self.delta_time
    }

    /// How far the mouse moved, as last reported during this frame.
    pub fn mouse_motion(&self) -> (r: (i64, i64))
        ensures
            r == self@.mouse_motion,
    {
        self.mouse_motion
    }

    /// Whether the given mouse button is down.
    pub fn is_mouse_down(&self, button: MouseButton) -> (r: bool)
        ensures
            r == self@.mouse_down(button),
    {
        match button {
            MouseButton::Left => self.mouse_buttons[0],
            MouseButton::Right => self.mouse_buttons[1],
            _ => false,
        }
    }

    /// Whether the given mouse button went down during this frame.
    pub fn is_mouse_just_pressed(&self, button: MouseButton) -> (r: bool)
        ensures
            r == self@.mouse_just_pressed(button),
    {
        match button {
            MouseButton::Left => self.mouse_buttons[0] && !self.old_mouse_buttons[0],
            MouseButton::Right => self.mouse_buttons[1] && !self.old_mouse_buttons[1],
            _ => false,
        }
    }
}

} // verus!
