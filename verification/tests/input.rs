use raycaster::input::{InputEvent, InputManager, MouseButton};
use raycaster::world::{frame_seconds, snapshot, turn_angle, InputSnapshot, KeyBindings, TURN_RATE};

const W: u32 = 22;
const A: u32 = 10;

#[test]
fn nothing_has_happened_at_first() {
    let m = InputManager::new();
    assert!(!m.is_down(W));
    assert!(!m.is_just_pressed(W));
    assert!(!m.is_just_released(W));
    assert!(!m.request_exit());
    assert_eq!(m.request_resize(), None);
    assert_eq!(m.elapsed(), None);
    assert_eq!(m.mouse_motion(), (0, 0));
    assert!(!m.is_mouse_down(MouseButton::Left));
    assert!(!m.is_mouse_just_pressed(MouseButton::Left));
}

#[test]
fn only_the_end_of_a_frame_completes_it() {
    let mut m = InputManager::new();
    assert!(!m.process_event(&InputEvent::FrameStart(5)));
    assert!(!m.process_event(&InputEvent::Resized(3, 4)));
    assert!(!m.process_event(&InputEvent::CloseRequested));
    assert!(!m.process_event(&InputEvent::KeyPressed(W)));
    assert!(!m.process_event(&InputEvent::KeyReleased(W)));
    assert!(!m.process_event(&InputEvent::MouseInput(MouseButton::Left, true)));
    assert!(!m.process_event(&InputEvent::MouseMotion(1, 2)));
    assert!(!m.process_event(&InputEvent::Other));
    assert!(m.process_event(&InputEvent::FrameEnd(9)));
}

#[test]
fn keys_go_down_stay_down_and_go_up() {
    let mut m = InputManager::new();
    m.process_event(&InputEvent::FrameStart(0));
    m.process_event(&InputEvent::KeyPressed(W));
    m.process_event(&InputEvent::KeyPressed(A));
    assert!(m.is_just_pressed(W) && m.is_down(W) && !m.is_just_released(W));
    assert!(m.is_just_pressed(A) && m.is_down(A));
    m.process_event(&InputEvent::FrameEnd(10));
    m.process_event(&InputEvent::FrameStart(11));
    assert!(!m.is_just_pressed(W) && m.is_down(W));
    m.process_event(&InputEvent::KeyPressed(W));
    assert!(m.is_just_pressed(W) && m.is_down(W));
    m.process_event(&InputEvent::KeyReleased(W));
    assert!(m.is_just_released(W) && !m.is_down(W) && m.is_down(A));
    m.process_event(&InputEvent::KeyPressed(W));
    m.process_event(&InputEvent::KeyReleased(W));
    assert!(!m.is_down(W));
    m.process_event(&InputEvent::FrameStart(12));
    assert!(!m.is_just_released(W) && !m.is_just_pressed(W) && !m.is_down(W) && m.is_down(A));
}

#[test]
fn a_second_release_in_one_frame_is_ignored() {
    let mut m = InputManager::new();
    m.process_event(&InputEvent::KeyReleased(W));
    m.process_event(&InputEvent::FrameStart(0));
    m.process_event(&InputEvent::KeyPressed(W));
    m.process_event(&InputEvent::KeyReleased(W));
    m.process_event(&InputEvent::FrameEnd(1));
    assert!(!m.is_down(W));
    let mut m = InputManager::new();
    m.process_event(&InputEvent::KeyReleased(W));
    m.process_event(&InputEvent::KeyPressed(W));
    m.process_event(&InputEvent::KeyReleased(W));
    assert!(m.is_down(W));
}

#[test]
fn requests_last_one_frame() {
    let mut m = InputManager::new();
    m.process_event(&InputEvent::Resized(800, 600));
    m.process_event(&InputEvent::CloseRequested);
    assert_eq!(m.request_resize(), Some((800, 600)));
    assert!(m.request_exit());
    m.process_event(&InputEvent::Resized(640, 480));
    assert_eq!(m.request_resize(), Some((640, 480)));
    m.process_event(&InputEvent::FrameEnd(3));
    assert!(m.request_exit());
    m.process_event(&InputEvent::FrameStart(4));
    assert_eq!(m.request_resize(), None);
    assert!(!m.request_exit());
}

#[test]
fn mouse_buttons_and_motion() {
    let mut m = InputManager::new();
    m.process_event(&InputEvent::FrameStart(0));
    m.process_event(&InputEvent::MouseInput(MouseButton::Left, true));
    m.process_event(&InputEvent::MouseInput(MouseButton::Middle, true));
    m.process_event(&InputEvent::MouseInput(MouseButton::Other(7), true));
    m.process_event(&InputEvent::MouseMotion(-5, 9));
    assert!(m.is_mouse_down(MouseButton::Left) && m.is_mouse_just_pressed(MouseButton::Left));
    assert!(!m.is_mouse_down(MouseButton::Right) && !m.is_mouse_just_pressed(MouseButton::Right));
    assert!(!m.is_mouse_down(MouseButton::Middle) && !m.is_mouse_just_pressed(MouseButton::Middle));
    assert!(!m.is_mouse_down(MouseButton::Other(7)));
    assert_eq!(m.mouse_motion(), (-5, 9));
    m.process_event(&InputEvent::MouseMotion(2, 2));
    assert_eq!(m.mouse_motion(), (2, 2));
    m.process_event(&InputEvent::FrameStart(1));
    assert_eq!(m.mouse_motion(), (0, 0));
    assert!(m.is_mouse_down(MouseButton::Left) && !m.is_mouse_just_pressed(MouseButton::Left));
    m.process_event(&InputEvent::MouseInput(MouseButton::Right, true));
    m.process_event(&InputEvent::MouseInput(MouseButton::Left, false));
    assert!(!m.is_mouse_down(MouseButton::Left));
    assert!(m.is_mouse_down(MouseButton::Right) && m.is_mouse_just_pressed(MouseButton::Right));
}

#[test]
fn frame_time_is_measured_between_frame_ends() {
    let mut m = InputManager::new();
    m.process_event(&InputEvent::FrameEnd(50));
    assert_eq!(m.elapsed(), None);
    m.process_event(&InputEvent::FrameStart(60));
    assert_eq!(m.elapsed(), None);
    m.process_event(&InputEvent::FrameEnd(75));
    assert_eq!(m.elapsed(), Some(25));
    m.process_event(&InputEvent::FrameEnd(70));
    assert_eq!(m.elapsed(), Some(0));
    let mut m = InputManager::new();
    m.process_event(&InputEvent::FrameStart(100));
    m.process_event(&InputEvent::FrameStart(200));
    m.process_event(&InputEvent::FrameEnd(350));
    assert_eq!(m.elapsed(), Some(250));
    m.process_event(&InputEvent::FrameStart(400));
    assert_eq!(m.elapsed(), None);
    m.process_event(&InputEvent::FrameEnd(u64::MAX));
    assert_eq!(m.elapsed(), Some(u64::MAX - 350));
}

const KEYS: KeyBindings = KeyBindings { forward: W, back: 18, left: A, right: 13 };

#[test]
fn frame_length_in_seconds() {
    let mut m = InputManager::new();
    assert_eq!(frame_seconds(&m), 0);
    m.process_event(&InputEvent::FrameStart(0));
    m.process_event(&InputEvent::FrameEnd(1_000_000));
    assert_eq!(frame_seconds(&m), 65536);
    m.process_event(&InputEvent::FrameEnd(1_016_667));
    assert_eq!(frame_seconds(&m), 1092);
    m.process_event(&InputEvent::FrameEnd(1_016_667 + 15));
    assert_eq!(frame_seconds(&m), 0);
    m.process_event(&InputEvent::FrameEnd(u64::MAX));
    assert_eq!(frame_seconds(&m), i32::MAX);
}

#[test]
fn turn_follows_mouse_and_time() {
    assert_eq!(TURN_RATE, 2);
    let mut m = InputManager::new();
    m.process_event(&InputEvent::FrameStart(0));
    m.process_event(&InputEvent::MouseMotion(3 * 65536, 999));
    assert_eq!(turn_angle(&m), 0);
    m.process_event(&InputEvent::FrameEnd(500_000));
    assert_eq!(turn_angle(&m), 3 * 65536);
    m.process_event(&InputEvent::MouseMotion(-65536 / 4, 0));
    assert_eq!(turn_angle(&m), -16384);
    m.process_event(&InputEvent::MouseMotion(-1, 0));
    assert_eq!(turn_angle(&m), -1);
    m.process_event(&InputEvent::MouseMotion(i64::MAX, 0));
    assert_eq!(turn_angle(&m), i32::MAX);
    m.process_event(&InputEvent::MouseMotion(i64::MIN, 0));
    assert_eq!(turn_angle(&m), i32::MIN);
}

#[test]
fn snapshot_gathers_the_frame() {
    let mut m = InputManager::new();
    m.process_event(&InputEvent::FrameStart(0));
    m.process_event(&InputEvent::KeyPressed(W));
    m.process_event(&InputEvent::KeyPressed(13));
    m.process_event(&InputEvent::KeyPressed(99));
    m.process_event(&InputEvent::MouseInput(MouseButton::Left, true));
    m.process_event(&InputEvent::FrameEnd(250_000));
    assert_eq!(
        snapshot(&m, &KEYS, 7, -8),
        InputSnapshot {
            move_forward: true,
            move_back: false,
            strafe_left: false,
            strafe_right: true,
            turn_cos: 7,
            turn_sin: -8,
            fire_trigger: true,
            elapsed_time: 16384,
        }
    );
    m.process_event(&InputEvent::FrameStart(250_001));
    m.process_event(&InputEvent::KeyReleased(W));
    m.process_event(&InputEvent::KeyPressed(18));
    m.process_event(&InputEvent::KeyPressed(A));
    m.process_event(&InputEvent::MouseInput(MouseButton::Right, true));
    m.process_event(&InputEvent::FrameEnd(500_000));
    assert_eq!(
        snapshot(&m, &KEYS, 65536, 0),
        InputSnapshot {
            move_forward: false,
            move_back: true,
            strafe_left: true,
            strafe_right: true,
            turn_cos: 65536,
            turn_sin: 0,
            fire_trigger: false,
            elapsed_time: 16384,
        }
    );
}
