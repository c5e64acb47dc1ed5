//! Mapping of DOM keyboard, pointer, touch and gamepad codes to input events.

use vstd::prelude::*;

verus! {

/// Keys the input layer distinguishes.
#[derive(Clone, Copy, Debug, PartialEq, Eq, Structural, Hash)]
pub enum KeyCode {
    /// The W key.
    KeyW,
    /// The A key.
    KeyA,
    /// The S key.
    KeyS,
    /// The D key.
    KeyD,
    /// The Q key.
    KeyQ,
    /// The E key.
    KeyE,
    /// The space bar.
    Space,
    /// Left Shift.
    ShiftLeft,
    /// Right Shift.
    ShiftRight,
    /// Left Control.
    ControlLeft,
    /// Right Control.
    ControlRight,
    /// Left Alt.
    AltLeft,
    /// Right Alt.
    AltRight,
    /// Left Meta.
    MetaLeft,
    /// Right Meta.
    MetaRight,
    /// Up arrow.
    ArrowUp,
    /// Down arrow.
    ArrowDown,
    /// Left arrow.
    ArrowLeft,
    /// Right arrow.
    ArrowRight,
    /// Escape.
    Escape,
    /// Enter.
    Enter,
    /// Tab.
    Tab,
}

/// Pointer buttons, in DOM button order.
#[derive(Clone, Copy, Debug, PartialEq, Eq, Structural, Hash)]
pub enum PointerButton {
    /// Primary button.
    Left,
    /// Auxiliary (wheel) button.
    Middle,
    /// Secondary button.
    Right,
    /// Browser back button.
    Back,
    /// Browser forward button.
    Forward,
}

/// Phase of a touch point.
#[derive(Clone, Copy, Debug, PartialEq, Eq, Structural, Hash)]
pub enum TouchPhase {
    /// The touch began.
    Started,
    /// The touch moved.
    Moved,
    /// The touch ended.
    Ended,
    /// The touch was cancelled.
    Cancelled,
}

/// Gamepad stick axes, in standard-mapping order.
#[derive(Clone, Copy, Debug, PartialEq, Eq, Structural, Hash)]
pub enum GamepadAxis {
    /// Left stick, horizontal.
    LeftX,
    /// Left stick, vertical.
    LeftY,
    /// Right stick, horizontal.
    RightX,
    /// Right stick, vertical.
    RightY,
}

/// Gamepad buttons, in standard-mapping order.
#[derive(Clone, Copy, Debug, PartialEq, Eq, Structural, Hash)]
pub enum GamepadButton {
    /// Bottom face button.
    South,
    /// Right face button.
    East,
    /// Left face button.
    West,
    /// Top face button.
    North,
    /// Left bumper.
    LeftBumper,
    /// Right bumper.
    RightBumper,
    /// Left trigger.
    LeftTrigger,
    /// Right trigger.
    RightTrigger,
    /// Select or back button.
    Select,
    /// Start button.
    Start,
    /// Left stick press.
    LeftStick,
    /// Right stick press.
    RightStick,
    /// D-pad up.
    DPadUp,
    /// D-pad down.
    DPadDown,
    /// D-pad left.
    DPadLeft,
    /// D-pad right.
    DPadRight,
    /// Home or guide button.
    Home,
}

/// The key a DOM `KeyboardEvent.code` names, if the input layer knows it.
pub open spec fn key_code_spec(code: Seq<char>) -> Option<KeyCode> {
    if code == "KeyW"@ {
        Some(KeyCode::KeyW)
    } else if code == "KeyA"@ {
        Some(KeyCode::KeyA)
    } else if code == "KeyS"@ {
        Some(KeyCode::KeyS)
    } else if code == "KeyD"@ {
        Some(KeyCode::KeyD)
    } else if code == "KeyQ"@ {
        Some(KeyCode::KeyQ)
    } else if code == "KeyE"@ {
        Some(KeyCode::KeyE)
    } else if code == "Space"@ {
        Some(KeyCode::Space)
    } else if code == "ShiftLeft"@ {
        Some(KeyCode::ShiftLeft)
    } else if code == "ShiftRight"@ {
        Some(KeyCode::ShiftRight)
    } else if code == "ControlLeft"@ {
        Some(KeyCode::ControlLeft)
    } else if code == "ControlRight"@ {
        Some(KeyCode::ControlRight)
    } else if code == "AltLeft"@ {
        Some(KeyCode::AltLeft)
    } else if code == "AltRight"@ {
        Some(KeyCode::AltRight)
    } else if code == "MetaLeft"@ {
        Some(KeyCode::MetaLeft)
    } else if code == "MetaRight"@ {
        Some(KeyCode::MetaRight)
    } else if code == "ArrowUp"@ {
        Some(KeyCode::ArrowUp)
    } else if code == "ArrowDown"@ {
        Some(KeyCode::ArrowDown)
    } else if code == "ArrowLeft"@ {
        Some(KeyCode::ArrowLeft)
    } else if code == "ArrowRight"@ {
        Some(KeyCode::ArrowRight)
    } else if code == "Escape"@ {
        Some(KeyCode::Escape)
    } else if code == "Enter"@ {
        Some(KeyCode::Enter)
    } else if code == "Tab"@ {
        Some(KeyCode::Tab)
    } else {
        None
    }
}

/// The DOM `KeyboardEvent.code` of each key: the key's own name.
pub open spec fn dom_code(key: KeyCode) -> Seq<char> {
    match key {
        KeyCode::KeyW => "KeyW"@,
        KeyCode::KeyA => "KeyA"@,
        KeyCode::KeyS => "KeyS"@,
        KeyCode::KeyD => "KeyD"@,
        KeyCode::KeyQ => "KeyQ"@,
        KeyCode::KeyE => "KeyE"@,
        KeyCode::Space => "Space"@,
        KeyCode::ShiftLeft => "ShiftLeft"@,
        KeyCode::ShiftRight => "ShiftRight"@,
        KeyCode::ControlLeft => "ControlLeft"@,
        KeyCode::ControlRight => "ControlRight"@,
        KeyCode::AltLeft => "AltLeft"@,
        KeyCode::AltRight => "AltRight"@,
        KeyCode::MetaLeft => "MetaLeft"@,
        KeyCode::MetaRight => "MetaRight"@,
        KeyCode::ArrowUp => "ArrowUp"@,
        KeyCode::ArrowDown => "ArrowDown"@,
        KeyCode::ArrowLeft => "ArrowLeft"@,
        KeyCode::ArrowRight => "ArrowRight"@,
        KeyCode::Escape => "Escape"@,
        KeyCode::Enter => "Enter"@,
        KeyCode::Tab => "Tab"@,
    }
}

/// The DOM codes map to keys one to one: the code of every key maps back to
/// that key, and a code maps to a key only when it is that key's code. So two
/// different codes never give the same key.
pub proof fn lemma_key_codes_round_trip(key: KeyCode, code: Seq<char>)
    ensures
        key_code_spec(dom_code(key)) == Some(key),
        key_code_spec(code) == Some(key) ==> code == dom_code(key),
{
    // Each code differs from the others in its length, first or last character.
    reveal_strlit("KeyW");
    assert("KeyW"@.len() == 4 && "KeyW"@[0] == 'K' && "KeyW"@[3] == 'W');
    reveal_strlit("KeyA");
    assert("KeyA"@.len() == 4 && "KeyA"@[0] == 'K' && "KeyA"@[3] == 'A');
    reveal_strlit("KeyS");
    assert("KeyS"@.len() == 4 && "KeyS"@[0] == 'K' && "KeyS"@[3] == 'S');
    reveal_strlit("KeyD");
    assert("KeyD"@.len() == 4 && "KeyD"@[0] == 'K' && "KeyD"@[3] == 'D');
    reveal_strlit("KeyQ");
    assert("KeyQ"@.len() == 4 && "KeyQ"@[0] == 'K' && "KeyQ"@[3] == 'Q');
    reveal_strlit("KeyE");
    assert("KeyE"@.len() == 4 && "KeyE"@[0] == 'K' && "KeyE"@[3] == 'E');
    reveal_strlit("Space");
    assert("Space"@.len() == 5 && "Space"@[0] == 'S' && "Space"@[4] == 'e');
    reveal_strlit("ShiftLeft");
    assert("ShiftLeft"@.len() == 9 && "ShiftLeft"@[0] == 'S' && "ShiftLeft"@[8] == 't');
    reveal_strlit("ShiftRight");
    assert("ShiftRight"@.len() == 10 && "ShiftRight"@[0] == 'S' && "ShiftRight"@[9] == 't');
    reveal_strlit("ControlLeft");
    assert("ControlLeft"@.len() == 11 && "ControlLeft"@[0] == 'C' && "ControlLeft"@[10] == 't');
    reveal_strlit("ControlRight");
    assert("ControlRight"@.len() == 12 && "ControlRight"@[0] == 'C' && "ControlRight"@[11] == 't');
    reveal_strlit("AltLeft");
    assert("AltLeft"@.len() == 7 && "AltLeft"@[0] == 'A' && "AltLeft"@[6] == 't');
    reveal_strlit("AltRight");
    assert("AltRight"@.len() == 8 && "AltRight"@[0] == 'A' && "AltRight"@[7] == 't');
    reveal_strlit("MetaLeft");
    assert("MetaLeft"@.len() == 8 && "MetaLeft"@[0] == 'M' && "MetaLeft"@[7] == 't');
    reveal_strlit("MetaRight");
    assert("MetaRight"@.len() == 9 && "MetaRight"@[0] == 'M' && "MetaRight"@[8] == 't');
    reveal_strlit("ArrowUp");
    assert("ArrowUp"@.len() == 7 && "ArrowUp"@[0] == 'A' && "ArrowUp"@[6] == 'p');
    reveal_strlit("ArrowDown");
    assert("ArrowDown"@.len() == 9 && "ArrowDown"@[0] == 'A' && "ArrowDown"@[8] == 'n');
    reveal_strlit("ArrowLeft");
    assert("ArrowLeft"@.len() == 9 && "ArrowLeft"@[0] == 'A' && "ArrowLeft"@[8] == 't');
    reveal_strlit("ArrowRight");
    assert("ArrowRight"@.len() == 10 && "ArrowRight"@[0] == 'A' && "ArrowRight"@[9] == 't');
    reveal_strlit("Escape");
    assert("Escape"@.len() == 6 && "Escape"@[0] == 'E' && "Escape"@[5] == 'e');
    reveal_strlit("Enter");
    assert("Enter"@.len() == 5 && "Enter"@[0] == 'E' && "Enter"@[4] == 'r');
    reveal_strlit("Tab");
    assert("Tab"@.len() == 3 && "Tab"@[0] == 'T' && "Tab"@[2] == 'b');
}

/// Maps a DOM `KeyboardEvent.code` string to a key.
pub fn key_code_from_dom(code: &str) -> (k: Option<KeyCode>)
    ensures
        k == key_code_spec(code@),
{
    let code = code.to_owned();
    if code == "KeyW".to_owned() {
        return Some(KeyCode::KeyW);
    }
    if code == "KeyA".to_owned() {
        return Some(KeyCode::KeyA);
    }
    if code == "KeyS".to_owned() {
        return Some(KeyCode::KeyS);
    }
    if code == "KeyD".to_owned() {
        return Some(KeyCode::KeyD);
    }
    if code == "KeyQ".to_owned() {
        return Some(KeyCode::KeyQ);
    }
    if code == "KeyE".to_owned() {
        return Some(KeyCode::KeyE);
    }
    if code == "Space".to_owned() {
        return Some(KeyCode::Space);
    }
    if code == "ShiftLeft".to_owned() {
        return Some(KeyCode::ShiftLeft);
    }
    if code == "ShiftRight".to_owned() {
        return Some(KeyCode::ShiftRight);
    }
    if code == "ControlLeft".to_owned() {
        return Some(KeyCode::ControlLeft);
    }
    if code == "ControlRight".to_owned() {
        return Some(KeyCode::ControlRight);
    }
    if code == "AltLeft".to_owned() {
        return Some(KeyCode::AltLeft);
    }
    if code == "AltRight".to_owned() {
        return Some(KeyCode::AltRight);
    }
    if code == "MetaLeft".to_owned() {
        return Some(KeyCode::MetaLeft);
    }
    if code == "MetaRight".to_owned() {
        return Some(KeyCode::MetaRight);
    }
    if code == "ArrowUp".to_owned() {
        return Some(KeyCode::ArrowUp);
    }
    if code == "ArrowDown".to_owned() {
        return Some(KeyCode::ArrowDown);
    }
    if code == "ArrowLeft".to_owned() {
        return Some(KeyCode::ArrowLeft);
    }
    if code == "ArrowRight".to_owned() {
        return Some(KeyCode::ArrowRight);
    }
    if code == "Escape".to_owned() {
        return Some(KeyCode::Escape);
    }
    if code == "Enter".to_owned() {
        return Some(KeyCode::Enter);
    }
    if code == "Tab".to_owned() {
        return Some(KeyCode::Tab);
    }
    None
}

/// The pointer button a DOM button number names, if any.
pub open spec fn pointer_button_spec(button: i16) -> Option<PointerButton> {
    match button {
        0 => Some(PointerButton::Left),
        1 => Some(PointerButton::Middle),
        2 => Some(PointerButton::Right),
        3 => Some(PointerButton::Back),
        4 => Some(PointerButton::Forward),
        _ => None,
    }
}

/// The DOM number of each pointer button: its position in the enum, primary first.
pub open spec fn pointer_button_index(value: PointerButton) -> i16 {
    match value {
        PointerButton::Left => 0,
        PointerButton::Middle => 1,
        PointerButton::Right => 2,
        PointerButton::Back => 3,
        PointerButton::Forward => 4,
    }
}

/// DOM pointer button numbers and pointer buttons correspond one to one:
/// each button's number maps to it, and a number maps to a button only when
/// it is that button's number.
pub proof fn lemma_pointer_buttons_numbered(value: PointerButton, button: i16)
    ensures
        pointer_button_spec(pointer_button_index(value)) == Some(value),
        pointer_button_spec(button) == Some(value) ==> button == pointer_button_index(value),
{
}

/// Maps a DOM pointer button number (`0..=4`) to a pointer button.
pub fn pointer_button_from_dom(button: i16) -> (b: Option<PointerButton>)
    ensures
        b == pointer_button_spec(button),
{
    match button {
        0 => Some(PointerButton::Left),
        1 => Some(PointerButton::Middle),
        2 => Some(PointerButton::Right),
        3 => Some(PointerButton::Back),
        4 => Some(PointerButton::Forward),
        _ => None,
    }
}

/// The touch phase a compact phase code names, if any.
pub open spec fn touch_phase_spec(phase: u8) -> Option<TouchPhase> {
    match phase {
        0 => Some(TouchPhase::Started),
        1 => Some(TouchPhase::Moved),
        2 => Some(TouchPhase::Ended),
        3 => Some(TouchPhase::Cancelled),
        _ => None,
    }
}

/// The compact code of each touch phase: its position in the enum.
pub open spec fn touch_phase_index(value: TouchPhase) -> u8 {
    match value {
        TouchPhase::Started => 0,
        TouchPhase::Moved => 1,
        TouchPhase::Ended => 2,
        TouchPhase::Cancelled => 3,
    }
}

/// Touch phase codes and touch phases correspond one to one: each phase's
/// code maps to it, and a code maps to a phase only when it is that phase's code.
pub proof fn lemma_touch_phases_numbered(value: TouchPhase, phase: u8)
    ensures
        touch_phase_spec(touch_phase_index(value)) == Some(value),
        touch_phase_spec(phase) == Some(value) ==> phase == touch_phase_index(value),
{
}

/// Maps a compact browser touch phase code (`0..=3`) to a touch phase.
pub fn touch_phase_from_dom(phase: u8) -> (p: Option<TouchPhase>)
    ensures
        p == touch_phase_spec(phase),
{
    match phase {
        0 => Some(TouchPhase::Started),
        1 => Some(TouchPhase::Moved),
        2 => Some(TouchPhase::Ended),
        3 => Some(TouchPhase::Cancelled),
        _ => None,
    }
}

/// The axis a standard gamepad axis index names, if any.
pub open spec fn gamepad_axis_spec(axis: u8) -> Option<GamepadAxis> {
    match axis {
        0 => Some(GamepadAxis::LeftX),
        1 => Some(GamepadAxis::LeftY),
        2 => Some(GamepadAxis::RightX),
        3 => Some(GamepadAxis::RightY),
        _ => None,
    }
}

/// The standard-mapping index of each axis: its position in the enum.
pub open spec fn gamepad_axis_index(value: GamepadAxis) -> u8 {
    match value {
        GamepadAxis::LeftX => 0,
        GamepadAxis::LeftY => 1,
        GamepadAxis::RightX => 2,
        GamepadAxis::RightY => 3,
    }
}

/// Standard axis indices and axes correspond one to one: each axis's index
/// maps to it, and an index maps to an axis only when it is that axis's index.
pub proof fn lemma_gamepad_axes_numbered(value: GamepadAxis, axis: u8)
    ensures
        gamepad_axis_spec(gamepad_axis_index(value)) == Some(value),
        gamepad_axis_spec(axis) == Some(value) ==> axis == gamepad_axis_index(value),
{
}

/// Maps a standard gamepad axis index (`0..=3`) to an axis.
pub fn gamepad_axis_from_standard(axis: u8) -> (a: Option<GamepadAxis>)
    ensures
        a == gamepad_axis_spec(axis),
{
    match axis {
        0 => Some(GamepadAxis::LeftX),
        1 => Some(GamepadAxis::LeftY),
        2 => Some(GamepadAxis::RightX),
        3 => Some(GamepadAxis::RightY),
        _ => None,
    }
}

/// The button a standard gamepad button index names, if any.
pub open spec fn gamepad_button_spec(button: u8) -> Option<GamepadButton> {
    match button {
        0 => Some(GamepadButton::South),
        1 => Some(GamepadButton::East),
        2 => Some(GamepadButton::West),
        3 => Some(GamepadButton::North),
        4 => Some(GamepadButton::LeftBumper),
        5 => Some(GamepadButton::RightBumper),
        6 => Some(GamepadButton::LeftTrigger),
        7 => Some(GamepadButton::RightTrigger),
        8 => Some(GamepadButton::Select),
        9 => Some(GamepadButton::Start),
        10 => Some(GamepadButton::LeftStick),
        11 => Some(GamepadButton::RightStick),
        12 => Some(GamepadButton::DPadUp),
        13 => Some(GamepadButton::DPadDown),
        14 => Some(GamepadButton::DPadLeft),
        15 => Some(GamepadButton::DPadRight),
        16 => Some(GamepadButton::Home),
        _ => None,
    }
}

/// The standard-mapping index of each button: its position in the enum.
pub open spec fn gamepad_button_index(value: GamepadButton) -> u8 {
    match value {
        GamepadButton::South => 0,
        GamepadButton::East => 1,
        GamepadButton::West => 2,
        GamepadButton::North => 3,
        GamepadButton::LeftBumper => 4,
        GamepadButton::RightBumper => 5,
        GamepadButton::LeftTrigger => 6,
        GamepadButton::RightTrigger => 7,
        GamepadButton::Select => 8,
        GamepadButton::Start => 9,
        GamepadButton::LeftStick => 10,
        GamepadButton::RightStick => 11,
        GamepadButton::DPadUp => 12,
        GamepadButton::DPadDown => 13,
        GamepadButton::DPadLeft => 14,
        GamepadButton::DPadRight => 15,
        GamepadButton::Home => 16,
    }
}

/// Standard button indices and buttons correspond one to one: each
/// button's index maps to it, and an index maps to a button only when it is
/// that button's index.
pub proof fn lemma_gamepad_buttons_numbered(value: GamepadButton, button: u8)
    ensures
        gamepad_button_spec(gamepad_button_index(value)) == Some(value),
        gamepad_button_spec(button) == Some(value) ==> button == gamepad_button_index(value),
{
}

/// Maps a standard gamepad button index (`0..=16`) to a button.
pub fn gamepad_button_from_standard(button: u8) -> (b: Option<GamepadButton>)
    ensures
        b == gamepad_button_spec(button),
{
    match button {
        0 => Some(GamepadButton::South),
        1 => Some(GamepadButton::East),
        2 => Some(GamepadButton::West),
        3 => Some(GamepadButton::North),
        4 => Some(GamepadButton::LeftBumper),
        5 => Some(GamepadButton::RightBumper),
        6 => Some(GamepadButton::LeftTrigger),
        7 => Some(GamepadButton::RightTrigger),
        8 => Some(GamepadButton::Select),
        9 => Some(GamepadButton::Start),
        10 => Some(GamepadButton::LeftStick),
        11 => Some(GamepadButton::RightStick),
        12 => Some(GamepadButton::DPadUp),
        13 => Some(GamepadButton::DPadDown),
        14 => Some(GamepadButton::DPadLeft),
        15 => Some(GamepadButton::DPadRight),
        16 => Some(GamepadButton::Home),
        _ => None,
    }
}

} // verus!
