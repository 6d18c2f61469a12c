//! The interactive controls: the viewer's state flags, object selection and
//! what each key press does to them.
use vstd::prelude::*;
use crate::modes::LightMode;

verus! {

/// The viewer's interactive state.
#[derive(Debug, Clone, Copy, PartialEq, Eq, Structural)]
pub struct States {
    pub draw_wireframe: bool,
    pub bake_normals: bool,
    pub backface_culling: bool,
    pub move_obj: bool,
    pub current_obj: usize,
    pub light_mode: LightMode,
    pub is_mouse_look_enabled: bool,
    pub is_mouse_pan_enabled: bool,
}

impl States {
    /// The state a new pipeline starts in: shaded Blinn-Phong drawing with
    /// back-face culling, the camera under control, the first object
    /// selected, no mouse drag in progress.
    pub fn new() -> (s: States)
        ensures
            !s.draw_wireframe,
            !s.bake_normals,
            s.backface_culling,
            !s.move_obj,
            s.current_obj == 0,
            s.light_mode == LightMode::BlinnPhong,
            !s.is_mouse_look_enabled,
            !s.is_mouse_pan_enabled,
    {
        States {
            draw_wireframe: false,
            bake_normals: false,
            backface_culling: true,
            move_obj: false,
            current_obj: 0,
            light_mode: LightMode::BlinnPhong,
            is_mouse_look_enabled: false,
            is_mouse_pan_enabled: false,
        }
    }

    /// Whether the lighting pass is skipped and fragments are shown with
    /// their own colours: when drawing wireframes or when lighting is off.
    pub fn skips_lighting(&self) -> (b: bool)
        ensures
            b == (self.draw_wireframe || self.light_mode == LightMode::Unlit),
    {
        self.draw_wireframe || self.light_mode == LightMode::Unlit
    }
}

/// The object selected after stepping back from `current` among `count`
/// objects: one lower, stopping at the first, and never past the last.
pub open spec fn previous_selection(current: int, count: int) -> int {
    let c = if current > 0 {
        current - 1
    } else {
        0
    };
    if c > count - 1 {
        count - 1
    } else {
        c
    }
}

/// The object selected after stepping forward from `current` among `count`
/// objects: one higher, wrapping around past the last.
pub open spec fn next_selection(current: int, count: int) -> int {
    let c = current + 1;
    if c > count - 1 {
        c % count
    } else {
        c
    }
}

/// Steps the selection back by one object.
pub fn select_previous(current: usize, count: usize) -> (c: usize)
    requires
        count >= 1,
    ensures
        c == previous_selection(current as int, count as int),
{
    let c = current.saturating_sub(1);
    if c > count - 1 {
        count - 1
    } else {
        c
    }
}

/// Steps the selection forward by one object.
pub fn select_next(current: usize, count: usize) -> (c: usize)
    requires
        count >= 1,
        current < usize::MAX,
    ensures
        c == next_selection(current as int, count as int),
{
    let c = current + 1;
    if c > count - 1 {
        c % count
    } else {
        c
    }
}

/// From a valid selection, stepping forward visits the objects in a cycle,
/// stepping back stops at the first object, and stepping forward after
/// stepping back returns to where one was, except at the first object.
pub proof fn law_selection(current: int, count: int)
    requires
        0 <= current < count,
    ensures
        0 <= next_selection(current, count) < count,
        next_selection(current, count) == (current + 1) % count,
        0 <= previous_selection(current, count) < count,
        current > 0 ==> previous_selection(current, count) == current - 1,
        previous_selection(0, count) == 0,
        current > 0 ==> next_selection(previous_selection(current, count), count) == current,
{
    if current + 1 < count {
        assert((current + 1) % count == current + 1) by (nonlinear_arith)
            requires
                0 <= current + 1 < count,
        ;
    } else {
        assert((current + 1) % count == 0) by (nonlinear_arith)
            requires
                current + 1 == count,
                count > 0,
        ;
    }
}

/// A key, as the viewer's controls tell keys apart.
#[derive(Debug, Clone, Copy, PartialEq, Eq, Structural)]
pub enum InputKey {
    Char(char),
    Escape,
    LeftShift,
    Up,
    Down,
    NumPad0,
    Other,
}

/// An axis of the world.
#[derive(Debug, Clone, Copy, PartialEq, Eq, Structural)]
pub enum Axis {
    X,
    Y,
    Z,
}

/// A camera motion.
#[derive(Debug, Clone, Copy, PartialEq, Eq, Structural)]
pub enum CameraMove {
    Forward,
    Right,
    Up,
}

/// What the viewer does in answer to a key or button.
#[derive(Debug, Clone, Copy, PartialEq, Eq, Structural)]
pub enum InputAction {
    /// Nothing.
    Idle,
    /// Leave the viewer.
    Quit,
    /// Stop handling input for this frame.
    Stop,
    /// Wireframe drawing was switched to the given value.
    WireframeToggled(bool),
    /// Moving objects (rather than the camera) was switched to the value.
    MoveObjToggled(bool),
    /// The given object is now selected.
    Selected(usize),
    /// Move an object along an axis by plus (`true`) or minus the step.
    MoveEntity { index: usize, axis: Axis, positive: bool },
    /// Move the camera by plus (`true`) or minus the step.
    MoveCamera { motion: CameraMove, positive: bool },
    /// Put the camera back where it started.
    ResetCamera,
    /// Recompute an object's normals into its vertex colours.
    BakeNormals(usize),
    /// Switch an object to its next render mode.
    CycleRenderMode(usize),
    /// Show the camera and model matrices.
    PrintMatrices,
    /// Show the camera's position and axes.
    PrintCamera,
    /// Show an object's materials.
    PrintMaterials(usize),
    /// Orbit the camera about its target.
    Orbit,
    /// Pitch the camera up (`true`) or down.
    RotateCamera(bool),
    /// Turn every object about x.
    SpinAll,
    /// Turn every object about all three axes.
    TumbleAll,
}

/// Motion of the selected object along `axis` when objects are moved,
/// otherwise the camera motion.
pub open spec fn motion(s: States, axis: Axis, camera: CameraMove, positive: bool) -> InputAction {
    if s.move_obj {
        InputAction::MoveEntity { index: s.current_obj, axis, positive }
    } else {
        InputAction::MoveCamera { motion: camera, positive }
    }
}

/// Effect of a key in the terminal viewer.
pub open spec fn terminal_key_spec(s: States, key: InputKey, count: int) -> (States, InputAction) {
    match key {
        InputKey::Char('p') => (States { draw_wireframe: !s.draw_wireframe, ..s }, InputAction::Idle),
        InputKey::Char('b') => (States { bake_normals: !s.bake_normals, ..s }, InputAction::Idle),
        InputKey::Char('j') => (
            States { move_obj: !s.move_obj, ..s },
            InputAction::MoveObjToggled(!s.move_obj),
        ),
        InputKey::Char('[') => {
            let c = previous_selection(s.current_obj as int, count) as usize;
            (States { current_obj: c, ..s }, InputAction::Selected(c))
        },
        InputKey::Char(']') => {
            let c = next_selection(s.current_obj as int, count) as usize;
            (States { current_obj: c, ..s }, InputAction::Selected(c))
        },
        InputKey::Char('w') => (s, motion(s, Axis::Z, CameraMove::Forward, true)),
        InputKey::Char('s') => (s, motion(s, Axis::Z, CameraMove::Forward, false)),
        InputKey::Char('a') => (s, motion(s, Axis::X, CameraMove::Right, false)),
        InputKey::Char('d') => (s, motion(s, Axis::X, CameraMove::Right, true)),
        InputKey::Char('u') => (
            s,
            if s.move_obj {
                InputAction::Idle
            } else {
                InputAction::ResetCamera
            },
        ),
        InputKey::Char(' ') => (s, motion(s, Axis::Y, CameraMove::Up, true)),
        InputKey::Char('q') | InputKey::Char('Q') | InputKey::Escape => (s, InputAction::Quit),
        _ => (s, InputAction::Idle),
    }
}

/// Selecting needs at least one object, and stepping forward needs room to
/// count one further.
pub open spec fn selection_allowed(s: States, key: InputKey, count: int) -> bool {
    &&& (key == InputKey::Char('[') || key == InputKey::Char(']')) ==> count >= 1
    &&& key == InputKey::Char(']') ==> s.current_obj < usize::MAX
}

/// Applies a key of the terminal viewer to the state and tells what else to
/// do; `count` is the number of objects in the scene.
pub fn terminal_key(s: States, key: InputKey, count: usize) -> (r: (States, InputAction))
    requires
        selection_allowed(s, key, count as int),
    ensures
        r == terminal_key_spec(s, key, count as int),
{
    let mut s = s;
    match key {
        InputKey::Char('p') => {
            s.draw_wireframe = !s.draw_wireframe;
            (s, InputAction::Idle)
        },
        InputKey::Char('b') => {
            s.bake_normals = !s.bake_normals;
            (s, InputAction::Idle)
        },
        InputKey::Char('j') => {
            s.move_obj = !s.move_obj;
            (s, InputAction::MoveObjToggled(s.move_obj))
        },
        InputKey::Char('[') => {
            let c = select_previous(s.current_obj, count);
            s.current_obj = c;
            (s, InputAction::Selected(c))
        },
        InputKey::Char(']') => {
            let c = select_next(s.current_obj, count);
            s.current_obj = c;
            (s, InputAction::Selected(c))
        },
        InputKey::Char('w') => (s, motion_of(s, Axis::Z, CameraMove::Forward, true)),
        InputKey::Char('s') => (s, motion_of(s, Axis::Z, CameraMove::Forward, false)),
        InputKey::Char('a') => (s, motion_of(s, Axis::X, CameraMove::Right, false)),
        InputKey::Char('d') => (s, motion_of(s, Axis::X, CameraMove::Right, true)),
        InputKey::Char('u') => {
            if s.move_obj {
                (s, InputAction::Idle)
            } else {
                (s, InputAction::ResetCamera)
            }
        },
        InputKey::Char(' ') => (s, motion_of(s, Axis::Y, CameraMove::Up, true)),
        InputKey::Char('q') | InputKey::Char('Q') | InputKey::Escape => (s, InputAction::Quit),
        _ => (s, InputAction::Idle),
    }
}

/// Motion of the selected object or of the camera.
fn motion_of(s: States, axis: Axis, camera: CameraMove, positive: bool) -> (a: InputAction)
    ensures
        a == motion(s, axis, camera, positive),
{
    if s.move_obj {
        InputAction::MoveEntity { index: s.current_obj, axis, positive }
    } else {
        InputAction::MoveCamera { motion: camera, positive }
    }
}

/// Effect of a key pressed (not held) in the window viewer.
pub open spec fn window_press_spec(s: States, key: InputKey, count: int) -> (States, InputAction) {
    match key {
        InputKey::Char('p') => (
            States { draw_wireframe: !s.draw_wireframe, ..s },
            InputAction::WireframeToggled(!s.draw_wireframe),
        ),
        InputKey::Char('j') => (
            States { move_obj: !s.move_obj, ..s },
            InputAction::MoveObjToggled(!s.move_obj),
        ),
        InputKey::Char('b') => (s, InputAction::BakeNormals(s.current_obj)),
        InputKey::Char('[') => {
            let c = previous_selection(s.current_obj as int, count) as usize;
            (States { current_obj: c, ..s }, InputAction::Selected(c))
        },
        InputKey::Char(']') => {
            let c = next_selection(s.current_obj as int, count) as usize;
            (States { current_obj: c, ..s }, InputAction::Selected(c))
        },
        InputKey::Char('u') => (
            s,
            if s.move_obj {
                InputAction::Stop
            } else {
                InputAction::ResetCamera
            },
        ),
        InputKey::Char('/') => (s, InputAction::PrintMatrices),
        InputKey::Char('e') => (s, InputAction::PrintCamera),
        InputKey::Char('r') => (s, InputAction::CycleRenderMode(s.current_obj)),
        InputKey::NumPad0 => (s, InputAction::PrintMaterials(s.current_obj)),
        _ => (s, InputAction::Idle),
    }
}

/// Applies a key pressed in the window viewer to the state and tells what
/// else to do; `count` is the number of objects in the scene.
pub fn window_key_pressed(s: States, key: InputKey, count: usize) -> (r: (States, InputAction))
    requires
        selection_allowed(s, key, count as int),
    ensures
        r == window_press_spec(s, key, count as int),
{
    let mut s = s;
    match key {
        InputKey::Char('p') => {
            s.draw_wireframe = !s.draw_wireframe;
            (s, InputAction::WireframeToggled(s.draw_wireframe))
        },
        InputKey::Char('j') => {
            s.move_obj = !s.move_obj;
            (s, InputAction::MoveObjToggled(s.move_obj))
        },
        InputKey::Char('b') => (s, InputAction::BakeNormals(s.current_obj)),
        InputKey::Char('[') => {
            let c = select_previous(s.current_obj, count);
            s.current_obj = c;
            (s, InputAction::Selected(c))
        },
        InputKey::Char(']') => {
            let c = select_next(s.current_obj, count);
            s.current_obj = c;
            (s, InputAction::Selected(c))
        },
        InputKey::Char('u') => {
            if s.move_obj {
                (s, InputAction::Stop)
            } else {
                (s, InputAction::ResetCamera)
            }
        },
        InputKey::Char('/') => (s, InputAction::PrintMatrices),
        InputKey::Char('e') => (s, InputAction::PrintCamera),
        InputKey::Char('r') => (s, InputAction::CycleRenderMode(s.current_obj)),
        InputKey::NumPad0 => (s, InputAction::PrintMaterials(s.current_obj)),
        _ => (s, InputAction::Idle),
    }
}

/// Effect of a key held down in the window viewer.
pub open spec fn window_held_spec(s: States, key: InputKey) -> InputAction {
    match key {
        InputKey::Char('w') => motion(s, Axis::Z, CameraMove::Forward, true),
        InputKey::Char('s') => motion(s, Axis::Z, CameraMove::Forward, false),
        InputKey::Char('a') => motion(s, Axis::X, CameraMove::Right, false),
        InputKey::Char('d') => motion(s, Axis::X, CameraMove::Right, true),
        InputKey::Char('o') => InputAction::Orbit,
        InputKey::Char(' ') => if s.move_obj {
            InputAction::Stop
        } else {
            InputAction::MoveCamera { motion: CameraMove::Up, positive: true }
        },
        InputKey::LeftShift => motion(s, Axis::Y, CameraMove::Up, false),
        InputKey::Up => InputAction::RotateCamera(true),
        InputKey::Down => InputAction::RotateCamera(false),
        InputKey::Char('0') => InputAction::SpinAll,
        InputKey::Char('1') => InputAction::TumbleAll,
        _ => InputAction::Idle,
    }
}

/// What a key held down in the window viewer does this frame.
pub fn window_key_held(s: States, key: InputKey) -> (a: InputAction)
    ensures
        a == window_held_spec(s, key),
{
    match key {
        InputKey::Char('w') => motion_of(s, Axis::Z, CameraMove::Forward, true),
        InputKey::Char('s') => motion_of(s, Axis::Z, CameraMove::Forward, false),
        InputKey::Char('a') => motion_of(s, Axis::X, CameraMove::Right, false),
        InputKey::Char('d') => motion_of(s, Axis::X, CameraMove::Right, true),
        InputKey::Char('o') => InputAction::Orbit,
        InputKey::Char(' ') => {
            if s.move_obj {
                InputAction::Stop
            } else {
                InputAction::MoveCamera { motion: CameraMove::Up, positive: true }
            }
        },
        InputKey::LeftShift => motion_of(s, Axis::Y, CameraMove::Up, false),
        InputKey::Up => InputAction::RotateCamera(true),
        InputKey::Down => InputAction::RotateCamera(false),
        InputKey::Char('0') => InputAction::SpinAll,
        InputKey::Char('1') => InputAction::TumbleAll,
        _ => InputAction::Idle,
    }
}

/// How a mouse drag changes.
#[derive(Debug, Clone, Copy, PartialEq, Eq, Structural)]
pub enum DragChange {
    /// The drag starts: remember the pointer position.
    Started,
    /// The drag ends: forget the pointer position.
    Ended,
    /// Nothing changes.
    Unchanged,
}

/// The left button drags the objects round: a press starts the drag, and
/// releasing it ends the drag unless the right button is down.
pub fn update_pan(s: States, left_down: bool, right_down: bool) -> (r: (States, DragChange))
    ensures
        left_down && !s.is_mouse_pan_enabled ==> r == (
        States { is_mouse_pan_enabled: true, ..s },
        DragChange::Started,
        ),
        !left_down && s.is_mouse_pan_enabled && !right_down ==> r == (
        States { is_mouse_pan_enabled: false, ..s },
        DragChange::Ended,
        ),
        !(left_down && !s.is_mouse_pan_enabled) && !(!left_down && s.is_mouse_pan_enabled
            && !right_down) ==> r == (s, DragChange::Unchanged),
{
    let mut s = s;
    if left_down {
        if !s.is_mouse_pan_enabled {
            s.is_mouse_pan_enabled = true;
            return (s, DragChange::Started);
        }
    } else if s.is_mouse_pan_enabled && !right_down {
        s.is_mouse_pan_enabled = false;
        return (s, DragChange::Ended);
    }
    (s, DragChange::Unchanged)
}

/// The right button turns the camera: a press starts mouse look and a
/// release ends it.
pub fn update_look(s: States, right_down: bool) -> (r: (States, DragChange))
    ensures
        right_down && !s.is_mouse_look_enabled ==> r == (
        States { is_mouse_look_enabled: true, ..s },
        DragChange::Started,
        ),
        !right_down && s.is_mouse_look_enabled ==> r == (
        States { is_mouse_look_enabled: false, ..s },
        DragChange::Ended,
        ),
        !(right_down && !s.is_mouse_look_enabled) && !(!right_down && s.is_mouse_look_enabled)
            ==> r == (s, DragChange::Unchanged),
{
    let mut s = s;
    if right_down {
        if !s.is_mouse_look_enabled {
            s.is_mouse_look_enabled = true;
            return (s, DragChange::Started);
        }
    } else if s.is_mouse_look_enabled {
        s.is_mouse_look_enabled = false;
        return (s, DragChange::Ended);
    }
    (s, DragChange::Unchanged)
}

/// The same motion the other way: a move of an object or of the camera
/// with its direction reversed; any other action as it is.
pub open spec fn opposite(a: InputAction) -> InputAction {
    match a {
        InputAction::MoveEntity { index, axis, positive } => InputAction::MoveEntity {
            index,
            axis,
            positive: !positive,
        },
        InputAction::MoveCamera { motion, positive } => InputAction::MoveCamera { motion, positive: !positive },
        _ => a,
    }
}

/// The movement keys come in opposite pairs, in the terminal and in the
/// window, with objects or with the camera: `s` undoes `w` and `a` undoes
/// `d` (and, moving the camera in the window, left shift undoes space).
/// `w` moves forward along z, `d` to the right along x and space up along
/// y; movement keys leave the state as it is; and a held key in the window
/// moves as the same key does in the terminal.
pub proof fn law_opposite_keys(s: States, count: int)
    ensures
        ({
            let w = terminal_key_spec(s, InputKey::Char('w'), count);
            let a = terminal_key_spec(s, InputKey::Char('a'), count);
            let d = terminal_key_spec(s, InputKey::Char('d'), count);
            let back = terminal_key_spec(s, InputKey::Char('s'), count);
            &&& back.0 == s && w.0 == s && a.0 == s && d.0 == s
            &&& back.1 == opposite(w.1) && w.1 == opposite(back.1)
            &&& a.1 == opposite(d.1) && d.1 == opposite(a.1)
            &&& w.1 == (if s.move_obj {
                InputAction::MoveEntity { index: s.current_obj, axis: Axis::Z, positive: true }
            } else {
                InputAction::MoveCamera { motion: CameraMove::Forward, positive: true }
            })
            &&& d.1 == (if s.move_obj {
                InputAction::MoveEntity { index: s.current_obj, axis: Axis::X, positive: true }
            } else {
                InputAction::MoveCamera { motion: CameraMove::Right, positive: true }
            })
            &&& terminal_key_spec(s, InputKey::Char(' '), count).1 == (if s.move_obj {
                InputAction::MoveEntity { index: s.current_obj, axis: Axis::Y, positive: true }
            } else {
                InputAction::MoveCamera { motion: CameraMove::Up, positive: true }
            })
        }),
        window_held_spec(s, InputKey::Char('s')) == opposite(window_held_spec(s, InputKey::Char('w'))),
        window_held_spec(s, InputKey::Char('a')) == opposite(window_held_spec(s, InputKey::Char('d'))),
        !s.move_obj ==> window_held_spec(s, InputKey::LeftShift) == opposite(
            window_held_spec(s, InputKey::Char(' ')),
        ),
        s.move_obj ==> window_held_spec(s, InputKey::LeftShift) == (InputAction::MoveEntity {
            index: s.current_obj,
            axis: Axis::Y,
            positive: false,
        }),
        window_held_spec(s, InputKey::Char('w')) == terminal_key_spec(s, InputKey::Char('w'), count).1,
        window_held_spec(s, InputKey::Char('s')) == terminal_key_spec(s, InputKey::Char('s'), count).1,
        window_held_spec(s, InputKey::Char('a')) == terminal_key_spec(s, InputKey::Char('a'), count).1,
        window_held_spec(s, InputKey::Char('d')) == terminal_key_spec(s, InputKey::Char('d'), count).1,
{
}

/// `]` selects the next object, wrapping round after the last, and `[`
/// the previous one, stopping at the first; each reports the object it
/// selected, `[` after `]` comes back except from the last object, and the
/// window and the terminal select alike. In the window, `p` and `j` switch
/// their flag and report its new value, and pressing either twice restores
/// the state.
pub proof fn law_selection_keys(s: States, count: int)
    requires
        0 <= s.current_obj < count <= usize::MAX,
    ensures
        ({
            let next = terminal_key_spec(s, InputKey::Char(']'), count);
            let prev = terminal_key_spec(s, InputKey::Char('['), count);
            &&& next.0.current_obj == (s.current_obj + 1) % count
            &&& next.1 == InputAction::Selected(next.0.current_obj)
            &&& next.0 == (States { current_obj: next.0.current_obj, ..s })
            &&& prev.0.current_obj == (if s.current_obj > 0 {
                s.current_obj - 1
            } else {
                0
            })
            &&& prev.1 == InputAction::Selected(prev.0.current_obj)
            &&& prev.0 == (States { current_obj: prev.0.current_obj, ..s })
            &&& s.current_obj + 1 < count ==> terminal_key_spec(next.0, InputKey::Char('['), count).0 == s
            &&& window_press_spec(s, InputKey::Char(']'), count) == next
            &&& window_press_spec(s, InputKey::Char('['), count) == prev
        }),
        ({
            let p = window_press_spec(s, InputKey::Char('p'), count);
            let j = window_press_spec(s, InputKey::Char('j'), count);
            &&& p.0.draw_wireframe == !s.draw_wireframe
            &&& p.1 == InputAction::WireframeToggled(p.0.draw_wireframe)
            &&& window_press_spec(p.0, InputKey::Char('p'), count).0 == s
            &&& j.0.move_obj == !s.move_obj
            &&& j.1 == InputAction::MoveObjToggled(j.0.move_obj)
            &&& window_press_spec(j.0, InputKey::Char('j'), count).0 == s
        }),
{
    law_selection(s.current_obj as int, count);
}

/// A key handled twice toggles a flag back: wireframe drawing, normal
/// baking and object moving return to where they were, and the selection
/// keys keep the selection within the scene.
pub proof fn law_terminal_keys(s: States, key: InputKey, count: int)
    requires
        count >= 1,
        s.current_obj < count,
    ensures
        ({
            let (t, _) = terminal_key_spec(s, key, count);
            let (u, _) = terminal_key_spec(t, key, count);
            (key == InputKey::Char('p') || key == InputKey::Char('b') || key == InputKey::Char('j'))
                ==> u == s
        }),
        ({
            let (t, _) = terminal_key_spec(s, key, count);
            t.current_obj < count
        }),
{
    law_selection(s.current_obj as int, count);
}

} // verus!
