use terminal_renderer::edges::build_edge_map;
use terminal_renderer::input::{
    select_next, select_previous, terminal_key, update_look, update_pan, window_key_held,
    window_key_pressed, Axis, CameraMove, DragChange, InputAction, InputKey, States,
};
use terminal_renderer::mesh::{
    collect_edges, group_triangles, needs_weld, tris_from_indices, weld_plan, weld_vertices,
    PositionKey, Tri,
};
use terminal_renderer::modes::LightMode;

const A: PositionKey = PositionKey(0, 0, 0);
const B: PositionKey = PositionKey(1, 0, -1);
const C: PositionKey = PositionKey(0, 5, 0);

#[test]
fn triangles_from_index_lists() {
    let tris = tris_from_indices(&vec![0, 1, 2, 2, 3, 0], 10, Some(1));
    assert_eq!(
        tris,
        vec![
            Tri { vertices: [10, 11, 12], material: Some(1) },
            Tri { vertices: [12, 13, 10], material: Some(1) },
        ]
    );
    assert!(tris_from_indices(&vec![], 0, None).is_empty());
}

#[test]
fn grouping_drops_incomplete_triple() {
    assert_eq!(group_triangles(&vec![0, 1, 2, 3, 4, 5, 6]), vec![[0, 1, 2], [3, 4, 5]]);
    assert!(group_triangles(&vec![1, 2]).is_empty());
}

#[test]
fn weld_plan_keeps_first_of_each_key() {
    let (kept, remap) = weld_plan(&vec![A, B, A, C, B]);
    assert_eq!(kept, vec![0, 1, 3]);
    assert_eq!(remap, vec![0, 1, 0, 2, 1]);
    assert!(needs_weld(&vec![A, B, A]));
    assert!(!needs_weld(&vec![A, B, C]));
    assert!(!needs_weld(&vec![]));
}

#[test]
fn welding_merges_shared_positions() {
    let mut verts = vec!['a', 'b', 'c', 'd', 'e'];
    let keys = vec![A, B, A, C, B];
    let mut tris = vec![
        Tri { vertices: [0, 1, 2], material: None },
        Tri { vertices: [2, 3, 4], material: Some(0) },
    ];
    assert!(weld_vertices(&mut verts, &keys, &mut tris));
    assert_eq!(verts, vec!['a', 'b', 'd']);
    assert_eq!(
        tris,
        vec![
            Tri { vertices: [0, 1, 0], material: None },
            Tri { vertices: [0, 2, 1], material: Some(0) },
        ]
    );
    // a second weld finds nothing left to merge
    let keys2 = vec![A, B, C];
    let before = tris.clone();
    assert!(!weld_vertices(&mut verts, &keys2, &mut tris));
    assert_eq!(verts, vec!['a', 'b', 'd']);
    assert_eq!(tris, before);
}

#[test]
fn face_edges_once_each() {
    let edges = collect_edges(&vec![(0, 1, 2), (2, 1, 3)]);
    assert_eq!(edges, vec![(0, 1), (1, 2), (2, 0), (1, 3), (3, 2)]);
    assert!(collect_edges(&vec![]).is_empty());
    assert_eq!(collect_edges(&vec![(4, 4, 4)]), vec![(4, 4)]);
}

#[test]
fn viewer_start_state() {
    let s = States::new();
    assert!(!s.draw_wireframe && !s.bake_normals && !s.move_obj);
    assert!(s.backface_culling);
    assert_eq!(s.current_obj, 0);
    assert_eq!(s.light_mode, LightMode::BlinnPhong);
    assert!(!s.skips_lighting());
    let unlit = States { light_mode: LightMode::Unlit, ..s };
    assert!(unlit.skips_lighting());
}

#[test]
fn selection_steps() {
    assert_eq!(select_next(0, 3), 1);
    assert_eq!(select_next(2, 3), 0);
    assert_eq!(select_previous(2, 3), 1);
    assert_eq!(select_previous(0, 3), 0);
    assert_eq!(select_previous(5, 3), 2);
    assert_eq!(select_next(select_previous(2, 3), 3), 2);
}

#[test]
fn terminal_keys_toggle_and_move() {
    let s = States::new();
    let (t, a) = terminal_key(s, InputKey::Char('p'), 3);
    assert!(t.draw_wireframe);
    assert_eq!(a, InputAction::Idle);
    let (u, _) = terminal_key(t, InputKey::Char('p'), 3);
    assert_eq!(u, s);
    let (t, a) = terminal_key(s, InputKey::Char('j'), 3);
    assert_eq!(a, InputAction::MoveObjToggled(true));
    let (t, a) = terminal_key(t, InputKey::Char(']'), 3);
    assert_eq!(a, InputAction::Selected(1));
    let (_, a) = terminal_key(t, InputKey::Char('w'), 3);
    assert_eq!(a, InputAction::MoveEntity { index: 1, axis: Axis::Z, positive: true });
    let (_, a) = terminal_key(s, InputKey::Char('a'), 3);
    assert_eq!(a, InputAction::MoveCamera { motion: CameraMove::Right, positive: false });
    let (_, a) = terminal_key(s, InputKey::Char('u'), 3);
    assert_eq!(a, InputAction::ResetCamera);
    let (_, a) = terminal_key(t, InputKey::Char('u'), 3);
    assert_eq!(a, InputAction::Idle);
    assert_eq!(terminal_key(s, InputKey::Escape, 3).1, InputAction::Quit);
    assert_eq!(terminal_key(s, InputKey::Char('Q'), 3).1, InputAction::Quit);
    assert_eq!(terminal_key(s, InputKey::Char('x'), 3), (s, InputAction::Idle));
}

#[test]
fn window_keys() {
    let s = States { current_obj: 2, ..States::new() };
    assert_eq!(
        window_key_pressed(s, InputKey::Char('p'), 3).1,
        InputAction::WireframeToggled(true)
    );
    assert_eq!(window_key_pressed(s, InputKey::Char('b'), 3).1, InputAction::BakeNormals(2));
    assert_eq!(window_key_pressed(s, InputKey::Char('r'), 3).1, InputAction::CycleRenderMode(2));
    assert_eq!(window_key_pressed(s, InputKey::NumPad0, 3).1, InputAction::PrintMaterials(2));
    assert_eq!(window_key_pressed(s, InputKey::Char('/'), 3).1, InputAction::PrintMatrices);
    assert_eq!(window_key_pressed(s, InputKey::Char('e'), 3).1, InputAction::PrintCamera);
    assert_eq!(window_key_pressed(s, InputKey::Char(']'), 3).1, InputAction::Selected(0));
    let m = States { move_obj: true, ..s };
    assert_eq!(window_key_pressed(m, InputKey::Char('u'), 3).1, InputAction::Stop);
    assert_eq!(window_key_held(s, InputKey::Char('o')), InputAction::Orbit);
    assert_eq!(window_key_held(s, InputKey::Up), InputAction::RotateCamera(true));
    assert_eq!(window_key_held(s, InputKey::Down), InputAction::RotateCamera(false));
    assert_eq!(
        window_key_held(s, InputKey::LeftShift),
        InputAction::MoveCamera { motion: CameraMove::Up, positive: false }
    );
    assert_eq!(
        window_key_held(m, InputKey::Char('d')),
        InputAction::MoveEntity { index: 2, axis: Axis::X, positive: true }
    );
    assert_eq!(window_key_held(m, InputKey::Char(' ')), InputAction::Stop);
    assert_eq!(window_key_held(s, InputKey::Char('0')), InputAction::SpinAll);
    assert_eq!(window_key_held(s, InputKey::Char('1')), InputAction::TumbleAll);
    assert_eq!(window_key_held(s, InputKey::Other), InputAction::Idle);
}

#[test]
fn mouse_drags() {
    let s = States::new();
    let (t, c) = update_pan(s, true, false);
    assert!(t.is_mouse_pan_enabled);
    assert_eq!(c, DragChange::Started);
    assert_eq!(update_pan(t, true, false), (t, DragChange::Unchanged));
    assert_eq!(update_pan(t, false, true), (t, DragChange::Unchanged));
    let (u, c) = update_pan(t, false, false);
    assert_eq!(u, s);
    assert_eq!(c, DragChange::Ended);
    let (t, c) = update_look(s, true);
    assert!(t.is_mouse_look_enabled);
    assert_eq!(c, DragChange::Started);
    assert_eq!(update_look(t, false), (s, DragChange::Ended));
    assert_eq!(update_look(s, false), (s, DragChange::Unchanged));
}

#[test]
fn shared_edge_map_records_each_side() {
    let tris = vec![
        Tri { vertices: [0, 1, 2], material: None },
        Tri { vertices: [2, 1, 3], material: Some(4) },
    ];
    let (edges, ends) = build_edge_map(&tris);
    assert_eq!(edges, vec![(0, 1), (1, 2), (0, 2), (1, 3), (2, 3)]);
    assert_eq!(
        ends,
        vec![vec![0, 1], vec![1, 2, 2, 1], vec![2, 0], vec![1, 3], vec![3, 2]]
    );
    let (none, no_ends) = build_edge_map(&vec![]);
    assert!(none.is_empty() && no_ends.is_empty());
}
