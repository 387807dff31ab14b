use falling_everything_core::frame_input::{decide_frame, FrameAction, FrameEvent, InputState};
use falling_everything_core::game::InteractionMode;
use falling_everything_core::world::{material, Vec2i};

fn ev(p: Vec2i) -> FrameEvent {
    FrameEvent {
        has_mouse: true,
        world_p: p,
        left_down: false,
        right_down: false,
        prev_left_down: false,
        prev_right_down: false,
        shift: false,
        brush_steps: 0,
        clear_pressed: false,
        toggle_parallel_pressed: false,
        spawn_rigid_circle_pressed: false,
        spawn_obsidian_pressed: false,
        rigid_rect_r_pressed: false,
    }
}

#[test]
fn brush_steps_clamp_to_mode_cap() {
    let mut s = InputState::initial();
    let mut e = ev(Vec2i::new(0, 0));
    e.has_mouse = false;
    e.brush_steps = 100;
    assert!(decide_frame(&mut s, &e).is_empty());
    assert_eq!(s.brush_radius, 32);
    e.brush_steps = -100;
    decide_frame(&mut s, &e);
    assert_eq!(s.brush_radius, 1);
    s.mode = InteractionMode::RigidBody;
    e.brush_steps = 9;
    decide_frame(&mut s, &e);
    assert_eq!(s.brush_radius, 6);
}

#[test]
fn draw_strokes_interpolate_and_end_on_release() {
    let mut s = InputState::initial();
    let a = Vec2i::new(10, 10);
    let b = Vec2i::new(20, 15);
    let mut e = ev(a);
    e.left_down = true;
    assert_eq!(decide_frame(&mut s, &e), vec![FrameAction::PaintCircle { center: a, radius: 4, material: material::SAND }]);
    e.world_p = b;
    e.prev_left_down = true;
    assert_eq!(decide_frame(&mut s, &e), vec![FrameAction::PaintLine { from: a, to: b, radius: 4, material: material::SAND }]);
    assert_eq!(s.last_left, Some(b));
    e.left_down = false;
    e.right_down = true;
    assert_eq!(decide_frame(&mut s, &e), vec![FrameAction::PaintCircle { center: b, radius: 4, material: material::EMPTY }]);
    assert_eq!(s.last_left, None);
}

#[test]
fn clear_key_clears_world_and_strokes() {
    let mut s = InputState::initial();
    s.last_left = Some(Vec2i::new(1, 1));
    s.rigid_rect_corner = Some(Vec2i::new(2, 2));
    let mut e = ev(Vec2i::new(3, 3));
    e.has_mouse = false;
    e.clear_pressed = true;
    e.toggle_parallel_pressed = true;
    assert_eq!(decide_frame(&mut s, &e), vec![FrameAction::ClearWorld, FrameAction::ToggleParallel]);
    assert_eq!(s.last_left, None);
    assert_eq!(s.rigid_rect_corner, None);
}

#[test]
fn shift_drag_paints_a_rectangle_on_release() {
    let mut s = InputState::initial();
    let a = Vec2i::new(5, 6);
    let b = Vec2i::new(9, 12);
    let mut e = ev(a);
    e.shift = true;
    e.left_down = true;
    assert!(decide_frame(&mut s, &e).is_empty());
    e.world_p = b;
    e.prev_left_down = true;
    assert!(decide_frame(&mut s, &e).is_empty());
    e.left_down = false;
    e.world_p = Vec2i::new(50, 50);
    assert_eq!(decide_frame(&mut s, &e), vec![FrameAction::PaintRect { a, b, material: material::SAND }]);
    s.mode = InteractionMode::Cool;
    e.left_down = true;
    e.prev_left_down = false;
    e.world_p = a;
    decide_frame(&mut s, &e);
    e.left_down = false;
    e.prev_left_down = true;
    assert_eq!(decide_frame(&mut s, &e), vec![FrameAction::AdjustTemperatureRect { a, b: a, delta: -40 }]);
}

#[test]
fn shift_r_places_a_rigid_rectangle_in_two_presses() {
    let mut s = InputState::initial();
    let a = Vec2i::new(1, 2);
    let b = Vec2i::new(7, 8);
    let mut e = ev(a);
    e.shift = true;
    e.rigid_rect_r_pressed = true;
    assert!(decide_frame(&mut s, &e).is_empty());
    assert_eq!(s.rigid_rect_corner, Some(a));
    e.world_p = b;
    assert_eq!(decide_frame(&mut s, &e), vec![FrameAction::SpawnRigidRect { a, b, material: material::RIGID }]);
    assert_eq!(s.rigid_rect_corner, None);
}

#[test]
fn explosion_mode_fires_on_click_only() {
    let mut s = InputState::initial();
    s.mode = InteractionMode::Explosion;
    let p = Vec2i::new(40, 40);
    let mut e = ev(p);
    e.left_down = true;
    let actions = decide_frame(&mut s, &e);
    assert_eq!(actions.len(), 2);
    assert_eq!(actions[0], FrameAction::ClearStroke);
    match actions[1] {
        FrameAction::Explode { params } => {
            assert_eq!(params.center, p);
            assert_eq!(params.radius, 4);
            assert_eq!(params.base_strength, 144);
            assert!(params.fill_on_destroy.is_none());
            assert_eq!(params.edge_on_destroy.unwrap().material, material::FIRE);
            assert_eq!(params.edge_band_inward, 2);
        }
        other => panic!("unexpected action {other:?}"),
    }
    e.prev_left_down = true;
    assert_eq!(decide_frame(&mut s, &e), vec![FrameAction::ClearStroke]);
}

#[test]
fn heat_mode_warms_along_the_stroke() {
    let mut s = InputState::initial();
    s.mode = InteractionMode::Heat;
    let a = Vec2i::new(0, 0);
    let b = Vec2i::new(3, 0);
    let mut e = ev(a);
    e.left_down = true;
    assert_eq!(
        decide_frame(&mut s, &e),
        vec![FrameAction::ClearStroke, FrameAction::AdjustTemperatureDisk { center: a, radius: 4, delta: 40 }]
    );
    e.world_p = b;
    assert_eq!(
        decide_frame(&mut s, &e),
        vec![FrameAction::ClearStroke, FrameAction::AdjustTemperatureLine { from: a, to: b, radius: 4, delta: 40 }]
    );
}

#[test]
fn rigid_stroke_spawns_on_release() {
    let mut s = InputState::initial();
    s.mode = InteractionMode::RigidBody;
    s.selected = material::STONE;
    let a = Vec2i::new(4, 4);
    let mut e = ev(a);
    e.left_down = true;
    assert_eq!(decide_frame(&mut s, &e), vec![FrameAction::StrokeStart { center: a, radius: 4 }]);
    e.left_down = false;
    e.prev_left_down = true;
    assert_eq!(
        decide_frame(&mut s, &e),
        vec![FrameAction::SpawnRigidFromStroke { material: material::STONE }, FrameAction::ClearStroke]
    );
    assert!(!s.stroke_started);
}

#[test]
fn entering_rigid_mode_picks_an_eligible_material_and_caps_the_brush() {
    let mut s = InputState::initial();
    s.selected = material::LIQUID;
    s.brush_radius = 20;
    s.stroke_started = true;
    s.set_mode(InteractionMode::RigidBody);
    assert_eq!(s.mode, InteractionMode::RigidBody);
    assert_eq!(s.selected, material::SAND);
    assert_eq!(s.brush_radius, 6);
    assert!(!s.stroke_started);
    s.selected = material::STONE;
    s.set_mode(InteractionMode::Draw);
    assert_eq!(s.selected, material::STONE);
    s.set_mode(InteractionMode::RigidBody);
    assert_eq!(s.selected, material::SAND);
}
