use std::collections::HashSet;

use falling_everything_core::game::{
    brush_cap_for_mode, camera_center, clamp_brush_to_mode, collect_brush_disk, collect_line_brush,
    is_rigid_body_eligible, upscale_blit, viewport_rect, InteractionMode, DISP_H, DISP_W,
};
use falling_everything_core::material_blurbs::material_description;
use falling_everything_core::materials::builtin_defs;
use falling_everything_core::world::material;
use falling_everything_core::world::{RectI, Vec2i, WorldEvent};
use falling_everything_core::{SimulationConfig, SimulationEvent};

#[test]
fn brush_caps_per_mode() {
    assert_eq!(brush_cap_for_mode(InteractionMode::RigidBody), 6);
    assert_eq!(brush_cap_for_mode(InteractionMode::Draw), 32);
    assert_eq!(clamp_brush_to_mode(0, InteractionMode::Draw), 1);
    assert_eq!(clamp_brush_to_mode(10, InteractionMode::RigidBody), 6);
    assert_eq!(clamp_brush_to_mode(10, InteractionMode::Heat), 10);
    assert_eq!(clamp_brush_to_mode(99, InteractionMode::Cool), 32);
    assert_eq!(InteractionMode::all().len(), 5);
}

#[test]
fn rigid_eligibility_follows_phase_and_exclusions() {
    let defs = builtin_defs();
    let find = |id: u16| defs.iter().find(|d| d.id == id).unwrap();
    assert!(is_rigid_body_eligible(find(material::SAND)));
    assert!(is_rigid_body_eligible(find(material::WOOD)));
    assert!(!is_rigid_body_eligible(find(material::STONE)));
    assert!(!is_rigid_body_eligible(find(material::EMPTY)));
    assert!(!is_rigid_body_eligible(find(material::RIGID)));
    assert!(!is_rigid_body_eligible(find(material::LIQUID)));
    assert!(!is_rigid_body_eligible(find(material::SMOKE)));
}

#[test]
fn viewport_geometry() {
    let cam = Vec2i::new(-320, 36);
    assert_eq!(viewport_rect(cam), RectI::new(cam, Vec2i::new(319, 395)));
    assert_eq!(camera_center(cam), Vec2i::new(0, 216));
}

#[test]
fn blit_copies_and_clips() {
    let mut frame = vec![0u32; DISP_W * DISP_H];
    let pixels = vec![1u32, 2, 3, 4, 5, 6];
    upscale_blit(&mut frame, &pixels, DISP_W - 2, DISP_H - 1, 3, 2);
    assert_eq!(frame[(DISP_H - 1) * DISP_W + DISP_W - 2], 1);
    assert_eq!(frame[(DISP_H - 1) * DISP_W + DISP_W - 1], 2);
    assert_eq!(frame.iter().filter(|&&v| v != 0).count(), 2);
}

fn key(x: i32, y: i32) -> u64 {
    ((x as u32 as u64) << 32) | (y as u32 as u64)
}

#[test]
fn brush_disk_and_line_strokes() {
    let mut set = HashSet::new();
    collect_brush_disk(&mut set, Vec2i::new(0, 0), 1);
    assert_eq!(set.len(), 5);
    assert!(set.contains(&key(0, 0)) && set.contains(&key(-1, 0)) && set.contains(&key(0, 1)));
    let mut line = HashSet::new();
    collect_line_brush(&mut line, Vec2i::new(0, 0), Vec2i::new(3, 0), 0);
    assert_eq!(line.len(), 4);
    assert!(line.contains(&key(3, 0)));
}

#[test]
fn material_blurbs() {
    assert_eq!(material_description(material::SAND), "Granular solid: falls, piles, and spreads. Good default terrain.");
    assert_eq!(material_description(material::ICE), "Cold solid: melts to water when warmed.");
    assert_eq!(material_description(600), "No description for this id.");
}

#[test]
fn simulation_config_and_events() {
    let c = SimulationConfig::default();
    assert_eq!((c.chunk_size, c.region_size, c.seed, c.deterministic, c.ambient_temperature_k), (32, 512, 1, true, 293));
    assert!(!c.debug_full_world_single_pass);
    match SimulationEvent::from_world_event(WorldEvent::RegionSaved(Vec2i::new(1, 2))) {
        SimulationEvent::RegionSaved { region } => assert_eq!(region, Vec2i::new(1, 2)),
        _ => panic!("wrong event"),
    }
}
