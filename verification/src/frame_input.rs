//! Per-frame input decisions of the sandbox front end: brush size, clearing, rigid-body spawns,
//! shift-drag rectangles and the strokes of each interaction mode. The host turns mouse
//! coordinates into a world cell, hands the frame's input in as a [`FrameEvent`], and carries out
//! the returned [`FrameAction`]s in order.
use vstd::prelude::*;

use crate::explosion::{base_strength_for_radius, spec_base_strength, ExplosionParams, ExplosionSpawn};
use crate::game::{brush_cap_for_mode, spec_brush_cap, InteractionMode, BRUSH_MAX_RIGID_PHYSICS, TEMP_BRUSH_DELTA};
use crate::world::geom::Vec2i;
use crate::world::material;
use crate::world::props::Phase;
use crate::materials::{builtin_def_props, builtin_defs, builtin_ids, builtin_material_props, def_matches_table};
use crate::game::is_rigid_body_eligible;

verus! {

/// Temperature of a spawned obsidian body, in kelvin.
pub const OBSIDIAN_SPAWN_TEMPERATURE: u16 = 1373;

/// Input state carried from one frame to the next.
#[derive(Clone, Copy, Debug, PartialEq, Eq, Structural)]
pub struct InputState {
    /// Material painted by the brush.
    pub selected: u16,
    pub brush_radius: i32,
    pub mode: InteractionMode,
    /// Last cell of the left and right strokes under way.
    pub last_left: Option<Vec2i>,
    pub last_right: Option<Vec2i>,
    /// First corner and latest cell of the shift-drag rectangles under way.
    pub shift_left_anchor: Option<Vec2i>,
    pub shift_left_last: Vec2i,
    pub shift_right_anchor: Option<Vec2i>,
    pub shift_right_last: Vec2i,
    /// First corner of a rigid rectangle placed with shift+R.
    pub rigid_rect_corner: Option<Vec2i>,
    /// Last cell of the rigid-body stroke under way.
    pub rigid_stroke_last: Option<Vec2i>,
    /// Whether the rigid-body stroke has collected any cells.
    pub stroke_started: bool,
    pub explosion_obliterate: bool,
    pub explosion_spawn_interior: bool,
    pub explosion_edge_enabled: bool,
    pub explosion_edge_spawn: ExplosionSpawn,
}

/// One frame's input: the world cell under the mouse (when the mouse is over the view), the
/// buttons now and in the previous frame, and the keys pressed.
#[derive(Clone, Copy, Debug, PartialEq, Eq, Structural)]
pub struct FrameEvent {
    pub has_mouse: bool,
    pub world_p: Vec2i,
    pub left_down: bool,
    pub right_down: bool,
    pub prev_left_down: bool,
    pub prev_right_down: bool,
    pub shift: bool,
    /// Bracket key presses this frame (negative: smaller brush).
    pub brush_steps: i32,
    pub clear_pressed: bool,
    pub toggle_parallel_pressed: bool,
    pub spawn_rigid_circle_pressed: bool,
    pub spawn_obsidian_pressed: bool,
    pub rigid_rect_r_pressed: bool,
}

/// What the host does for a frame, in order.
#[derive(Clone, Copy, Debug, PartialEq, Eq, Structural)]
pub enum FrameAction {
    /// Erase the visible world.
    ClearWorld,
    ToggleParallel,
    SpawnRigidCircle { center: Vec2i, radius: i32, material: u16, temperature: Option<u16> },
    SpawnRigidRect { a: Vec2i, b: Vec2i, material: u16 },
    PaintRect { a: Vec2i, b: Vec2i, material: u16 },
    AdjustTemperatureRect { a: Vec2i, b: Vec2i, delta: i32 },
    PaintLine { from: Vec2i, to: Vec2i, radius: i32, material: u16 },
    PaintCircle { center: Vec2i, radius: i32, material: u16 },
    /// Start a new rigid-body stroke with the brush disk at `center`.
    StrokeStart { center: Vec2i, radius: i32 },
    /// Add the brush disks along a line to the rigid-body stroke.
    StrokeLine { from: Vec2i, to: Vec2i, radius: i32 },
    /// Turn the collected stroke into a rigid body of `material`.
    SpawnRigidFromStroke { material: u16 },
    /// Drop the collected stroke.
    ClearStroke,
    Explode { params: ExplosionParams },
    AdjustTemperatureLine { from: Vec2i, to: Vec2i, radius: i32, delta: i32 },
    AdjustTemperatureDisk { center: Vec2i, radius: i32, delta: i32 },
}

impl InputState {
    /// The state a session starts in: sand selected, a brush of radius 4 in draw mode, nothing
    /// under way, explosions leaving a fiery edge (fire with lifetime 40 at 1200 K).
    pub fn initial() -> (s: InputState)
        ensures
            s.selected == material::SAND,
            s.brush_radius == 4,
            s.mode == InteractionMode::Draw,
            s.last_left is None, s.last_right is None,
            s.shift_left_anchor is None, s.shift_right_anchor is None,
            s.shift_left_last == (Vec2i { x: 0, y: 0 }), s.shift_right_last == (Vec2i { x: 0, y: 0 }),
            s.rigid_rect_corner is None, s.rigid_stroke_last is None, !s.stroke_started,
            !s.explosion_obliterate, !s.explosion_spawn_interior, s.explosion_edge_enabled,
            s.explosion_edge_spawn == (ExplosionSpawn { material: material::FIRE, lifetime: Some(40), temperature: Some(1200) }),
    {
        InputState {
            selected: material::SAND,
            brush_radius: 4,
            mode: InteractionMode::Draw,
            last_left: None,
            last_right: None,
            shift_left_anchor: None,
            shift_left_last: Vec2i::new(0, 0),
            shift_right_anchor: None,
            shift_right_last: Vec2i::new(0, 0),
            rigid_rect_corner: None,
            rigid_stroke_last: None,
            stroke_started: false,
            explosion_obliterate: false,
            explosion_spawn_interior: false,
            explosion_edge_enabled: true,
            explosion_edge_spawn: ExplosionSpawn { material: material::FIRE, lifetime: Some(40), temperature: Some(1200) },
        }
    }
}

/// Built-in material `id` can become a rigid body: solid, and not empty, stone or the rigid
/// placeholder.
pub open spec fn rigid_eligible_id(id: u16) -> bool {
    &&& builtin_material_props(id) is Some
    &&& builtin_material_props(id)->0.motion.spec_phase() == Phase::Solid
    &&& id != material::EMPTY && id != material::STONE && id != material::RIGID
}

impl InputState {
    /// Switches to `mode`: the rigid-body stroke is dropped; entering rigid-body mode with a
    /// material that cannot become a rigid body selects the first built-in one that can; the
    /// brush is clamped to the new mode's cap.
    pub fn set_mode(&mut self, mode: InteractionMode)
        requires 1 <= old(self).brush_radius,
        ensures
            final(self).mode == mode,
            final(self).rigid_stroke_last is None,
            !final(self).stroke_started,
            final(self).brush_radius == clamp_int(old(self).brush_radius as int, 1, spec_brush_cap(mode) as int),
            mode == InteractionMode::RigidBody && !rigid_eligible_id(old(self).selected) ==>
                exists|j: int| 0 <= j < 24 && rigid_eligible_id(#[trigger] builtin_ids()[j])
                    && final(self).selected == builtin_ids()[j]
                    && forall|k: int| 0 <= k < j ==> !rigid_eligible_id(#[trigger] builtin_ids()[k]),
            !(mode == InteractionMode::RigidBody && !rigid_eligible_id(old(self).selected)) ==>
                final(self).selected == old(self).selected,
            final(self).last_left == old(self).last_left,
            final(self).last_right == old(self).last_right,
            final(self).shift_left_anchor == old(self).shift_left_anchor,
            final(self).shift_right_anchor == old(self).shift_right_anchor,
            final(self).rigid_rect_corner == old(self).rigid_rect_corner,
    {
        self.mode = mode;
        self.rigid_stroke_last = None;
        self.stroke_started = false;
        if mode == InteractionMode::RigidBody {
            let ok = match builtin_def_props(self.selected) {
                Some(p) => match p.phase() {
                    Phase::Solid => self.selected != material::EMPTY && self.selected != material::STONE
                        && self.selected != material::RIGID,
                    _ => false,
                },
                None => false,
            };
            if !ok {
                let defs = builtin_defs();
                let mut i: usize = 0;
                while i < defs.len()
                    invariant_except_break
                        self.selected == old(self).selected,
                    invariant
                        defs@.len() == 24,
                        forall|k: int| 0 <= k < 24 ==> #[trigger] def_matches_table(defs@[k], k),
                        i <= 24,
                        forall|k: int| 0 <= k < i ==> !rigid_eligible_id(#[trigger] builtin_ids()[k]),
                        self.mode == mode, self.rigid_stroke_last is None, !self.stroke_started,
                        self.brush_radius == old(self).brush_radius,
                        self.last_left == old(self).last_left,
                        self.last_right == old(self).last_right,
                        self.shift_left_anchor == old(self).shift_left_anchor,
                        self.shift_right_anchor == old(self).shift_right_anchor,
                        self.rigid_rect_corner == old(self).rigid_rect_corner,
                    ensures
                        (i == 24 && self.selected == old(self).selected)
                            || (i < 24 && rigid_eligible_id(builtin_ids()[i as int]) && self.selected == builtin_ids()[i as int]),
                        forall|k: int| 0 <= k < i ==> !rigid_eligible_id(#[trigger] builtin_ids()[k]),
                    decreases defs.len() - i,
                {
                    proof { assert(def_matches_table(defs@[i as int], i as int)); }
                    if is_rigid_body_eligible(&defs[i]) {
                        self.selected = defs[i].id;
                        break;
                    }
                    i = i + 1;
                }
                proof {
                    if i == 24 {
                        assert(builtin_ids()[1] == material::SAND);
                        assert(rigid_eligible_id(builtin_ids()[1]));
                    }
                }
            }
        }
        let cap = brush_cap_for_mode(mode);
        if self.brush_radius > cap {
            self.brush_radius = cap;
        }
    }
}

/// `v` clamped to `lo..=hi`.
pub open spec fn clamp_int(v: int, lo: int, hi: int) -> int {
    if v < lo { lo } else if v > hi { hi } else { v }
}

/// The state after the bracket keys: the brush grows or shrinks by the steps, within
/// `1..=` the mode's cap.
pub open spec fn brushed(s: InputState, ev: FrameEvent) -> InputState {
    if ev.brush_steps != 0 {
        InputState { brush_radius: clamp_int(s.brush_radius + ev.brush_steps, 1, spec_brush_cap(s.mode) as int) as i32, ..s }
    } else {
        s
    }
}

/// The state after clearing the world: every stroke, rectangle and corner under way is dropped.
pub open spec fn cleared(s: InputState) -> InputState {
    InputState {
        last_left: None,
        last_right: None,
        shift_left_anchor: None,
        shift_right_anchor: None,
        rigid_rect_corner: None,
        rigid_stroke_last: None,
        stroke_started: false,
        ..s
    }
}

/// The state after the keys that need no mouse position.
pub open spec fn prepared(s: InputState, ev: FrameEvent) -> InputState {
    if ev.clear_pressed { cleared(brushed(s, ev)) } else { brushed(s, ev) }
}

/// `a` when `b` holds, else nothing.
pub open spec fn when(b: bool, a: FrameAction) -> Seq<FrameAction> {
    if b { seq![a] } else { Seq::empty() }
}

/// Radius of a spawned rigid circle: the brush, at most the rigid-body cap.
pub open spec fn rigid_radius(brush: i32) -> i32 {
    if brush <= BRUSH_MAX_RIGID_PHYSICS { brush } else { BRUSH_MAX_RIGID_PHYSICS }
}

/// Actions of the keys that need no mouse position, for the state `s1` they leave.
pub open spec fn key_actions(s1: InputState, ev: FrameEvent) -> Seq<FrameAction> {
    when(ev.clear_pressed, FrameAction::ClearWorld)
        + when(ev.toggle_parallel_pressed, FrameAction::ToggleParallel)
        + when(ev.spawn_rigid_circle_pressed, FrameAction::SpawnRigidCircle {
            center: ev.world_p, radius: rigid_radius(s1.brush_radius), material: material::RIGID, temperature: None })
        + when(ev.spawn_obsidian_pressed, FrameAction::SpawnRigidCircle {
            center: ev.world_p, radius: rigid_radius(s1.brush_radius), material: material::OBSIDIAN,
            temperature: Some(OBSIDIAN_SPAWN_TEMPERATURE) })
}

/// Shift+R: the first press marks a corner; the second spawns a rigid rectangle from it to the
/// mouse cell (of the selected material in rigid-body mode, else of rigid material).
pub open spec fn corner_outcome(s: InputState, ev: FrameEvent) -> (InputState, Seq<FrameAction>) {
    if ev.shift && ev.rigid_rect_r_pressed {
        match s.rigid_rect_corner {
            Some(a) => (InputState { rigid_rect_corner: None, ..s }, seq![FrameAction::SpawnRigidRect {
                a, b: ev.world_p, material: if s.mode == InteractionMode::RigidBody { s.selected } else { material::RIGID } }]),
            None => (InputState { rigid_rect_corner: Some(ev.world_p), ..s }, Seq::empty()),
        }
    } else {
        (s, Seq::empty())
    }
}

/// Action of a left shift-drag rectangle from `a` to `b` released in `mode`.
pub open spec fn left_rect_action(mode: InteractionMode, selected: u16, a: Vec2i, b: Vec2i) -> Seq<FrameAction> {
    match mode {
        InteractionMode::Draw => seq![FrameAction::PaintRect { a, b, material: selected }],
        InteractionMode::RigidBody => seq![FrameAction::SpawnRigidRect { a, b, material: selected }],
        InteractionMode::Explosion => Seq::empty(),
        InteractionMode::Heat => seq![FrameAction::AdjustTemperatureRect { a, b, delta: TEMP_BRUSH_DELTA }],
        InteractionMode::Cool => seq![FrameAction::AdjustTemperatureRect { a, b, delta: (-TEMP_BRUSH_DELTA) as i32 }],
    }
}

/// With shift held: a held button grows its rectangle (its first cell is the anchor, the latest
/// the mouse cell); a button released this frame applies its rectangle: the left one by mode,
/// the right one erases.
pub open spec fn shift_outcome(s: InputState, ev: FrameEvent) -> (InputState, Seq<FrameAction>) {
    let (s1, left) = if ev.left_down {
        (InputState {
            shift_left_anchor: if s.shift_left_anchor is None { Some(ev.world_p) } else { s.shift_left_anchor },
            shift_left_last: ev.world_p,
            ..s
        }, Seq::<FrameAction>::empty())
    } else if ev.prev_left_down && s.shift_left_anchor is Some {
        (InputState { shift_left_anchor: None, ..s },
            left_rect_action(s.mode, s.selected, s.shift_left_anchor->0, s.shift_left_last))
    } else {
        (s, Seq::<FrameAction>::empty())
    };
    let (s2, right) = if ev.right_down {
        (InputState {
            shift_right_anchor: if s1.shift_right_anchor is None { Some(ev.world_p) } else { s1.shift_right_anchor },
            shift_right_last: ev.world_p,
            ..s1
        }, Seq::<FrameAction>::empty())
    } else if ev.prev_right_down && s1.shift_right_anchor is Some {
        (InputState { shift_right_anchor: None, ..s1 },
            seq![FrameAction::PaintRect { a: s1.shift_right_anchor->0, b: s1.shift_right_last, material: material::EMPTY }])
    } else {
        (s1, Seq::<FrameAction>::empty())
    };
    (s2, left + right)
}

/// A brush stroke while the button is held: a line from the last stroke cell to the mouse cell,
/// or a disk at the mouse cell when the stroke starts; the mouse cell becomes the last cell.
/// Released, the stroke ends.
pub open spec fn stroke(last: Option<Vec2i>, down: bool, p: Vec2i, radius: i32, material: u16) -> (Option<Vec2i>, Seq<FrameAction>) {
    if down {
        (Some(p), match last {
            Some(q) => seq![FrameAction::PaintLine { from: q, to: p, radius, material }],
            None => seq![FrameAction::PaintCircle { center: p, radius, material }],
        })
    } else {
        (None, Seq::empty())
    }
}

/// Like [`stroke`], heating (`delta > 0`) or cooling the cells under the brush.
pub open spec fn temperature_stroke(last: Option<Vec2i>, down: bool, p: Vec2i, radius: i32, delta: i32) -> (Option<Vec2i>, Seq<FrameAction>) {
    if down {
        (Some(p), match last {
            Some(q) => seq![FrameAction::AdjustTemperatureLine { from: q, to: p, radius, delta }],
            None => seq![FrameAction::AdjustTemperatureDisk { center: p, radius, delta }],
        })
    } else {
        (None, Seq::empty())
    }
}

/// The explosion a left click sets off in explosion mode.
pub open spec fn click_explosion(s: InputState, p: Vec2i) -> ExplosionParams {
    let r = if s.brush_radius >= 1 { s.brush_radius } else { 1 };
    ExplosionParams {
        center: p,
        radius: r,
        base_strength: spec_base_strength(r),
        obliterate_disk: s.explosion_obliterate,
        fill_on_destroy: if s.explosion_spawn_interior && s.selected != material::EMPTY {
            Some(ExplosionSpawn { material: s.selected, lifetime: None, temperature: None })
        } else {
            None
        },
        edge_on_destroy: if s.explosion_edge_enabled { Some(s.explosion_edge_spawn) } else { None },
        edge_band_inward: 2,
    }
}

/// Draw mode: the left button paints the selected material, the right one erases.
pub open spec fn draw_outcome(s: InputState, ev: FrameEvent) -> (InputState, Seq<FrameAction>) {
    let (ll, la) = stroke(s.last_left, ev.left_down, ev.world_p, s.brush_radius, s.selected);
    let (lr, ra) = stroke(s.last_right, ev.right_down, ev.world_p, s.brush_radius, material::EMPTY);
    (InputState { last_left: ll, last_right: lr, ..s }, la + ra)
}

/// Rigid-body mode: the left button collects a stroke, turned into a rigid body of the selected
/// material on release; the right one erases.
pub open spec fn rigid_outcome(s: InputState, ev: FrameEvent) -> (InputState, Seq<FrameAction>) {
    let p = ev.world_p;
    let r = s.brush_radius;
    let (s1, ca) = if ev.left_down {
        (InputState { rigid_stroke_last: Some(p), stroke_started: true, ..s }, match s.rigid_stroke_last {
            None => seq![FrameAction::StrokeStart { center: p, radius: r }],
            Some(q) => seq![FrameAction::StrokeLine { from: q, to: p, radius: r }],
        })
    } else if ev.prev_left_down {
        (InputState { rigid_stroke_last: None, stroke_started: false, ..s },
            when(s.stroke_started, FrameAction::SpawnRigidFromStroke { material: s.selected })
                + seq![FrameAction::ClearStroke])
    } else {
        (s, Seq::empty())
    };
    let (lr, ra) = stroke(s1.last_right, ev.right_down, p, r, material::EMPTY);
    (InputState { last_left: None, last_right: lr, ..s1 }, ca + ra)
}

/// Explosion mode: strokes are dropped, and a left click sets off [`click_explosion`].
pub open spec fn explosion_outcome(s: InputState, ev: FrameEvent) -> (InputState, Seq<FrameAction>) {
    (InputState { last_left: None, last_right: None, rigid_stroke_last: None, stroke_started: false, ..s },
        seq![FrameAction::ClearStroke]
            + when(ev.left_down && !ev.prev_left_down, FrameAction::Explode { params: click_explosion(s, ev.world_p) }))
}

/// Heat or cool mode: the left button changes the temperature under the brush by `delta`.
pub open spec fn temperature_outcome(s: InputState, ev: FrameEvent, delta: i32) -> (InputState, Seq<FrameAction>) {
    let (ll, la) = temperature_stroke(s.last_left, ev.left_down, ev.world_p, s.brush_radius, delta);
    (InputState { last_left: ll, last_right: None, rigid_stroke_last: None, stroke_started: false, ..s },
        seq![FrameAction::ClearStroke] + la)
}

/// Without shift: the rectangles under way are dropped and the mode's strokes run.
pub open spec fn mode_outcome(s0: InputState, ev: FrameEvent) -> (InputState, Seq<FrameAction>) {
    let s = InputState { shift_left_anchor: None, shift_right_anchor: None, ..s0 };
    match s.mode {
        InteractionMode::Draw => draw_outcome(s, ev),
        InteractionMode::RigidBody => rigid_outcome(s, ev),
        InteractionMode::Explosion => explosion_outcome(s, ev),
        InteractionMode::Heat => temperature_outcome(s, ev, TEMP_BRUSH_DELTA),
        InteractionMode::Cool => temperature_outcome(s, ev, (-TEMP_BRUSH_DELTA) as i32),
    }
}

/// The part of a frame that needs the mouse over the view: the shift+R corner, then the
/// shift-drag rectangles or (without shift) the mode's strokes.
pub open spec fn mouse_outcome(s: InputState, ev: FrameEvent) -> (InputState, Seq<FrameAction>) {
    if ev.has_mouse {
        let (s1, ca) = corner_outcome(s, ev);
        let (s2, ma) = if ev.shift { shift_outcome(s1, ev) } else { mode_outcome(s1, ev) };
        (s2, ca + ma)
    } else {
        (s, Seq::empty())
    }
}

/// The whole frame: the keys, then the mouse.
pub open spec fn frame_outcome(s: InputState, ev: FrameEvent) -> (InputState, Seq<FrameAction>) {
    let s1 = prepared(s, ev);
    let (s2, ma) = mouse_outcome(s1, ev);
    (s2, key_actions(s1, ev) + ma)
}

fn push_when(actions: &mut Vec<FrameAction>, b: bool, a: FrameAction)
    ensures final(actions)@ == old(actions)@ + when(b, a),
{
    if b {
        actions.push(a);
    }
    proof { assert(final(actions)@ =~= old(actions)@ + when(b, a)); }
}

fn do_stroke(last: &mut Option<Vec2i>, down: bool, p: Vec2i, radius: i32, mat: u16, actions: &mut Vec<FrameAction>)
    ensures
        *final(last) == stroke(*old(last), down, p, radius, mat).0,
        final(actions)@ == old(actions)@ + stroke(*old(last), down, p, radius, mat).1,
{
    if down {
        match *last {
            Some(q) => actions.push(FrameAction::PaintLine { from: q, to: p, radius, material: mat }),
            None => actions.push(FrameAction::PaintCircle { center: p, radius, material: mat }),
        }
        *last = Some(p);
    } else {
        *last = None;
    }
    proof { assert(final(actions)@ =~= old(actions)@ + stroke(*old(last), down, p, radius, mat).1); }
}

fn do_temperature_stroke(last: &mut Option<Vec2i>, down: bool, p: Vec2i, radius: i32, delta: i32, actions: &mut Vec<FrameAction>)
    ensures
        *final(last) == temperature_stroke(*old(last), down, p, radius, delta).0,
        final(actions)@ == old(actions)@ + temperature_stroke(*old(last), down, p, radius, delta).1,
{
    if down {
        match *last {
            Some(q) => actions.push(FrameAction::AdjustTemperatureLine { from: q, to: p, radius, delta }),
            None => actions.push(FrameAction::AdjustTemperatureDisk { center: p, radius, delta }),
        }
        *last = Some(p);
    } else {
        *last = None;
    }
    proof { assert(final(actions)@ =~= old(actions)@ + temperature_stroke(*old(last), down, p, radius, delta).1); }
}

fn do_shift(state: &mut InputState, ev: &FrameEvent, actions: &mut Vec<FrameAction>)
    ensures
        *final(state) == shift_outcome(*old(state), *ev).0,
        final(actions)@ == old(actions)@ + shift_outcome(*old(state), *ev).1,
{
    let ghost a0 = actions@;
    let p = ev.world_p;
    if ev.left_down {
        if state.shift_left_anchor.is_none() {
            state.shift_left_anchor = Some(p);
        }
        state.shift_left_last = p;
    } else if ev.prev_left_down {
        if let Some(a) = state.shift_left_anchor {
            state.shift_left_anchor = None;
            let b = state.shift_left_last;
            match state.mode {
                InteractionMode::Draw => actions.push(FrameAction::PaintRect { a, b, material: state.selected }),
                InteractionMode::RigidBody => actions.push(FrameAction::SpawnRigidRect { a, b, material: state.selected }),
                InteractionMode::Explosion => {},
                InteractionMode::Heat => actions.push(FrameAction::AdjustTemperatureRect { a, b, delta: TEMP_BRUSH_DELTA }),
                InteractionMode::Cool => actions.push(FrameAction::AdjustTemperatureRect { a, b, delta: -TEMP_BRUSH_DELTA }),
            }
        }
    }
    let ghost a1 = actions@;
    if ev.right_down {
        if state.shift_right_anchor.is_none() {
            state.shift_right_anchor = Some(p);
        }
        state.shift_right_last = p;
    } else if ev.prev_right_down {
        if let Some(a) = state.shift_right_anchor {
            state.shift_right_anchor = None;
            actions.push(FrameAction::PaintRect { a, b: state.shift_right_last, material: material::EMPTY });
        }
    }
    proof {
        let o = shift_outcome(*old(state), *ev);
        assert(a1 =~= a0 + (if ev.left_down { Seq::<FrameAction>::empty() } else if ev.prev_left_down && old(state).shift_left_anchor is Some {
            left_rect_action(old(state).mode, old(state).selected, old(state).shift_left_anchor->0, old(state).shift_left_last) }
            else { Seq::<FrameAction>::empty() }));
        assert(actions@ =~= old(actions)@ + o.1);
    }
}

fn do_draw(state: &mut InputState, ev: &FrameEvent, actions: &mut Vec<FrameAction>)
    ensures
        *final(state) == draw_outcome(*old(state), *ev).0,
        final(actions)@ == old(actions)@ + draw_outcome(*old(state), *ev).1,
{
    let sel = state.selected;
    let r = state.brush_radius;
    do_stroke(&mut state.last_left, ev.left_down, ev.world_p, r, sel, actions);
    do_stroke(&mut state.last_right, ev.right_down, ev.world_p, r, material::EMPTY, actions);
    proof { assert(actions@ =~= old(actions)@ + draw_outcome(*old(state), *ev).1); }
}

fn do_rigid(state: &mut InputState, ev: &FrameEvent, actions: &mut Vec<FrameAction>)
    ensures
        *final(state) == rigid_outcome(*old(state), *ev).0,
        final(actions)@ == old(actions)@ + rigid_outcome(*old(state), *ev).1,
{
    let p = ev.world_p;
    let r = state.brush_radius;
    if ev.left_down {
        match state.rigid_stroke_last {
            None => actions.push(FrameAction::StrokeStart { center: p, radius: r }),
            Some(q) => actions.push(FrameAction::StrokeLine { from: q, to: p, radius: r }),
        }
        state.rigid_stroke_last = Some(p);
        state.stroke_started = true;
    } else if ev.prev_left_down {
        push_when(actions, state.stroke_started, FrameAction::SpawnRigidFromStroke { material: state.selected });
        actions.push(FrameAction::ClearStroke);
        state.rigid_stroke_last = None;
        state.stroke_started = false;
    }
    let ghost a1 = actions@;
    proof {
        let s = *old(state);
        let ca = if ev.left_down {
            match s.rigid_stroke_last {
                None => seq![FrameAction::StrokeStart { center: p, radius: r }],
                Some(q) => seq![FrameAction::StrokeLine { from: q, to: p, radius: r }],
            }
        } else if ev.prev_left_down {
            when(s.stroke_started, FrameAction::SpawnRigidFromStroke { material: s.selected }) + seq![FrameAction::ClearStroke]
        } else {
            Seq::<FrameAction>::empty()
        };
        assert(a1 =~= old(actions)@ + ca);
    }
    state.last_left = None;
    do_stroke(&mut state.last_right, ev.right_down, p, r, material::EMPTY, actions);
    proof { assert(actions@ =~= old(actions)@ + rigid_outcome(*old(state), *ev).1); }
}

fn do_explosion(state: &mut InputState, ev: &FrameEvent, actions: &mut Vec<FrameAction>)
    ensures
        *final(state) == explosion_outcome(*old(state), *ev).0,
        final(actions)@ == old(actions)@ + explosion_outcome(*old(state), *ev).1,
{
    let params = explosion_for_click(state, ev.world_p);
    state.last_left = None;
    state.last_right = None;
    actions.push(FrameAction::ClearStroke);
    state.rigid_stroke_last = None;
    state.stroke_started = false;
    push_when(actions, ev.left_down && !ev.prev_left_down, FrameAction::Explode { params });
    proof { assert(actions@ =~= old(actions)@ + explosion_outcome(*old(state), *ev).1); }
}

fn do_temperature(state: &mut InputState, ev: &FrameEvent, delta: i32, actions: &mut Vec<FrameAction>)
    ensures
        *final(state) == temperature_outcome(*old(state), *ev, delta).0,
        final(actions)@ == old(actions)@ + temperature_outcome(*old(state), *ev, delta).1,
{
    state.last_right = None;
    actions.push(FrameAction::ClearStroke);
    state.rigid_stroke_last = None;
    state.stroke_started = false;
    let r = state.brush_radius;
    do_temperature_stroke(&mut state.last_left, ev.left_down, ev.world_p, r, delta, actions);
    proof { assert(actions@ =~= old(actions)@ + temperature_outcome(*old(state), *ev, delta).1); }
}

fn do_mode(state: &mut InputState, ev: &FrameEvent, actions: &mut Vec<FrameAction>)
    ensures
        *final(state) == mode_outcome(*old(state), *ev).0,
        final(actions)@ == old(actions)@ + mode_outcome(*old(state), *ev).1,
{
    state.shift_left_anchor = None;
    state.shift_right_anchor = None;
    match state.mode {
        InteractionMode::Draw => do_draw(state, ev, actions),
        InteractionMode::RigidBody => do_rigid(state, ev, actions),
        InteractionMode::Explosion => do_explosion(state, ev, actions),
        InteractionMode::Heat => do_temperature(state, ev, TEMP_BRUSH_DELTA, actions),
        InteractionMode::Cool => do_temperature(state, ev, -TEMP_BRUSH_DELTA, actions),
    }
}

/// The explosion a left click at `p` sets off (see [`click_explosion`]).
pub fn explosion_for_click(state: &InputState, p: Vec2i) -> (e: ExplosionParams)
    ensures e == click_explosion(*state, p),
{
    let r = if state.brush_radius >= 1 { state.brush_radius } else { 1 };
    let fill_on_destroy = if state.explosion_spawn_interior && state.selected != material::EMPTY {
        Some(ExplosionSpawn { material: state.selected, lifetime: None, temperature: None })
    } else {
        None
    };
    let edge_on_destroy = if state.explosion_edge_enabled { Some(state.explosion_edge_spawn) } else { None };
    ExplosionParams {
        center: p,
        radius: r,
        base_strength: base_strength_for_radius(r),
        obliterate_disk: state.explosion_obliterate,
        fill_on_destroy,
        edge_on_destroy,
        edge_band_inward: 2,
    }
}

/// The temperature change an action applies, if it is a heat or cool action.
pub open spec fn temperature_delta(a: FrameAction) -> Option<i32> {
    match a {
        FrameAction::AdjustTemperatureRect { delta, .. } => Some(delta),
        FrameAction::AdjustTemperatureLine { delta, .. } => Some(delta),
        FrameAction::AdjustTemperatureDisk { delta, .. } => Some(delta),
        _ => None,
    }
}

/// Every temperature action of `a` warms by [`TEMP_BRUSH_DELTA`] in heat mode and cools by it in
/// cool mode; in other modes there is none.
pub open spec fn deltas_fit(mode: InteractionMode, a: Seq<FrameAction>) -> bool {
    forall|i: int| 0 <= i < a.len() && (#[trigger] temperature_delta(a[i])) is Some ==> {
        &&& mode == InteractionMode::Heat ==> temperature_delta(a[i]) == Some(TEMP_BRUSH_DELTA)
        &&& mode == InteractionMode::Cool ==> temperature_delta(a[i]) == Some((-TEMP_BRUSH_DELTA) as i32)
        &&& (mode == InteractionMode::Heat || mode == InteractionMode::Cool)
    }
}

proof fn lemma_fit_concat(mode: InteractionMode, a: Seq<FrameAction>, b: Seq<FrameAction>)
    requires deltas_fit(mode, a), deltas_fit(mode, b),
    ensures deltas_fit(mode, a + b),
{
    assert forall|i: int| 0 <= i < (a + b).len() && (#[trigger] temperature_delta((a + b)[i])) is Some implies {
        &&& mode == InteractionMode::Heat ==> temperature_delta((a + b)[i]) == Some(TEMP_BRUSH_DELTA)
        &&& mode == InteractionMode::Cool ==> temperature_delta((a + b)[i]) == Some((-TEMP_BRUSH_DELTA) as i32)
        &&& (mode == InteractionMode::Heat || mode == InteractionMode::Cool)
    } by {
        if i < a.len() { assert((a + b)[i] == a[i]); } else { assert((a + b)[i] == b[i - a.len()]); }
    }
}

proof fn lemma_shift_fit(s: InputState, ev: FrameEvent)
    ensures deltas_fit(s.mode, shift_outcome(s, ev).1), shift_outcome(s, ev).0.mode == s.mode,
{
    let la = if ev.left_down {
        Seq::<FrameAction>::empty()
    } else if ev.prev_left_down && s.shift_left_anchor is Some {
        left_rect_action(s.mode, s.selected, s.shift_left_anchor->0, s.shift_left_last)
    } else {
        Seq::<FrameAction>::empty()
    };
    let sa = shift_outcome(s, ev).1;
    let rest = sa.subrange(la.len() as int, sa.len() as int);
    assert(sa =~= la + rest);
    assert(deltas_fit(s.mode, la));
    assert(deltas_fit(s.mode, rest));
    lemma_fit_concat(s.mode, la, rest);
}

proof fn lemma_mode_fit(s: InputState, ev: FrameEvent)
    ensures deltas_fit(s.mode, mode_outcome(s, ev).1),
{
    let m = InputState { shift_left_anchor: None, shift_right_anchor: None, ..s };
    match m.mode {
        InteractionMode::Draw => {
            let (ll, la) = stroke(m.last_left, ev.left_down, ev.world_p, m.brush_radius, m.selected);
            let (lr, ra) = stroke(m.last_right, ev.right_down, ev.world_p, m.brush_radius, material::EMPTY);
            assert(deltas_fit(s.mode, la) && deltas_fit(s.mode, ra));
            lemma_fit_concat(s.mode, la, ra);
        },
        InteractionMode::RigidBody => {
            let o = rigid_outcome(m, ev);
            assert(deltas_fit(s.mode, o.1));
        },
        InteractionMode::Explosion => {
            assert(deltas_fit(s.mode, mode_outcome(s, ev).1));
        },
        InteractionMode::Heat => {
            let (ll, la) = temperature_stroke(m.last_left, ev.left_down, ev.world_p, m.brush_radius, TEMP_BRUSH_DELTA);
            assert(deltas_fit(s.mode, la));
            lemma_fit_concat(s.mode, seq![FrameAction::ClearStroke], la);
        },
        InteractionMode::Cool => {
            let (ll, la) = temperature_stroke(m.last_left, ev.left_down, ev.world_p, m.brush_radius, (-TEMP_BRUSH_DELTA) as i32);
            assert(deltas_fit(s.mode, la));
            lemma_fit_concat(s.mode, seq![FrameAction::ClearStroke], la);
        },
    }
}

/// Only heat and cool modes change temperatures: every temperature action of a frame in heat mode
/// warms by [`TEMP_BRUSH_DELTA`], in cool mode cools by it, and no other mode emits any.
pub proof fn lemma_brush_temperature_sign(s: InputState, ev: FrameEvent)
    ensures deltas_fit(s.mode, frame_outcome(s, ev).1),
{
    let s1 = prepared(s, ev);
    assert(s1.mode == s.mode);
    let ka = key_actions(s1, ev);
    assert(deltas_fit(s.mode, ka));
    let ma = mouse_outcome(s1, ev).1;
    if ev.has_mouse {
        let (c1, ca) = corner_outcome(s1, ev);
        assert(c1.mode == s.mode);
        assert(deltas_fit(s.mode, ca));
        if ev.shift {
            lemma_shift_fit(c1, ev);
            lemma_fit_concat(s.mode, ca, shift_outcome(c1, ev).1);
        } else {
            lemma_mode_fit(c1, ev);
            lemma_fit_concat(s.mode, ca, mode_outcome(c1, ev).1);
        }
    }
    assert(deltas_fit(s.mode, ma));
    lemma_fit_concat(s.mode, ka, ma);
}

/// No action of `a` clears the world.
pub open spec fn no_clear(a: Seq<FrameAction>) -> bool {
    forall|i: int| 0 <= i < a.len() ==> a[i] != FrameAction::ClearWorld
}

proof fn lemma_no_clear_concat(a: Seq<FrameAction>, b: Seq<FrameAction>)
    requires no_clear(a), no_clear(b),
    ensures no_clear(a + b),
{
    assert forall|i: int| 0 <= i < (a + b).len() implies (a + b)[i] != FrameAction::ClearWorld by {
        if i < a.len() { assert((a + b)[i] == a[i]); } else { assert((a + b)[i] == b[i - a.len()]); }
    }
}

/// The mouse part of a frame never clears the world, and keeps the brush, mode and material.
proof fn lemma_mouse_outcome(s: InputState, ev: FrameEvent)
    ensures
        no_clear(mouse_outcome(s, ev).1),
        mouse_outcome(s, ev).0.brush_radius == s.brush_radius,
        mouse_outcome(s, ev).0.mode == s.mode,
        mouse_outcome(s, ev).0.selected == s.selected,
{
    if ev.has_mouse {
        let (s1, ca) = corner_outcome(s, ev);
        assert(no_clear(ca));
        if ev.shift {
            let (sl, la) = if ev.left_down {
                (s, Seq::<FrameAction>::empty())
            } else if ev.prev_left_down && s1.shift_left_anchor is Some {
                (s, left_rect_action(s1.mode, s1.selected, s1.shift_left_anchor->0, s1.shift_left_last))
            } else {
                (s, Seq::<FrameAction>::empty())
            };
            assert(no_clear(la));
            let o = shift_outcome(s1, ev);
            assert(o.1 =~= la + (o.1.subrange(la.len() as int, o.1.len() as int)));
            assert(no_clear(o.1.subrange(la.len() as int, o.1.len() as int)));
            lemma_no_clear_concat(la, o.1.subrange(la.len() as int, o.1.len() as int));
            lemma_no_clear_concat(ca, o.1);
        } else {
            let s2 = InputState { shift_left_anchor: None, shift_right_anchor: None, ..s1 };
            let o = mode_outcome(s1, ev);
            match s2.mode {
                InteractionMode::Draw => {
                    let (ll, la) = stroke(s2.last_left, ev.left_down, ev.world_p, s2.brush_radius, s2.selected);
                    let (lr, ra) = stroke(s2.last_right, ev.right_down, ev.world_p, s2.brush_radius, material::EMPTY);
                    assert(no_clear(la) && no_clear(ra));
                    lemma_no_clear_concat(la, ra);
                },
                InteractionMode::RigidBody => {
                    assert(no_clear(o.1));
                },
                InteractionMode::Explosion => {
                    assert(no_clear(o.1));
                },
                InteractionMode::Heat => {
                    assert(no_clear(o.1));
                },
                InteractionMode::Cool => {
                    assert(no_clear(o.1));
                },
            }
            lemma_no_clear_concat(ca, o.1);
        }
    }
}

/// In draw mode without shift, a held left button paints a line from the last stroke cell to the
/// mouse cell (a disk when the stroke starts) as the first mouse action, and the mouse cell
/// becomes the last stroke cell.
proof fn lemma_draw_stroke(s: InputState, ev: FrameEvent)
    requires ev.has_mouse, !ev.shift, s.mode == InteractionMode::Draw, ev.left_down,
    ensures
        mouse_outcome(s, ev).1.len() > 0,
        mouse_outcome(s, ev).1[0] == match s.last_left {
            Some(q) => FrameAction::PaintLine { from: q, to: ev.world_p, radius: s.brush_radius, material: s.selected },
            None => FrameAction::PaintCircle { center: ev.world_p, radius: s.brush_radius, material: s.selected },
        },
        mouse_outcome(s, ev).0.last_left == Some(ev.world_p),
{
    let (s1, ca) = corner_outcome(s, ev);
    assert(ca.len() == 0);
    let o = mode_outcome(s1, ev);
    let s2 = InputState { shift_left_anchor: None, shift_right_anchor: None, ..s1 };
    let (ll, la) = stroke(s2.last_left, ev.left_down, ev.world_p, s2.brush_radius, s2.selected);
    let (lr, ra) = stroke(s2.last_right, ev.right_down, ev.world_p, s2.brush_radius, material::EMPTY);
    assert(o.1 == la + ra);
    assert(o.1[0] == la[0]);
    assert((ca + o.1)[0] == o.1[0]);
}

fn do_keys(state: &mut InputState, ev: &FrameEvent) -> (actions: Vec<FrameAction>)
    ensures
        *final(state) == prepared(*old(state), *ev),
        actions@ == key_actions(prepared(*old(state), *ev), *ev),
{
    let mut actions: Vec<FrameAction> = Vec::new();
    if ev.brush_steps != 0 {
        let cap = brush_cap_for_mode(state.mode);
        let v = state.brush_radius as i64 + ev.brush_steps as i64;
        state.brush_radius = if v < 1 { 1 } else if v > cap as i64 { cap } else { v as i32 };
    }
    if ev.clear_pressed {
        state.last_left = None;
        state.last_right = None;
        state.shift_left_anchor = None;
        state.shift_right_anchor = None;
        state.rigid_rect_corner = None;
        state.rigid_stroke_last = None;
        state.stroke_started = false;
    }
    let rr = if state.brush_radius <= BRUSH_MAX_RIGID_PHYSICS { state.brush_radius } else { BRUSH_MAX_RIGID_PHYSICS };
    push_when(&mut actions, ev.clear_pressed, FrameAction::ClearWorld);
    push_when(&mut actions, ev.toggle_parallel_pressed, FrameAction::ToggleParallel);
    push_when(&mut actions, ev.spawn_rigid_circle_pressed,
        FrameAction::SpawnRigidCircle { center: ev.world_p, radius: rr, material: material::RIGID, temperature: None });
    push_when(&mut actions, ev.spawn_obsidian_pressed,
        FrameAction::SpawnRigidCircle { center: ev.world_p, radius: rr, material: material::OBSIDIAN,
            temperature: Some(OBSIDIAN_SPAWN_TEMPERATURE) });
    proof { assert(actions@ =~= key_actions(prepared(*old(state), *ev), *ev)); }
    actions
}

fn do_corner(state: &mut InputState, ev: &FrameEvent, actions: &mut Vec<FrameAction>)
    ensures
        *final(state) == corner_outcome(*old(state), *ev).0,
        final(actions)@ == old(actions)@ + corner_outcome(*old(state), *ev).1,
{
    if ev.shift && ev.rigid_rect_r_pressed {
        match state.rigid_rect_corner {
            Some(a) => {
                let mat = if state.mode == InteractionMode::RigidBody { state.selected } else { material::RIGID };
                actions.push(FrameAction::SpawnRigidRect { a, b: ev.world_p, material: mat });
                state.rigid_rect_corner = None;
            },
            None => {
                state.rigid_rect_corner = Some(ev.world_p);
            },
        }
    }
    proof { assert(actions@ =~= old(actions)@ + corner_outcome(*old(state), *ev).1); }
}

fn do_mouse(state: &mut InputState, ev: &FrameEvent, actions: &mut Vec<FrameAction>)
    ensures
        *final(state) == mouse_outcome(*old(state), *ev).0,
        final(actions)@ == old(actions)@ + mouse_outcome(*old(state), *ev).1,
{
    if ev.has_mouse {
        do_corner(state, ev, actions);
        if ev.shift {
            do_shift(state, ev, actions);
        } else {
            do_mode(state, ev, actions);
        }
    }
    proof { assert(actions@ =~= old(actions)@ + mouse_outcome(*old(state), *ev).1); }
}

/// Decides one frame of input: updates the carried state and returns the actions for the host
/// to carry out, in order ([`frame_outcome`]).
pub fn decide_frame(state: &mut InputState, ev: &FrameEvent) -> (actions: Vec<FrameAction>)
    ensures
        (*final(state), actions@) == frame_outcome(*old(state), *ev),
        ev.brush_steps != 0 ==> final(state).brush_radius
            == clamp_int(old(state).brush_radius + ev.brush_steps, 1, spec_brush_cap(old(state).mode) as int),
        ev.clear_pressed <==> actions@.contains(FrameAction::ClearWorld),
        deltas_fit(old(state).mode, actions@),
        ev.has_mouse && !ev.shift && old(state).mode == InteractionMode::Draw && ev.left_down && !ev.clear_pressed ==> {
            &&& actions@.contains(match old(state).last_left {
                    Some(q) => FrameAction::PaintLine { from: q, to: ev.world_p, radius: final(state).brush_radius, material: old(state).selected },
                    None => FrameAction::PaintCircle { center: ev.world_p, radius: final(state).brush_radius, material: old(state).selected },
                })
            &&& final(state).last_left == Some(ev.world_p)
        },
{
    let mut actions = do_keys(state, ev);
    let ghost s1 = *state;
    let ghost ka = actions@;
    do_mouse(state, ev, &mut actions);
    proof {
        lemma_brush_temperature_sign(*old(state), *ev);
        lemma_mouse_outcome(s1, *ev);
        let ma = mouse_outcome(s1, *ev).1;
        assert(actions@ == ka + ma);
        if ev.clear_pressed {
            assert(actions@[0] == FrameAction::ClearWorld);
        } else {
            assert(no_clear(ka));
            lemma_no_clear_concat(ka, ma);
        }
        if ev.has_mouse && !ev.shift && old(state).mode == InteractionMode::Draw && ev.left_down && !ev.clear_pressed {
            lemma_draw_stroke(s1, *ev);
            assert(actions@[ka.len() as int] == ma[0]);
        }
    }
    actions
}

} // verus!
