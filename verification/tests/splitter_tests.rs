use splitter::entity::splitter_man::state::{
    IdleState, JoiningState, MovingState, SplittingState, State,
};
use splitter::entity::splitter_man::{Approach, Brood, Colour, Course, Sighting, SplitterMan};
use splitter::entity::{EHandle, Entity};
use splitter::input::{DragBox, ElementState, Event, InputHandler, MouseButton, VirtualKeyCode};
use splitter::vec::Vec2;
use std::collections::VecDeque;

/// One poll of `h` on a queue that holds `events`.
fn poll(h: &mut InputHandler, events: Vec<Event>) -> bool {
    h.check_input(&mut VecDeque::from(events))
}

const ZERO: Vec2<f32> = Vec2(0.0, 0.0);

fn calc_size(size: u32) -> f32 {
    (size as f32).sqrt() * 8.0
}

fn calc_speed(size: u32) -> f32 {
    (64.0 - size as f32).sqrt() * 0.15 + 2.0
}

fn unit(x: f32, y: f32, size: u32) -> SplitterMan<f32> {
    SplitterMan::new(x, y, size, calc_size(size), calc_speed(size), ZERO)
}

/// The collisions of a unit with nothing around it.
fn alone(pos: Vec2<f32>, vel: Vec2<f32>) -> Course<f32> {
    Course { stepped: Vec2(pos.0 + vel.0, pos.1 + vel.1), contacts: vec![] }
}

fn approach(m: &SplitterMan<f32>, t: Vec2<f32>) -> Approach<f32> {
    let (dx, dy) = (t.0 - m.body.pos.0, t.1 - m.body.pos.1);
    let len2 = dx * dx + dy * dy;
    if len2 < m.speed * m.speed {
        if dx == 0.0 && dy == 0.0 {
            Approach::Rest(alone(t, ZERO))
        } else {
            Approach::Arrive
        }
    } else {
        let len = len2.sqrt();
        let vel = Vec2(dx / len * m.speed, dy / len * m.speed);
        Approach::Head(vel, alone(m.body.pos, vel))
    }
}

/// What a host would measure for `m`, with nothing around it, with the
/// pointer at `pointer` and the selection rectangle, if any, given in world
/// coordinates.
fn sight(m: &SplitterMan<f32>, pointer: Vec2<f32>, sel: Option<(Vec2<f32>, Vec2<f32>)>) -> Sighting<f32> {
    let rad = m.get_size();
    let boxed = match sel {
        Some((a, b)) => {
            m.body.pos.0 - rad < b.0
                && m.body.pos.0 + rad > a.0
                && m.body.pos.1 - rad < b.1
                && m.body.pos.1 + rad > a.1
        }
        None => false,
    };
    let child = calc_size(m.next_size());
    Sighting {
        boxed,
        pointer,
        brood: Brood {
            rad: child,
            speed: calc_speed(m.next_size()),
            left: m.body.pos.0 - child,
            right: m.body.pos.0 + child,
        },
        zero: ZERO,
        to_target: match m.target {
            Some(t) => approach(m, t),
            None => Approach::Arrive,
        },
        to_pointer: approach(m, pointer),
        drift: alone(m.body.pos, m.body.vel),
    }
}

fn key(state: ElementState, k: VirtualKeyCode) -> Event {
    Event::KeyboardInput(state, Some(k))
}

fn input_after(batches: &[Vec<Event>]) -> InputHandler {
    let mut h = InputHandler::new();
    for b in batches {
        poll(&mut h, b.clone());
    }
    h
}

fn splitter(e: &Entity<f32>) -> SplitterMan<f32> {
    match e {
        Entity::SplitterMan(m) => *m,
    }
}

#[test]
fn states_are_built_by_new() {
    assert_eq!(IdleState::new(), IdleState);
    assert_eq!(MovingState::new(), MovingState);
    assert_eq!(SplittingState::new(), SplittingState);
    assert_eq!(JoiningState::new(), JoiningState);
    assert_ne!(State::Idle(IdleState::new()), State::Moving(MovingState::new()));
}

#[test]
fn new_unit_is_idle_unselected_and_at_rest() {
    let m = unit(100.0, 100.0, 16);
    assert_eq!(m.get_id(), None);
    assert_eq!(m.state, State::Idle(IdleState));
    assert!(m.target.is_none());
    assert!(!m.selected);
    assert_eq!(m.size, 16);
    assert_eq!((m.body.pos.0, m.body.pos.1), (100.0, 100.0));
    assert_eq!((m.body.vel.0, m.body.vel.1), (0.0, 0.0));
    assert_eq!(m.get_size(), 32.0);
    assert_eq!(m.body.rad, 32.0);
    assert!((m.speed - ((48.0f32).sqrt() * 0.15 + 2.0)).abs() < 1e-6);
    assert_eq!(m.next_size(), 8);
}

#[test]
fn getters_and_setters_touch_one_field() {
    let mut m = unit(1.0, 2.0, 4);
    m.set_id(EHandle(9));
    assert_eq!(m.get_id(), Some(EHandle(9)));
    m.set_pos(Vec2(7.0, 8.0));
    let b = m.get_body();
    assert_eq!((b.pos.0, b.pos.1, b.rad), (7.0, 8.0, 16.0));
    assert_eq!(m.size, 4);
    let mut e = Entity::SplitterMan(m);
    assert_eq!(e.get_entity_handle(), Some(EHandle(9)));
    e.set_entity_handle(EHandle(11));
    e.set_pos(Vec2(-1.0, -2.0));
    assert_eq!(e.get_entity_handle(), Some(EHandle(11)));
    assert_eq!((e.get_body().pos.0, e.get_body().pos.1), (-1.0, -2.0));
    assert_eq!(e.get_body().rad, 16.0);
}

#[test]
fn vectors_copy_and_set() {
    let a = Vec2(1.5f32, -2.5f32);
    let b = Vec2::new_from_copy(&a);
    assert_eq!((b.0, b.1), (1.5, -2.5));
    let mut c = Vec2(0.0f32, 0.0f32);
    c.set(&a);
    assert_eq!((c.0, c.1), (1.5, -2.5));
}

#[test]
fn selected_units_are_cyan_and_the_others_red() {
    let mut m = unit(0.0, 0.0, 4);
    assert_eq!(m.render(), Colour::Red);
    m.selected = true;
    assert_eq!(m.render(), Colour::Cyan);
    assert_eq!(Entity::SplitterMan(m).render(), Colour::Cyan);
}

#[test]
fn selection_box_selects_what_it_overlaps() {
    // a rectangle let go this poll
    let mut h = input_after(&[
        vec![Event::MouseMoved(50, 50), Event::MouseInput(ElementState::Pressed, MouseButton::Left)],
        vec![Event::MouseMoved(10, 10)],
        vec![Event::MouseInput(ElementState::Released, MouseButton::Left)],
    ]);
    let sel = h.selection.unwrap().normalized();
    assert_eq!(((sel.0).0, (sel.0).1, (sel.1).0, (sel.1).1), (10, 10, 50, 50));
    let world = Some((Vec2(10.0f32, 10.0f32), Vec2(50.0f32, 50.0f32)));
    let mut inside = unit(30.0, 30.0, 1);
    let mut outside = unit(200.0, 30.0, 1);
    outside.selected = true;
    // touching edges do not count: radius 8, centre 8 left of the rectangle
    let mut touching = unit(2.0, 30.0, 1);
    let s = sight(&inside, ZERO, world);
    assert!(inside.check_selection_box(&h, &s));
    assert!(inside.selected);
    let s = sight(&outside, ZERO, world);
    assert!(!outside.check_selection_box(&h, &s));
    assert!(!outside.selected);
    let s = sight(&touching, ZERO, world);
    assert!(!s.boxed);
    assert!(!touching.check_selection_box(&h, &s));
    assert!(!touching.selected);
    // one poll later there is no rectangle: the selection stays as it is
    poll(&mut h, vec![]);
    let s = sight(&inside, ZERO, None);
    assert!(!inside.check_selection_box(&h, &s));
    assert!(inside.selected);
    let s = sight(&outside, ZERO, None);
    assert!(!outside.check_selection_box(&h, &s));
    assert!(!outside.selected);
}

#[test]
fn split_of_size_16_gives_two_children_of_size_8() {
    let h = input_after(&[vec![key(ElementState::Pressed, VirtualKeyCode::Space)]]);
    let mut m = unit(100.0, 100.0, 16);
    m.selected = true;
    let s = sight(&m, ZERO, None);
    let (remove, ents, new_pos) = m.update(&h, &s);
    assert!(remove);
    assert_eq!((new_pos.0, new_pos.1), (100.0, 100.0));
    let ents = ents.unwrap();
    assert_eq!(ents.len(), 2);
    let (l, r) = (splitter(&ents[0]), splitter(&ents[1]));
    for c in [l, r] {
        assert_eq!(c.size, 8);
        assert!((c.body.rad - 22.627417).abs() < 1e-4);
        assert!(c.selected);
        assert_eq!(c.get_id(), None);
        assert_eq!(c.state, State::Idle(IdleState));
        assert!(c.target.is_none());
        assert_eq!((c.body.vel.0, c.body.vel.1), (0.0, 0.0));
        assert_eq!(c.body.pos.1, 100.0);
        assert!((c.speed - ((56.0f32).sqrt() * 0.15 + 2.0)).abs() < 1e-6);
    }
    assert!((l.body.pos.0 - (100.0 - 22.627417)).abs() < 1e-4);
    assert!((r.body.pos.0 - (100.0 + 22.627417)).abs() < 1e-4);
    // the parent itself is as it was
    assert_eq!(m.size, 16);
    assert_eq!(m.body.rad, 32.0);
}

#[test]
fn odd_sizes_lose_the_remainder() {
    let h = input_after(&[vec![key(ElementState::Pressed, VirtualKeyCode::Space)]]);
    let mut m = unit(0.0, 0.0, 5);
    m.selected = true;
    let s = sight(&m, ZERO, None);
    let (remove, ents) = m.check_for_split(&h, &s);
    assert!(remove);
    let ents = ents.unwrap();
    assert_eq!(splitter(&ents[0]).size, 2);
    assert_eq!(splitter(&ents[1]).size, 2);
}

#[test]
fn size_1_never_splits() {
    let h = input_after(&[vec![key(ElementState::Pressed, VirtualKeyCode::Space)]]);
    for size in [0u32, 1u32] {
        for st in [State::Idle(IdleState), State::Moving(MovingState)] {
            let mut m = unit(3.0, 4.0, size);
            m.selected = true;
            m.state = st;
            let s = sight(&m, ZERO, None);
            let (remove, ents, _) = m.update(&h, &s);
            assert!(!remove);
            assert!(ents.is_none());
        }
    }
}

#[test]
fn unselected_units_do_not_split() {
    let h = input_after(&[vec![key(ElementState::Pressed, VirtualKeyCode::Space)]]);
    let mut m = unit(3.0, 4.0, 16);
    let s = sight(&m, ZERO, None);
    let (remove, ents, _) = m.update(&h, &s);
    assert!(!remove);
    assert!(ents.is_none());
}

#[test]
fn holding_split_splits_once() {
    let mut h = InputHandler::new();
    let mut splits = 0;
    let mut m = unit(100.0, 100.0, 16);
    m.selected = true;
    // the key goes down on the first poll and is held for many more
    for tick in 0..50 {
        if tick == 0 {
            poll(&mut h, vec![key(ElementState::Pressed, VirtualKeyCode::Space)]);
        } else {
            poll(&mut h, vec![Event::MouseMoved(tick, tick)]);
        }
        assert!(h.inputs.split.down);
        let mut copy = m;
        let s = sight(&copy, ZERO, None);
        let (remove, ents, _) = copy.update(&h, &s);
        assert_eq!(remove, ents.is_some());
        if remove {
            splits += 1;
        }
    }
    assert_eq!(splits, 1);
}

#[test]
fn move_order_sets_the_target_and_starts_moving() {
    let h = input_after(&[vec![
        Event::MouseMoved(300, 200),
        Event::MouseInput(ElementState::Pressed, MouseButton::Right),
    ]]);
    let pointer = Vec2(300.0f32, 200.0f32);
    let mut m = unit(0.0, 0.0, 16);
    m.selected = true;
    let s = sight(&m, pointer, None);
    let (remove, ents, new_pos) = m.update(&h, &s);
    assert!(!remove && ents.is_none());
    assert_eq!((new_pos.0, new_pos.1), (0.0, 0.0));
    assert_eq!(m.state, State::Moving(MovingState));
    let t = m.target.unwrap();
    assert_eq!((t.0, t.1), (300.0, 200.0));
    // an idle unit does not steer on the tick of the order
    assert_eq!((m.body.vel.0, m.body.vel.1), (0.0, 0.0));
    // on the next tick it heads for the target at its speed
    let h = input_after(&[vec![]]);
    let s = sight(&m, pointer, None);
    m.update(&h, &s);
    let v = m.body.vel;
    assert!(((v.0 * v.0 + v.1 * v.1).sqrt() - m.speed).abs() < 1e-4);
    assert!(v.0 > 0.0 && v.1 > 0.0);
    assert_eq!((m.body.pos.0, m.body.pos.1), (0.0, 0.0));
    assert_eq!(m.state, State::Moving(MovingState));
}

#[test]
fn no_move_order_while_select_is_held() {
    let h = input_after(&[vec![
        Event::MouseInput(ElementState::Pressed, MouseButton::Left),
        Event::MouseInput(ElementState::Pressed, MouseButton::Right),
    ]]);
    let mut m = unit(0.0, 0.0, 16);
    m.selected = true;
    let s = sight(&m, Vec2(9.0, 9.0), None);
    assert!(!m.check_for_move(&h, &s));
    assert!(m.target.is_none());
    let mut unselected = unit(0.0, 0.0, 16);
    let h = input_after(&[vec![Event::MouseInput(ElementState::Pressed, MouseButton::Right)]]);
    assert!(!unselected.check_for_move(&h, &s));
    assert!(unselected.target.is_none());
    assert!(m.check_for_move(&h, &s));
    assert_eq!(m.target.unwrap().0, 9.0);
}

#[test]
fn arrival_snaps_to_the_target_and_stops() {
    let h = input_after(&[vec![]]);
    let mut m = unit(10.0, 10.0, 16);
    m.state = State::Moving(MovingState);
    m.body.vel = Vec2(1.0, 1.0);
    // nearer than one step: the speed at size 16 is a little over 3
    m.target = Some(Vec2(12.0, 11.0));
    let s = sight(&m, ZERO, None);
    assert!(matches!(s.to_target, Approach::Arrive));
    let (remove, ents, new_pos) = m.update(&h, &s);
    assert!(!remove && ents.is_none());
    assert_eq!((m.body.pos.0, m.body.pos.1), (12.0, 11.0));
    assert_eq!((m.body.vel.0, m.body.vel.1), (0.0, 0.0));
    // the resolved position is the target
    assert_eq!((new_pos.0, new_pos.1), (12.0, 11.0));
    // arrival does not end the moving state
    assert_eq!(m.state, State::Moving(MovingState));
}

#[test]
fn a_far_target_sets_the_velocity_only() {
    let mut m = unit(0.0, 0.0, 16);
    m.target = Some(Vec2(30.0, 40.0));
    let a = approach(&m, Vec2(30.0, 40.0));
    m.set_vel_to_target(&a, ZERO);
    assert_eq!((m.body.pos.0, m.body.pos.1), (0.0, 0.0));
    assert!((m.body.vel.0 - 0.6 * m.speed).abs() < 1e-5);
    assert!((m.body.vel.1 - 0.8 * m.speed).abs() < 1e-5);
}

#[test]
fn without_a_target_steering_changes_nothing() {
    let mut m = unit(1.0, 2.0, 16);
    m.body.vel = Vec2(0.5, 0.25);
    m.set_vel_to_target(&Approach::Arrive, ZERO);
    assert_eq!((m.body.pos.0, m.body.pos.1), (1.0, 2.0));
    assert_eq!((m.body.vel.0, m.body.vel.1), (0.5, 0.25));
    m.set_vel_to_target(&Approach::Head(Vec2(9.0, 9.0), alone(Vec2(1.0, 2.0), Vec2(9.0, 9.0))), ZERO);
    assert_eq!((m.body.vel.0, m.body.vel.1), (0.5, 0.25));
}

#[test]
fn a_moving_unit_can_be_sent_elsewhere_and_steers_there_at_once() {
    let h = input_after(&[vec![Event::MouseInput(ElementState::Pressed, MouseButton::Right)]]);
    let mut m = unit(0.0, 0.0, 16);
    m.selected = true;
    m.state = State::Moving(MovingState);
    m.target = Some(Vec2(100.0, 0.0));
    let s = sight(&m, Vec2(0.0, -50.0), None);
    m.update(&h, &s);
    assert_eq!((m.target.unwrap().0, m.target.unwrap().1), (0.0, -50.0));
    assert!(m.body.vel.0.abs() < 1e-6);
    assert!((m.body.vel.1 + m.speed).abs() < 1e-5);
}

#[test]
fn spare_states_leave_the_unit_alone() {
    let h = input_after(&[vec![
        Event::MouseInput(ElementState::Pressed, MouseButton::Right),
    ], vec![key(ElementState::Pressed, VirtualKeyCode::Space)]]);
    for st in [State::Splitting(SplittingState), State::Joining(JoiningState)] {
        let mut m = unit(5.0, 6.0, 16);
        m.selected = true;
        m.state = st;
        let s = sight(&m, Vec2(1.0, 1.0), None);
        let (remove, ents, new_pos) = m.update(&h, &s);
        assert!(!remove && ents.is_none());
        // nothing around it and no velocity: it is resolved to where it is
        assert_eq!((new_pos.0, new_pos.1), (5.0, 6.0));
        // the state itself hands the origin to the update
        let mut copy = st;
        let (next, (_, _, handed)) = copy.process(&mut m, &h, &s);
        assert_eq!(next, None);
        assert_eq!((handed.0, handed.1), (0.0, 0.0));
        assert_eq!(m.state, st);
        assert!(m.target.is_none());
        assert_eq!((m.body.pos.0, m.body.pos.1), (5.0, 6.0));
    }
}

#[test]
fn a_state_runs_on_any_unit_it_is_given() {
    let h = input_after(&[vec![Event::MouseInput(ElementState::Pressed, MouseButton::Right)]]);
    let mut m = unit(0.0, 0.0, 4);
    m.selected = true;
    let s = sight(&m, Vec2(50.0, 0.0), None);
    let mut st = State::Idle(IdleState);
    let (next, (remove, ents, _)) = st.process(&mut m, &h, &s);
    assert_eq!(next, Some(State::Moving(MovingState)));
    assert!(!remove && ents.is_none());
    // the state field is the caller's to change
    assert_eq!(m.state, State::Idle(IdleState));
    assert_eq!(st, State::Idle(IdleState));
    let mut mv = MovingState::new();
    let (next, _) = mv.process(&mut m, &h, &s);
    assert_eq!(next, None);
    assert!((m.body.vel.0 - m.speed).abs() < 1e-5);
}

#[test]
fn build_never_changes() {
    let mut h = InputHandler::new();
    let mut m = unit(0.0, 0.0, 9);
    m.selected = true;
    let (rad, speed) = (m.body.rad, m.speed);
    assert_eq!(rad, 24.0);
    assert!((speed - ((55.0f32).sqrt() * 0.15 + 2.0)).abs() < 1e-6);
    let batches = vec![
        vec![Event::MouseInput(ElementState::Pressed, MouseButton::Right)],
        vec![key(ElementState::Pressed, VirtualKeyCode::Space)],
        vec![Event::MouseInput(ElementState::Pressed, MouseButton::Left)],
        vec![Event::MouseInput(ElementState::Released, MouseButton::Left)],
        vec![],
    ];
    for b in batches.iter() {
        poll(&mut h, b.clone());
        let s = sight(&m, Vec2(40.0, 40.0), Some((Vec2(-5.0, -5.0), Vec2(5.0, 5.0))));
        m.update(&h, &s);
        m.set_pos(Vec2(m.body.pos.0 + 1.0, 0.0));
        assert_eq!(m.size, 9);
        assert_eq!(m.body.rad, rad);
        assert_eq!(m.speed, speed);
        assert_eq!(m.get_size(), rad);
    }
}

#[test]
fn drag_box_is_a_pair_of_corners() {
    let b = DragBox(Vec2(1, 2), Vec2(3, 4));
    assert_eq!(((b.0).0, (b.0).1, (b.1).0, (b.1).1), (1, 2, 3, 4));
}

#[test]
fn an_idle_unit_goes_where_collision_resolution_settles() {
    let h = input_after(&[vec![]]);
    // radius 16 at the origin, another body 16 to the right: the host has
    // measured that the overlap pushes the unit to (-8, 0)
    let mut m = unit(0.0, 0.0, 4);
    let mut s = sight(&m, ZERO, None);
    s.drift = Course { stepped: Vec2(0.0, 0.0), contacts: vec![Some(Vec2(-8.0, 0.0))] };
    let (remove, ents, new_pos) = m.update(&h, &s);
    assert!(!remove && ents.is_none());
    assert_eq!((new_pos.0, new_pos.1), (-8.0, 0.0));
    assert_eq!(m.state, State::Idle(IdleState));
    // the position is written back by the pass, not by the update
    assert_eq!((m.body.pos.0, m.body.pos.1), (0.0, 0.0));
}

#[test]
fn a_unit_that_drifts_steps_by_its_velocity() {
    let h = input_after(&[vec![]]);
    let mut m = unit(1.0, 1.0, 4);
    m.body.vel = Vec2(2.0, -1.0);
    let s = sight(&m, ZERO, None);
    let (_, _, new_pos) = m.update(&h, &s);
    assert_eq!((new_pos.0, new_pos.1), (3.0, 0.0));
}

#[test]
fn a_moving_unit_is_resolved_on_the_course_it_takes() {
    let h = input_after(&[vec![]]);
    let mut m = unit(0.0, 0.0, 16);
    m.state = State::Moving(MovingState);
    m.target = Some(Vec2(30.0, 40.0));
    let mut s = sight(&m, Vec2(-50.0, 0.0), None);
    // toward the target something is in the way; toward the pointer and
    // adrift nothing is
    s.to_target = match s.to_target {
        Approach::Head(v, c) => Approach::Head(
            v,
            Course { stepped: c.stepped, contacts: vec![None, Some(Vec2(7.0, 7.0))] },
        ),
        other => other,
    };
    let mut copy = m;
    let (_, _, new_pos) = copy.update(&h, &s);
    assert_eq!((new_pos.0, new_pos.1), (7.0, 7.0));
    // ordered to the pointer, it is resolved on the course to the pointer
    let ordered = input_after(&[vec![Event::MouseInput(ElementState::Pressed, MouseButton::Right)]]);
    m.selected = true;
    let (_, _, new_pos) = m.update(&ordered, &s);
    assert!((new_pos.0 + m.speed).abs() < 1e-5);
    assert_eq!(new_pos.1, 0.0);
}

#[test]
fn a_unit_that_stands_on_its_target_still_collides() {
    let h = input_after(&[vec![]]);
    let mut m = unit(3.0, 4.0, 16);
    m.state = State::Moving(MovingState);
    m.target = Some(Vec2(3.0, 4.0));
    m.body.vel = Vec2(1.0, 1.0);
    let mut s = sight(&m, ZERO, None);
    assert!(matches!(s.to_target, Approach::Rest(_)));
    s.to_target = Approach::Rest(Course { stepped: Vec2(3.0, 4.0), contacts: vec![Some(Vec2(2.0, 4.0))] });
    let (_, _, new_pos) = m.update(&h, &s);
    assert_eq!((new_pos.0, new_pos.1), (2.0, 4.0));
    assert_eq!((m.body.vel.0, m.body.vel.1), (0.0, 0.0));
}
