//! End-to-end tests of the simulation step and its state machine, with
//! deterministic hand-placed bodies.

use std::collections::VecDeque;
use three_bodies::body::{Body, Color};
use three_bodies::collision::has_collision;
use three_bodies::sim::{apply_toggles, wants_reset, Config, FrameInput, SimState, Ui};
use three_bodies::vec2::Vec2;

fn body(id: usize, x: i64, y: i64, vx: i64, vy: i64, mass: i64) -> Body {
    Body {
        id,
        colour: Color { r: 1_000_000, g: 1_000_000, b: 1_000_000, a: 1_000_000 },
        position: Vec2 { x, y },
        velocity: Vec2 { x: vx, y: vy },
        mass,
    }
}

fn halting_config() -> Config {
    Config {
        wrap: true,
        elastic_collisions: false,
        auto_restart: false,
        trail_fade: true,
        show_ui: Ui::Full,
    }
}

fn overlapping(bodies: &[Body]) -> bool {
    for i in 0..bodies.len() {
        for j in i + 1..bodies.len() {
            let dx = (bodies[i].position.x - bodies[j].position.x) as i128;
            let dy = (bodies[i].position.y - bodies[j].position.y) as i128;
            let rs = (bodies[i].mass + bodies[j].mass) as i128;
            if dx * dx + dy * dy <= rs * rs {
                return true;
            }
        }
    }
    false
}

#[test]
fn halting_run_stops_at_first_touch_and_freezes() {
    // Two 5 px bodies 30 px apart on a head-on course, plus a distant
    // bystander: in halting mode the run stops on the step where the
    // moved bodies first come within their combined radius.
    let mut state = SimState {
        bodies: vec![
            body(0, 400_000, 400_000, 2_000, 0, 5_000),
            body(1, 430_000, 400_000, -2_000, 0, 5_000),
            body(2, 100_000, 100_000, 0, 0, 1_000),
        ],
        trails: VecDeque::new(),
        running: true,
    };
    let cfg = halting_config();
    let mut halted_at = None;
    for k in 0..100 {
        if !state.running {
            halted_at = Some(k);
            break;
        }
        let stepped = state.try_step(cfg, 800_000, 600_000);
        assert!(stepped, "a running in-envelope state must step");
        // the running flag tracks the collision test exactly
        assert_eq!(state.running, !overlapping(&state.bodies));
    }
    let halted_at = halted_at.expect("the pair must collide within 100 steps");
    assert!(halted_at > 0);
    // once stopped, nothing moves again
    let frozen: Vec<Vec2> = state.bodies.iter().map(|b| b.position).collect();
    for _ in 0..5 {
        let stepped = state.try_step(cfg, 800_000, 600_000);
        assert!(!stepped);
        for (b, p) in state.bodies.iter().zip(frozen.iter()) {
            assert_eq!(b.position, *p);
        }
    }
    assert!(!state.running);
}

#[test]
fn elastic_head_on_collision_swaps_velocities_and_keeps_running() {
    // Two equal masses on a direct collision course with zero impact
    // parameter: at the collision step the velocities are exchanged
    // exactly (integer arithmetic makes the classic identity exact),
    // and the run never stops.
    let mut state = SimState {
        bodies: vec![
            body(0, 400_000, 300_000, 3_000, 0, 5_000),
            body(1, 460_000, 300_000, -3_000, 0, 5_000),
        ],
        trails: VecDeque::new(),
        running: true,
    };
    let cfg = Config { elastic_collisions: true, ..halting_config() };
    let mut swapped = false;
    for _ in 0..100 {
        let va = state.bodies[0].velocity;
        let vb = state.bodies[1].velocity;
        let was_overlapping = overlapping(&state.bodies);
        let stepped = state.try_step(cfg, 800_000, 600_000);
        assert!(stepped);
        assert!(state.running, "elastic mode never stops the run");
        if was_overlapping {
            assert_eq!(state.bodies[0].velocity, vb);
            assert_eq!(state.bodies[1].velocity, va);
            swapped = true;
            break;
        }
    }
    assert!(swapped, "the pair must meet within 100 steps");
    for _ in 0..5 {
        state.try_step(cfg, 800_000, 600_000);
        assert!(state.running);
    }
}

#[test]
fn trail_samples_record_positions_before_the_move() {
    let mut state = SimState {
        bodies: vec![
            body(0, 400_000, 400_000, 0, 0, 10_000),
            body(1, 500_000, 400_000, 0, 0, 10_000),
        ],
        trails: VecDeque::new(),
        running: true,
    };
    let cfg = halting_config();
    let before: Vec<Vec2> = state.bodies.iter().map(|b| b.position).collect();
    assert!(state.try_step(cfg, 800_000, 600_000));
    // one sample per body, taken before integration moved anything
    assert_eq!(state.trails.len(), 2);
    assert_eq!(state.trails[0].position, before[0]);
    assert_eq!(state.trails[1].position, before[1]);
    // gravity did move the bodies afterwards
    assert!(state.bodies[0].position != before[0]);
}

#[test]
fn out_of_envelope_states_are_refused_untouched() {
    // a lone body cannot gravitate (the force pass needs another body)
    let mut lone = SimState {
        bodies: vec![body(0, 400_000, 400_000, 0, 0, 2_000)],
        trails: VecDeque::new(),
        running: true,
    };
    assert!(!lone.try_step(halting_config(), 800_000, 600_000));
    assert_eq!(lone.bodies.len(), 1);
    assert_eq!(lone.trails.len(), 0);
    // two coincident bodies sit below the separation floor
    let mut coincident = SimState {
        bodies: vec![
            body(0, 400_000, 400_000, 0, 0, 2_000),
            body(1, 400_000, 400_000, 0, 0, 2_000),
        ],
        trails: VecDeque::new(),
        running: true,
    };
    assert!(!coincident.try_step(halting_config(), 800_000, 600_000));
    // but in elastic mode they overlap, skip gravity, and step fine
    let cfg = Config { elastic_collisions: true, ..halting_config() };
    assert!(coincident.try_step(cfg, 800_000, 600_000));
}

#[test]
fn random_bodies_land_in_the_documented_ranges() {
    quad_rand::srand(42);
    let state = SimState::new_run(800_000, 600_000);
    assert_eq!(state.bodies.len(), 3);
    assert!(state.running);
    assert_eq!(state.trails.len(), 0);
    for (i, b) in state.bodies.iter().enumerate() {
        assert_eq!(b.id, i);
        assert!(200_000 <= b.position.x && b.position.x <= 600_000);
        assert!(150_000 <= b.position.y && b.position.y <= 450_000);
        assert!(-1_000 <= b.velocity.x && b.velocity.x <= 1_000);
        assert!(-1_000 <= b.velocity.y && b.velocity.y <= 1_000);
        assert!(1_000 <= b.mass && b.mass <= 10_000);
        assert!(200_000 <= b.colour.r && b.colour.r <= 1_000_000);
        assert!(200_000 <= b.colour.g && b.colour.g <= 1_000_000);
        assert!(200_000 <= b.colour.b && b.colour.b <= 1_000_000);
        assert_eq!(b.colour.a, 1_000_000);
    }
    // the generator actually varies: three identical bodies would mean
    // the draws were ignored
    assert!(
        state.bodies[0].position != state.bodies[1].position
            || state.bodies[1].position != state.bodies[2].position
    );
}

#[test]
fn reset_discards_bodies_and_trails() {
    quad_rand::srand(7);
    let mut state = SimState {
        bodies: vec![
            body(0, 400_000, 400_000, 0, 0, 2_000),
            body(1, 500_000, 400_000, 0, 0, 2_000),
        ],
        trails: VecDeque::new(),
        running: true,
    };
    let cfg = halting_config();
    assert!(state.try_step(cfg, 800_000, 600_000));
    assert!(state.trails.len() > 0);
    state.running = false;
    state.reset(800_000, 600_000);
    assert_eq!(state.bodies.len(), 3);
    assert_eq!(state.trails.len(), 0);
    assert!(state.running);
}

#[test]
fn ui_toggle_cycles_off_minimal_full() {
    let mut u = Ui::Off;
    u.toggle();
    assert_eq!(u, Ui::Minimal);
    u.toggle();
    assert_eq!(u, Ui::Full);
    u.toggle();
    assert_eq!(u, Ui::Off);
    assert!(!Ui::Off.shows_body_info());
    assert!(Ui::Minimal.shows_body_info());
    assert!(Ui::Full.shows_body_info());
    assert!(!Ui::Off.shows_instructions());
    assert!(!Ui::Minimal.shows_instructions());
    assert!(Ui::Full.shows_instructions());
}

#[test]
fn reset_is_wanted_on_request_or_auto_restart_after_stop() {
    let running = SimState { bodies: vec![], trails: VecDeque::new(), running: true };
    let stopped = SimState { bodies: vec![], trails: VecDeque::new(), running: false };
    let auto = Config { auto_restart: true, ..halting_config() };
    let manual = halting_config();
    let none = FrameInput {
        reset: false,
        toggle_ui: false,
        toggle_auto_restart: false,
        toggle_elastic: false,
    };
    let press = FrameInput { reset: true, ..none };
    assert!(wants_reset(&running, &manual, &press));
    assert!(!wants_reset(&running, &manual, &none));
    assert!(!wants_reset(&running, &auto, &none));
    assert!(wants_reset(&stopped, &auto, &none));
    assert!(!wants_reset(&stopped, &manual, &none));
}

#[test]
fn toggles_flip_exactly_the_requested_flags() {
    let mut cfg = halting_config();
    let input = FrameInput {
        reset: false,
        toggle_ui: true,
        toggle_auto_restart: true,
        toggle_elastic: false,
    };
    apply_toggles(&mut cfg, &input);
    assert_eq!(cfg.show_ui, Ui::Off);
    assert!(cfg.auto_restart);
    assert!(!cfg.elastic_collisions);
    assert!(cfg.wrap);
    apply_toggles(&mut cfg, &input);
    assert_eq!(cfg.show_ui, Ui::Minimal);
    assert!(!cfg.auto_restart);
}

#[test]
fn collision_scan_finds_exactly_the_touching_pairs() {
    let spread = [
        body(0, 100_000, 100_000, 0, 0, 2_000),
        body(1, 200_000, 100_000, 0, 0, 2_000),
        body(2, 300_000, 100_000, 0, 0, 2_000),
    ];
    assert!(!has_collision(&spread));
    let touching = [
        body(0, 100_000, 100_000, 0, 0, 2_000),
        body(1, 200_000, 100_000, 0, 0, 2_000),
        body(2, 203_000, 100_000, 0, 0, 2_000),
    ];
    assert!(has_collision(&touching));
}
