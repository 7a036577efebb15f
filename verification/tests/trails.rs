//! Unit tests for the trail buffer: exponential fade, front-eviction and
//! the no-fade variant.

use std::collections::VecDeque;
use three_bodies::body::{Body, Color};
use three_bodies::trail::{update_trails, Trail};
use three_bodies::vec2::Vec2;

fn sample(a: i64) -> Trail {
    Trail {
        position: Vec2 { x: 100, y: 200 },
        colour: Color { r: 1_000_000, g: 500_000, b: 250_000, a },
    }
}

#[test]
fn alpha_fades_by_199_over_200_each_frame() {
    let mut trails: VecDeque<Trail> = VecDeque::new();
    trails.push_back(sample(1_000_000));
    // three frames of fade with no new samples:
    // 1_000_000 -> 995_000 -> 990_025 -> 985_074 (floor of 985_074.875)
    update_trails(&mut trails, &[], true);
    assert_eq!(trails.len(), 1);
    assert_eq!(trails[0].colour.a, 995_000);
    update_trails(&mut trails, &[], true);
    assert_eq!(trails[0].colour.a, 990_025);
    update_trails(&mut trails, &[], true);
    assert_eq!(trails[0].colour.a, 985_074);
    // fading touches nothing but the alpha
    assert_eq!(trails[0].position, Vec2 { x: 100, y: 200 });
    assert_eq!(trails[0].colour.r, 1_000_000);
    assert_eq!(trails[0].colour.g, 500_000);
    assert_eq!(trails[0].colour.b, 250_000);
}

#[test]
fn samples_below_the_cutoff_are_evicted() {
    // 10_050 fades to 9_999, below the 10_000 cutoff: gone on this read.
    let mut trails: VecDeque<Trail> = VecDeque::new();
    trails.push_back(sample(10_050));
    update_trails(&mut trails, &[], true);
    assert_eq!(trails.len(), 0);
    // 20_000 fades to 19_900 and stays.
    trails.push_back(sample(20_000));
    update_trails(&mut trails, &[], true);
    assert_eq!(trails.len(), 1);
    assert_eq!(trails[0].colour.a, 19_900);
}

#[test]
fn each_body_appends_one_full_alpha_sample() {
    let b0 = Body {
        id: 0,
        colour: Color { r: 900_000, g: 800_000, b: 700_000, a: 1_000_000 },
        position: Vec2 { x: 1_000, y: 2_000 },
        velocity: Vec2 { x: 5, y: 6 },
        mass: 2_000,
    };
    let b1 = Body { id: 1, position: Vec2 { x: 3_000, y: 4_000 }, ..b0 };
    let mut trails: VecDeque<Trail> = VecDeque::new();
    update_trails(&mut trails, &[b0, b1], true);
    assert_eq!(trails.len(), 2);
    assert_eq!(trails[0].position, Vec2 { x: 1_000, y: 2_000 });
    assert_eq!(trails[1].position, Vec2 { x: 3_000, y: 4_000 });
    assert_eq!(trails[0].colour.a, 1_000_000);
    // existing samples fade before the new ones arrive
    update_trails(&mut trails, &[b0], true);
    assert_eq!(trails.len(), 3);
    assert_eq!(trails[0].colour.a, 995_000);
    assert_eq!(trails[2].colour.a, 1_000_000);
}

#[test]
fn without_fade_history_only_grows() {
    let b0 = Body {
        id: 0,
        colour: Color { r: 900_000, g: 800_000, b: 700_000, a: 1_000_000 },
        position: Vec2 { x: 1_000, y: 2_000 },
        velocity: Vec2 { x: 0, y: 0 },
        mass: 2_000,
    };
    let mut trails: VecDeque<Trail> = VecDeque::new();
    trails.push_back(sample(10_050));
    for _ in 0..5 {
        update_trails(&mut trails, &[b0], false);
    }
    // nothing faded, nothing evicted: 1 old + 5 appended
    assert_eq!(trails.len(), 6);
    assert_eq!(trails[0].colour.a, 10_050);
}

#[test]
fn trail_sample_copies_position_and_colour() {
    let b = Body {
        id: 7,
        colour: Color { r: 1, g: 2, b: 3, a: 4 },
        position: Vec2 { x: 10, y: 20 },
        velocity: Vec2 { x: 30, y: 40 },
        mass: 2_000,
    };
    let t = Trail::from(&b);
    assert_eq!(t.position, Vec2 { x: 10, y: 20 });
    assert_eq!(t.colour, Color { r: 1, g: 2, b: 3, a: 4 });
}
