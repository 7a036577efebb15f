//! Unit tests for the force accumulator, integrator and collision
//! resolver, on hand-computed fixed-point values (1000 units per pixel).

use three_bodies::body::Body;
use three_bodies::body::Color;
use three_bodies::vec2::Vec2;

fn body(id: usize, x: i64, y: i64, vx: i64, vy: i64, mass: i64) -> Body {
    Body {
        id,
        colour: Color { r: 1_000_000, g: 1_000_000, b: 1_000_000, a: 1_000_000 },
        position: Vec2 { x, y },
        velocity: Vec2 { x: vx, y: vy },
        mass,
    }
}

#[test]
fn gravity_points_along_displacement_with_inverse_square_magnitude() {
    // A at the origin, B three by four pixels away: distance exactly 5 px.
    // The pairwise term is m1*m2*SCALE*(dx,dy)/d^3 = 48*(3000,4000)/1000
    // = (144, 192), proportional to (3, 4); the increment is
    // 9810 * term / m1, truncated: (706, 941).
    let a = body(0, 0, 0, 0, 0, 2000);
    let b = body(1, 3000, 4000, 0, 0, 3000);
    let mut me = a;
    me.update_velocity(&[a, b], 800_000, 600_000, false, false);
    assert_eq!(me.velocity.x, 706);
    assert_eq!(me.velocity.y, 941);
    // the increment is collinear with the displacement: 706/941 ~ 3/4
    // (rounding aside, the un-rounded terms 144/192 are exactly 3/4)
    assert_eq!(144 * 4000, 192 * 3000);
}

#[test]
fn equal_mass_pair_feels_equal_and_opposite_increments() {
    // With equal masses the raw force magnitudes agree in both directions,
    // and the fixed-point increments are exact negatives of each other.
    let a = body(0, 0, 0, 0, 0, 2000);
    let b = body(1, 3000, 4000, 0, 0, 2000);
    let mut na = a;
    let mut nb = b;
    na.update_velocity(&[a, b], 800_000, 600_000, false, false);
    nb.update_velocity(&[a, b], 800_000, 600_000, false, false);
    assert_eq!(na.velocity.x, 470);
    assert_eq!(na.velocity.y, 627);
    assert_eq!(nb.velocity.x, -470);
    assert_eq!(nb.velocity.y, -627);
}

#[test]
fn wrapped_displacement_matches_plain_when_near() {
    // Within half the screen the torus changes nothing.
    let a = body(0, 0, 0, 0, 0, 2000);
    let b = body(1, 3000, 4000, 0, 0, 3000);
    let mut plain = a;
    let mut wrapped = a;
    plain.update_velocity(&[a, b], 800_000, 600_000, false, false);
    wrapped.update_velocity(&[a, b], 800_000, 600_000, true, false);
    assert_eq!(plain.velocity, wrapped.velocity);
}

#[test]
fn wrapped_displacement_flips_beyond_half_screen() {
    // A is 798 px to the left of B on an 800 px wide torus: the shorter
    // path runs the other way, 2 px long, so the pull on A points in -x.
    // term = 2000*2000*(-2000)*1000 / 2000^3 = -1000;
    // increment = 9810 * -1000 / 2000 = -4905.
    let a = body(0, 1_000, 300_000, 0, 0, 2000);
    let b = body(1, 799_000, 300_000, 0, 0, 2000);
    let mut me = a;
    me.update_velocity(&[a, b], 800_000, 600_000, true, false);
    assert_eq!(me.velocity.x, -4905);
    assert_eq!(me.velocity.y, 0);
}

#[test]
fn zero_velocity_body_never_moves() {
    let mut b = body(0, 500_000, 400_000, 0, 0, 2000);
    for _ in 0..50 {
        b.update_position(800_000, 600_000, true);
        assert_eq!(b.position, Vec2 { x: 500_000, y: 400_000 });
    }
    for _ in 0..50 {
        b.update_position(800_000, 600_000, false);
        assert_eq!(b.position, Vec2 { x: 500_000, y: 400_000 });
    }
}

#[test]
fn crossing_the_edge_reenters_on_the_other_side() {
    // x past the width comes back lowered by the width; a negative y
    // comes back raised by the height.
    let mut b = body(0, 799_000, 500, 2_000, -2_000, 2000);
    b.update_position(800_000, 600_000, true);
    assert_eq!(b.position.x, 1_000);
    assert_eq!(b.position.y, 598_500);
}

#[test]
fn without_wrap_bodies_leave_the_screen() {
    let mut b = body(0, 799_000, 500, 2_000, -2_000, 2000);
    b.update_position(800_000, 600_000, false);
    assert_eq!(b.position.x, 801_000);
    assert_eq!(b.position.y, -1_500);
}

#[test]
fn touching_at_exactly_the_radius_sum_counts_as_collision() {
    // distance exactly 5 px, radii 2 px + 3 px: the boundary is inclusive.
    let a = body(0, 0, 0, 0, 0, 2000);
    let b = body(1, 3000, 4000, 0, 0, 3000);
    assert!(a.collides_with(&b));
    assert!(b.collides_with(&a));
    // one unit less of combined radius and they no longer touch
    let c = body(1, 3000, 4000, 0, 0, 2999);
    assert!(!a.collides_with(&c));
}

#[test]
fn equal_masses_swap_velocities_on_overlap() {
    // Two overlapping equal masses in elastic mode: each takes exactly
    // the other's snapshot velocity.
    let a = body(0, 400_000, 300_000, 500, 0, 5000);
    let b = body(1, 405_000, 300_000, -300, 100, 5000);
    let mut na = a;
    let mut nb = b;
    na.update_velocity(&[a, b], 800_000, 600_000, false, true);
    nb.update_velocity(&[a, b], 800_000, 600_000, false, true);
    assert_eq!(na.velocity, Vec2 { x: -300, y: 100 });
    assert_eq!(nb.velocity, Vec2 { x: 500, y: 0 });
}

#[test]
fn elastic_mode_without_overlap_falls_back_to_gravity() {
    // 50 px apart with radii 2 px + 3 px: no overlap, so elastic mode
    // still applies plain gravity.
    let a = body(0, 0, 0, 0, 0, 2000);
    let far = body(1, 30_000, 40_000, 0, 0, 3000);
    let mut me = a;
    me.update_velocity(&[a, far], 800_000, 600_000, false, true);
    // term = (2000*3000*dx*1000)/d^3 with d = 50_000:
    // numx = 1.8e14 / 1.25e14 -> 1; numy = 2.4e14 / 1.25e14 -> 1;
    // increment = 9810 * 1 / 2000 = 4 on each axis
    assert_eq!(me.velocity.x, 4);
    assert_eq!(me.velocity.y, 4);
}
