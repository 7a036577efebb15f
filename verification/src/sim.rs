//! The simulation step and its small state machine: Running → Stopped on
//! a halting-mode collision, Stopped → Running on reset (or auto-restart),
//! and the steady Running self-loop of snapshot, force pass, trail pass,
//! integration and collision test.

use vstd::prelude::*;
use std::collections::VecDeque;
use crate::body::{body_ok, body_near_ok, color_ok, dims_ok, Body, BODIES_MAX};
use crate::num::COLOR_ONE;
use crate::collision::{any_overlap, collides, has_collision, some_collision};
use crate::force::{force_pass_ok, sep_ok, vel_updated, MIN_SEP_SQ};
use crate::integrate::pos_updated;
use crate::trail::{alphas_sorted, step_trails, trail_colors_ok, Trail};

verus! {

/// How much of the instructional overlay is drawn.
#[derive(Clone, Copy, PartialEq, Eq, Structural, Debug)]
pub enum Ui {
    Full,
    Minimal,
    Off,
}

/// The next overlay state after one toggle keypress.
pub open spec fn ui_toggled(u: Ui) -> Ui {
    match u {
        Ui::Off => Ui::Minimal,
        Ui::Minimal => Ui::Full,
        Ui::Full => Ui::Off,
    }
}

impl Ui {
    /// Toggles to the next UI state.
    pub fn toggle(&mut self)
        ensures
            *final(self) == ui_toggled(*old(self)),
    {
        *self = match self {
            Ui::Off => Ui::Minimal,
            Ui::Minimal => Ui::Full,
            Ui::Full => Ui::Off,
        }
    }

    /// True when per-body mass and speed labels are drawn.
    pub fn shows_body_info(&self) -> (r: bool)
        ensures
            r == (*self == Ui::Full || *self == Ui::Minimal),
    {
        match self {
            Ui::Full => true,
            Ui::Minimal => true,
            Ui::Off => false,
        }
    }

    /// True when the instruction lines are drawn.
    pub fn shows_instructions(&self) -> (r: bool)
        ensures
            r == (*self == Ui::Full),
    {
        match self {
            Ui::Full => true,
            Ui::Minimal => false,
            Ui::Off => false,
        }
    }
}

/// The per-run configuration: immutable during a frame, mutated only by
/// the input toggles between frames.
#[derive(Clone, Copy, PartialEq, Eq, Structural, Debug)]
pub struct Config {
    /// Treat the screen as a torus, for both forces and positions.
    pub wrap: bool,
    /// Resolve overlaps elastically instead of halting the simulation.
    pub elastic_collisions: bool,
    /// Restart automatically on the step after a halting collision.
    pub auto_restart: bool,
    /// Fade and evict trail samples; off keeps the whole history.
    pub trail_fade: bool,
    /// Overlay detail level.
    pub show_ui: Ui,
}

/// The discrete per-frame input events the simulation reacts to.
#[derive(Clone, Copy, PartialEq, Eq, Structural, Debug)]
pub struct FrameInput {
    pub reset: bool,
    pub toggle_ui: bool,
    pub toggle_auto_restart: bool,
    pub toggle_elastic: bool,
}

/// The whole simulation state: the live bodies, the trail history and
/// the running flag that freezes physics once a halting collision hits.
pub struct SimState {
    pub bodies: Vec<Body>,
    pub trails: VecDeque<Trail>,
    pub running: bool,
}

/// The state's structural envelope: a small set of in-range bodies with
/// distinct identities and full alpha, and a trail buffer whose fade
/// levels are in range and rise from front (oldest) to back.
pub open spec fn state_ok(s: SimState) -> bool {
    &&& 2 <= s.bodies@.len() <= BODIES_MAX
    &&& (forall|i: int| 0 <= i < s.bodies@.len() ==> body_ok(#[trigger] s.bodies@[i]))
    &&& (forall|i: int, j: int|
        0 <= i < j < s.bodies@.len() ==> (#[trigger] s.bodies@[i]).id != (
        #[trigger] s.bodies@[j]).id)
    &&& (forall|i: int| 0 <= i < s.bodies@.len() ==> (#[trigger] s.bodies@[i]).colour.a
        == COLOR_ONE)
    &&& trail_colors_ok(s.trails@)
    &&& alphas_sorted(s.trails@)
}

/// Everything one physics step needs of the state: the envelope plus the
/// separation floor for every body that will take the gravity path.
pub open spec fn can_step(s: SimState, cfg: Config, width: i64, height: i64) -> bool {
    &&& state_ok(s)
    &&& dims_ok(width, height)
    &&& (forall|i: int|
        0 <= i < s.bodies@.len() && !(cfg.elastic_collisions && any_overlap(
            #[trigger] s.bodies@[i],
            s.bodies@,
        )) ==> sep_ok(s.bodies@[i], s.bodies@, width as int, height as int, cfg.wrap))
}

/// The body set after one physics step: every velocity computed from the
/// same snapshot, then every position advanced by the new velocity.
pub open spec fn step_bodies(
    bs: Seq<Body>,
    width: int,
    height: int,
    wrap: bool,
    elastic: bool,
) -> Seq<Body> {
    Seq::new(
        bs.len(),
        |i: int| pos_updated(vel_updated(bs[i], bs, width, height, wrap, elastic), width, height, wrap),
    )
}

/// The running flag after one physics step: halting mode stops on any
/// collision among the moved bodies; elastic mode never stops.
pub open spec fn step_running(
    bs: Seq<Body>,
    width: int,
    height: int,
    wrap: bool,
    elastic: bool,
) -> bool {
    if elastic {
        true
    } else {
        !some_collision(step_bodies(bs, width, height, wrap, elastic))
    }
}

/// True when this frame must discard the bodies and start a fresh run:
/// an explicit reset request, or a stopped simulation with auto-restart
/// on.
pub fn wants_reset(state: &SimState, cfg: &Config, input: &FrameInput) -> (r: bool)
    ensures
        r == (input.reset || (!state.running && cfg.auto_restart)),
{
    input.reset || (!state.running && cfg.auto_restart)
}

/// Applies this frame's toggle events to the configuration.
pub fn apply_toggles(cfg: &mut Config, input: &FrameInput)
    ensures
        final(cfg).show_ui == (if input.toggle_ui {
            ui_toggled(old(cfg).show_ui)
        } else {
            old(cfg).show_ui
        }),
        final(cfg).auto_restart == (if input.toggle_auto_restart {
            !old(cfg).auto_restart
        } else {
            old(cfg).auto_restart
        }),
        final(cfg).elastic_collisions == (if input.toggle_elastic {
            !old(cfg).elastic_collisions
        } else {
            old(cfg).elastic_collisions
        }),
        final(cfg).wrap == old(cfg).wrap,
        final(cfg).trail_fade == old(cfg).trail_fade,
{
    if input.toggle_ui {
        cfg.show_ui.toggle();
    }
    if input.toggle_auto_restart {
        cfg.auto_restart = !cfg.auto_restart;
    }
    if input.toggle_elastic {
        cfg.elastic_collisions = !cfg.elastic_collisions;
    }
}

impl SimState {
    /// A fresh simulation: three randomized bodies, no trails, running.
    pub fn new_run(width: i64, height: i64) -> (s: SimState)
        requires
            dims_ok(width, height),
        ensures
            s.bodies@.len() == 3,
            forall|i: int| 0 <= i < 3 ==> (#[trigger] s.bodies@[i]).id == i,
            forall|i: int| 0 <= i < 3 ==> body_ok(#[trigger] s.bodies@[i]),
            forall|i: int| 0 <= i < 3 ==> (#[trigger] s.bodies@[i]).colour.a == COLOR_ONE,
            s.trails@ == Seq::<Trail>::empty(),
            s.running == true,
            state_ok(s),
    {
        let mut bodies: Vec<Body> = Vec::new();
        bodies.push(Body::new_random(0, width, height));
        bodies.push(Body::new_random(1, width, height));
        bodies.push(Body::new_random(2, width, height));
        SimState { bodies, trails: VecDeque::new(), running: true }
    }

    /// One physics step, the Running self-loop: compute every body's new
    /// velocity from one consistent snapshot, record and age the trails
    /// (at the pre-step positions), advance every position, and in
    /// halting mode stop the run if any two moved bodies touch. A
    /// stopped simulation does not move.
    pub fn step(&mut self, cfg: Config, width: i64, height: i64)
        requires
            old(self).running ==> can_step(*old(self), cfg, width, height),
        ensures
            !old(self).running ==> *final(self) == *old(self),
            old(self).running ==> final(self).bodies@ == step_bodies(
                old(self).bodies@,
                width as int,
                height as int,
                cfg.wrap,
                cfg.elastic_collisions,
            ),
            old(self).running ==> final(self).trails@ == step_trails(
                old(self).trails@,
                old(self).bodies@,
                cfg.trail_fade,
            ),
            old(self).running ==> final(self).running == step_running(
                old(self).bodies@,
                width as int,
                height as int,
                cfg.wrap,
                cfg.elastic_collisions,
            ),
    {
        if !self.running {
            return ;
        }
        let ghost bs0 = self.bodies@;
        let ghost wi = width as int;
        let ghost hi = height as int;
        let wrap = cfg.wrap;
        let elastic = cfg.elastic_collisions;
        proof {
            assert forall|i: int| 0 <= i < bs0.len() implies force_pass_ok(
                #[trigger] bs0[i],
                bs0,
                wi,
                hi,
                wrap,
                elastic,
            ) by {
                reveal(crate::force::force_pass_ok);
                let w: int = if i == 0 {
                    1
                } else {
                    0
                };
                assert(bs0[w].id != bs0[i].id);
            }
        }
        // force pass from one consistent snapshot of the body set
        let new_bodies = force_pass(&self.bodies, width, height, wrap, elastic);
        // trail pass, before integration: samples carry pre-step positions
        crate::trail::update_trails(&mut self.trails, new_bodies.as_slice(), cfg.trail_fade);
        proof {
            reveal(crate::force::vel_updated);
            assert(crate::trail::samples_of(new_bodies@) =~= crate::trail::samples_of(bs0));
            assert(self.trails@ == step_trails(old(self).trails@, bs0, cfg.trail_fade));
            assert forall|j: int| 0 <= j < new_bodies@.len() implies mid_ok(
                #[trigger] new_bodies@[j],
            ) by {
                crate::force::lemma_new_velocity_bound(bs0[j], bs0, wi, hi, wrap, elastic);
            }
        }
        // integration
        let moved = integrate_pass(&new_bodies, width, height, wrap);
        self.bodies = moved;
        proof {
            assert(self.bodies@ =~= step_bodies(bs0, wi, hi, wrap, elastic));
        }
        // halting mode: any touch among the moved bodies stops the run
        if !elastic {
            let c = has_collision(self.bodies.as_slice());
            self.running = !c;
        }
    }

    /// Checks the state's structural envelope.
    pub fn check_state(&self) -> (r: bool)
        ensures
            r == state_ok(*self),
    {
        let n = self.bodies.len();
        if n < 2 || n > BODIES_MAX {
            return false;
        }
        let mut i: usize = 0;
        while i < n
            invariant
                i <= n,
                n == self.bodies@.len(),
                forall|k: int|
                    0 <= k < i ==> body_ok(#[trigger] self.bodies@[k]) && (
                    #[trigger] self.bodies@[k]).colour.a == COLOR_ONE,
            decreases n - i,
        {
            if !self.bodies[i].check_ok() || self.bodies[i].colour.a != COLOR_ONE {
                return false;
            }
            i = i + 1;
        }
        let mut i: usize = 0;
        while i < n
            invariant
                i <= n,
                n == self.bodies@.len(),
                forall|p: int, q: int|
                    0 <= p < q < n && p < i ==> (#[trigger] self.bodies@[p]).id != (
                    #[trigger] self.bodies@[q]).id,
            decreases n - i,
        {
            let mut j: usize = i + 1;
            while j < n
                invariant
                    i < j <= n,
                    i < n,
                    n == self.bodies@.len(),
                    forall|q: int|
                        i < q < j ==> (#[trigger] self.bodies@[q]).id != self.bodies@[i as int].id,
                decreases n - j,
            {
                if self.bodies[i].id == self.bodies[j].id {
                    return false;
                }
                j = j + 1;
            }
            i = i + 1;
        }
        let t = self.trails.len();
        let mut i: usize = 0;
        while i < t
            invariant
                i <= t,
                t == self.trails@.len(),
                forall|k: int| 0 <= k < i ==> color_ok(#[trigger] self.trails@[k].colour),
                forall|p: int, q: int|
                    0 <= p <= q < i ==> self.trails@[p].colour.a <= self.trails@[q].colour.a,
            decreases t - i,
        {
            let c = self.trails[i].colour;
            if !(0 <= c.r && c.r <= COLOR_ONE && 0 <= c.g && c.g <= COLOR_ONE && 0 <= c.b && c.b
                <= COLOR_ONE && 0 <= c.a && c.a <= COLOR_ONE) {
                return false;
            }
            if i > 0 {
                if self.trails[i - 1].colour.a > c.a {
                    return false;
                }
            }
            proof {
                assert forall|p: int, q: int|
                    0 <= p <= q < i + 1 implies self.trails@[p].colour.a
                    <= self.trails@[q].colour.a by {
                    if q == i as int && p < q {
                        assert(self.trails@[p].colour.a <= self.trails@[i as int - 1].colour.a);
                    }
                }
            }
            i = i + 1;
        }
        true
    }

    /// Checks the separation floor for every body that will take the
    /// gravity path this step.
    pub fn check_sep(&self, cfg: Config, width: i64, height: i64) -> (r: bool)
        requires
            state_ok(*self),
            dims_ok(width, height),
        ensures
            r == (forall|i: int|
                0 <= i < self.bodies@.len() && !(cfg.elastic_collisions && any_overlap(
                    #[trigger] self.bodies@[i],
                    self.bodies@,
                )) ==> sep_ok(
                    self.bodies@[i],
                    self.bodies@,
                    width as int,
                    height as int,
                    cfg.wrap,
                )),
    {
        let ghost bs = self.bodies@;
        let ghost wi = width as int;
        let ghost hi = height as int;
        let n = self.bodies.len();
        let mut i: usize = 0;
        while i < n
            invariant
                i <= n,
                n == bs.len(),
                self.bodies@ == bs,
                state_ok(*self),
                dims_ok(width, height),
                wi == width as int,
                hi == height as int,
                forall|p: int|
                    0 <= p < i && !(cfg.elastic_collisions && any_overlap(
                        #[trigger] bs[p],
                        bs,
                    )) ==> sep_ok(bs[p], bs, wi, hi, cfg.wrap),
            decreases n - i,
        {
            let me = self.bodies[i];
            let mut found = false;
            let mut sep_all = true;
            let mut j: usize = 0;
            while j < n
                invariant
                    j <= n,
                    n == bs.len(),
                    self.bodies@ == bs,
                    state_ok(*self),
                    dims_ok(width, height),
                    wi == width as int,
                    hi == height as int,
                    me == bs[i as int],
                    0 <= i < n,
                    found == any_overlap(me, bs.take(j as int)),
                    sep_all == sep_ok(me, bs.take(j as int), wi, hi, cfg.wrap),
                decreases n - j,
            {
                let ghost tk = bs.take(j as int);
                let ghost tk1 = bs.take(j as int + 1);
                proof {
                    assert(tk1.drop_last() =~= tk);
                    assert(tk1.last() == bs[j as int]);
                }
                let o = self.bodies[j];
                if o.id != me.id {
                    if me.collides_with(&o) {
                        found = true;
                    }
                    let d = crate::force::pair_dist_sq_exec(&me, &o, width, height, cfg.wrap);
                    if d < MIN_SEP_SQ as i128 {
                        sep_all = false;
                    }
                }
                proof {
                    if found {
                        if any_overlap(me, tk) {
                            let w = choose|k: int|
                                0 <= k < tk.len() && tk[k].id != me.id && collides(me, tk[k]);
                            assert(tk1[w] == tk[w]);
                            assert(any_overlap(me, tk1));
                        } else {
                            assert(bs[j as int].id != me.id && collides(me, bs[j as int]));
                            assert(tk1[j as int] == bs[j as int]);
                            assert(any_overlap(me, tk1));
                        }
                    } else {
                        if any_overlap(me, tk1) {
                            let w = choose|k: int|
                                0 <= k < tk1.len() && tk1[k].id != me.id && collides(me, tk1[k]);
                            if w < j as int {
                                assert(tk[w] == tk1[w]);
                                assert(any_overlap(me, tk));
                                assert(false);
                            } else {
                                assert(tk1[w] == bs[j as int]);
                                assert(false);
                            }
                        }
                    }
                    assert forall|k: int|
                        0 <= k < tk1.len() && tk1[k].id != me.id implies #[trigger] tk1[k]
                        == bs[k] by {
                        assert(tk1[k] == bs[k]);
                    }
                    if sep_all {
                        assert forall|k: int|
                            0 <= k < tk1.len() && (#[trigger] tk1[k]).id != me.id implies
                            crate::force::pair_dist_sq(me, tk1[k], wi, hi, cfg.wrap)
                            >= MIN_SEP_SQ by {
                            if k < j as int {
                                assert(tk[k] == tk1[k]);
                                assert(crate::force::pair_dist_sq(me, tk[k], wi, hi, cfg.wrap)
                                    >= MIN_SEP_SQ);
                            }
                        }
                        assert(sep_ok(me, tk1, wi, hi, cfg.wrap));
                    } else {
                        if sep_ok(me, tk1, wi, hi, cfg.wrap) {
                            assert forall|k: int|
                                0 <= k < tk.len() && (#[trigger] tk[k]).id != me.id implies
                                crate::force::pair_dist_sq(me, tk[k], wi, hi, cfg.wrap)
                                >= MIN_SEP_SQ by {
                                assert(tk1[k] == tk[k]);
                            }
                            assert(sep_ok(me, tk, wi, hi, cfg.wrap));
                            assert(false);
                        }
                    }
                }
                j = j + 1;
            }
            proof {
                assert(bs.take(n as int) =~= bs);
            }
            if !(cfg.elastic_collisions && found) && !sep_all {
                return false;
            }
            i = i + 1;
        }
        true
    }

    /// Runs one physics step if the state admits one: a stopped
    /// simulation, out-of-range dimensions, a state off the envelope or a
    /// pair below the separation floor all leave the state untouched.
    pub fn try_step(&mut self, cfg: Config, width: i64, height: i64) -> (stepped: bool)
        ensures
            stepped == (old(self).running && can_step(*old(self), cfg, width, height)),
            !stepped ==> *final(self) == *old(self),
            stepped ==> final(self).bodies@ == step_bodies(
                old(self).bodies@,
                width as int,
                height as int,
                cfg.wrap,
                cfg.elastic_collisions,
            ),
            stepped ==> final(self).trails@ == step_trails(
                old(self).trails@,
                old(self).bodies@,
                cfg.trail_fade,
            ),
            stepped ==> final(self).running == step_running(
                old(self).bodies@,
                width as int,
                height as int,
                cfg.wrap,
                cfg.elastic_collisions,
            ),
    {
        if !self.running {
            return false;
        }
        if !(crate::body::DIM_MIN <= width && width <= crate::body::DIM_MAX
            && crate::body::DIM_MIN <= height && height <= crate::body::DIM_MAX) {
            return false;
        }
        if !self.check_state() {
            return false;
        }
        if !self.check_sep(cfg, width, height) {
            return false;
        }
        self.step(cfg, width, height);
        true
    }

    /// Discards the whole body set and the trails and starts a fresh run,
    /// drawing new random bodies from the ongoing random stream.
    pub fn reset(&mut self, width: i64, height: i64)
        requires
            dims_ok(width, height),
        ensures
            final(self).bodies@.len() == 3,
            forall|i: int| 0 <= i < 3 ==> (#[trigger] final(self).bodies@[i]).id == i,
            forall|i: int| 0 <= i < 3 ==> body_ok(#[trigger] final(self).bodies@[i]),
            forall|i: int|
                0 <= i < 3 ==> (#[trigger] final(self).bodies@[i]).colour.a == COLOR_ONE,
            final(self).trails@ == Seq::<Trail>::empty(),
            final(self).running == true,
            state_ok(*final(self)),
    {
        let fresh = SimState::new_run(width, height);
        self.bodies = fresh.bodies;
        self.trails.clear();
        self.running = true;
    }
}


/// The envelope a body satisfies between the force pass and the
/// integration: the pre-step position, a force-pass velocity.
pub open spec fn mid_ok(b: Body) -> bool {
    &&& -crate::body::POS_LIMIT <= b.position.x <= crate::body::POS_LIMIT
    &&& -crate::body::POS_LIMIT <= b.position.y <= crate::body::POS_LIMIT
    &&& -crate::force::VEL_STEP_MAX <= b.velocity.x <= crate::force::VEL_STEP_MAX
    &&& -crate::force::VEL_STEP_MAX <= b.velocity.y <= crate::force::VEL_STEP_MAX
    &&& crate::body::MASS_MIN <= b.mass <= crate::body::MASS_MAX
}

/// Runs the force pass on every body against one shared snapshot.
fn force_pass(bodies: &Vec<Body>, width: i64, height: i64, wrap: bool, elastic: bool) -> (r: Vec<
    Body,
>)
    requires
        forall|j: int|
            0 <= j < bodies@.len() ==> force_pass_ok(
                #[trigger] bodies@[j],
                bodies@,
                width as int,
                height as int,
                wrap,
                elastic,
            ),
    ensures
        r@.len() == bodies@.len(),
        forall|j: int|
            0 <= j < bodies@.len() ==> r@[j] == vel_updated(
                #[trigger] bodies@[j],
                bodies@,
                width as int,
                height as int,
                wrap,
                elastic,
            ),
{
    let ghost bs0 = bodies@;
    let ghost wi = width as int;
    let ghost hi = height as int;
    let n = bodies.len();
    let mut out: Vec<Body> = Vec::new();
    let mut i: usize = 0;
    while i < n
        invariant
            i <= n,
            n == bs0.len(),
            bodies@ == bs0,
            wi == width as int,
            hi == height as int,
            forall|j: int|
                0 <= j < bs0.len() ==> force_pass_ok(#[trigger] bs0[j], bs0, wi, hi, wrap, elastic),
            out@.len() == i,
            forall|j: int|
                0 <= j < i ==> out@[j] == vel_updated(
                    #[trigger] bs0[j],
                    bs0,
                    wi,
                    hi,
                    wrap,
                    elastic,
                ),
        decreases n - i,
    {
        let mut b = bodies[i];
        b.update_velocity(bodies.as_slice(), width, height, wrap, elastic);
        proof {
            reveal(crate::force::vel_updated);
            assert(b.velocity.x == crate::force::new_velocity_x(
                bs0[i as int],
                bs0,
                wi,
                hi,
                wrap,
                elastic,
            ) as i64);
            assert(b.velocity.y == crate::force::new_velocity_y(
                bs0[i as int],
                bs0,
                wi,
                hi,
                wrap,
                elastic,
            ) as i64);
            assert(b == vel_updated(bs0[i as int], bs0, wi, hi, wrap, elastic));
        }
        out.push(b);
        i = i + 1;
    }
    out
}

/// Advances every body's position by its velocity.
fn integrate_pass(bodies: &Vec<Body>, width: i64, height: i64, wrap: bool) -> (r: Vec<Body>)
    requires
        dims_ok(width, height),
        forall|j: int| 0 <= j < bodies@.len() ==> mid_ok(#[trigger] bodies@[j]),
    ensures
        r@.len() == bodies@.len(),
        forall|j: int|
            0 <= j < bodies@.len() ==> r@[j] == pos_updated(
                #[trigger] bodies@[j],
                width as int,
                height as int,
                wrap,
            ),
        forall|j: int| 0 <= j < r@.len() ==> body_near_ok(#[trigger] r@[j]),
{
    let ghost bs = bodies@;
    let n = bodies.len();
    let mut out: Vec<Body> = Vec::new();
    let mut i: usize = 0;
    while i < n
        invariant
            i <= n,
            n == bs.len(),
            bodies@ == bs,
            dims_ok(width, height),
            forall|j: int| 0 <= j < bs.len() ==> mid_ok(#[trigger] bs[j]),
            out@.len() == i,
            forall|j: int|
                0 <= j < i ==> out@[j] == pos_updated(
                    #[trigger] bs[j],
                    width as int,
                    height as int,
                    wrap,
                ),
            forall|j: int| 0 <= j < i ==> body_near_ok(#[trigger] out@[j]),
        decreases n - i,
    {
        let mut b = bodies[i];
        b.update_position(width, height, wrap);
        proof {
            assert(body_near_ok(b));
        }
        out.push(b);
        i = i + 1;
    }
    out
}

} // verus!
