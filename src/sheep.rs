//! Sheep: the wander/idle state machine, the search for the nearest sheep, and
//! the merge of two sheep released onto each other.
use crate::geometry::{
    dist_sq, is_direction, is_within, shift, shifted, travel, travel_spec, unit_dir,
    unit_direction, within, Bounds, Position, DT_LIMIT, SPEED_LIMIT, UNIT,
};
use crate::random::{random_flag, random_in};
pub use crate::world::{SheepParent, SheepPlugin};
use vstd::prelude::*;

verus! {

/// Base time a sheep keeps wandering, in milliseconds.
pub const WANDER_TIME_MS: u64 = 3000;

/// Base time a sheep keeps idling, in milliseconds.
pub const IDLE_TIME_MS: u64 = 5000;

/// Largest relative deviation of a dwell time from its base, in thousandths.
pub const MAX_WANDER_TIME_DEVIANCE_PERMILLE: u64 = 200;

/// Wandering speed of a sheep, in milli-units per second.
pub const SHEEP_WANDER_SPEED: u64 = 1000;

/// Health a sheep is born with.
pub const SHEEP_HEALTH: i64 = 5;

/// Number of sheep in the starting flock.
pub const COUNT_INIT_SHEEP: usize = 10;

/// Half-width of the pen that the starting flock is scattered over.
pub const X_MAX_POS_OFFSET: i64 = 10_000;

/// Half-height of the pen that the starting flock is scattered over.
pub const Y_MAX_POS_OFFSET: i64 = 6_000;

/// Size of a sheep: two sheep this close collide, in milli-units.
pub const SHEEP_SCALE: u64 = 1000;

/// Longest base dwell time, in milliseconds.
pub const TIME_LIMIT: u64 = 1_000_000_000;

/// The heritable traits of a sheep. `state` counts the merges that produced it.
#[derive(Clone, Copy, Debug, PartialEq, Eq, Structural)]
pub struct Sheep {
    pub state: u8,
}

impl Sheep {
    pub fn new(state: u8) -> (r: Sheep)
        ensures
            r.state == state,
    {
        Sheep { state }
    }
}

/// The two modes of a sheep left to itself.
#[derive(Clone, Copy, Debug, PartialEq, Eq, Structural)]
pub enum WanderState {
    Wandering,
    Idling,
}

pub open spec fn flip(s: WanderState) -> WanderState {
    match s {
        WanderState::Wandering => WanderState::Idling,
        WanderState::Idling => WanderState::Wandering,
    }
}

/// Movement speed in milli-units per second.
#[derive(Clone, Copy, Debug, PartialEq, Eq, Structural)]
pub struct Speed(pub u64);

/// A one-shot countdown, in milliseconds.
#[derive(Clone, Copy, Debug, PartialEq, Eq, Structural)]
pub struct Timer {
    pub duration_ms: u64,
    pub elapsed_ms: u64,
}

impl Timer {
    pub open spec fn wf(self) -> bool {
        self.elapsed_ms <= self.duration_ms <= 2 * TIME_LIMIT
    }

    /// The timer after `dt` more milliseconds; it stops at its duration.
    pub open spec fn ticked(self, dt: u64) -> Timer {
        Timer {
            duration_ms: self.duration_ms,
            elapsed_ms: if self.elapsed_ms + dt >= self.duration_ms {
                self.duration_ms
            } else {
                (self.elapsed_ms + dt) as u64
            },
        }
    }

    /// The timer has run out once the next `dt` milliseconds have passed; a
    /// timer of zero length, or one already at its end, runs out at once.
    pub open spec fn finishes_on(self, dt: u64) -> bool {
        self.elapsed_ms + dt >= self.duration_ms
    }

    pub fn from_millis(duration_ms: u64) -> (r: Timer)
        ensures
            r.duration_ms == duration_ms,
            r.elapsed_ms == 0,
    {
        Timer { duration_ms, elapsed_ms: 0 }
    }

    /// Advances the timer; returns whether it has run out.
    pub fn tick(&mut self, dt: u64) -> (just_finished: bool)
        requires
            old(self).wf(),
            dt <= DT_LIMIT,
        ensures
            *final(self) == old(self).ticked(dt),
            just_finished == old(self).finishes_on(dt),
            final(self).wf(),
    {
        if self.elapsed_ms + dt >= self.duration_ms {
            self.elapsed_ms = self.duration_ms;
            true
        } else {
            self.elapsed_ms = self.elapsed_ms + dt;
            false
        }
    }
}

/// The wander controller of a sheep: its mode, the countdown to the next flip,
/// and the direction it walks in while wandering.
#[derive(Clone, Copy, Debug, PartialEq, Eq, Structural)]
pub struct Wander {
    pub wander_time_ms: u64,
    pub idle_time_ms: u64,
    pub time_deviance: u64,
    pub state: WanderState,
    pub timer: Timer,
    pub wander_dir: Position,
}

/// A dwell time drawn from `base` with relative deviation `d` thousandths.
pub open spec fn dwell(base: u64, d: int) -> int {
    base * (1000 + d) / 1000
}

/// The admissible random draws for a wander controller with deviance `dev`.
pub open spec fn draws_ok(dev: u64, d: int, x: int, y: int) -> bool {
    -dev <= d <= dev && -UNIT <= x <= UNIT && -UNIT <= y <= UNIT
}

/// The controller built from a deviation draw `d` and a direction draw `(x, y)`.
pub open spec fn drawn(wt: u64, it: u64, dev: u64, state: WanderState, d: int, x: int, y: int)
    -> Wander {
    Wander {
        wander_time_ms: wt,
        idle_time_ms: it,
        time_deviance: dev,
        state,
        timer: Timer {
            duration_ms: dwell(
                match state {
                    WanderState::Wandering => wt,
                    WanderState::Idling => it,
                },
                d,
            ) as u64,
            elapsed_ms: 0,
        },
        wander_dir: unit_dir(x, y),
    }
}

impl Wander {
    pub open spec fn wf(self) -> bool {
        self.wander_time_ms <= TIME_LIMIT && self.idle_time_ms <= TIME_LIMIT && self.time_deviance
            <= 1000 && self.timer.wf() && is_direction(self.wander_dir)
    }

    /// `w` is a fresh controller for the mode that follows this one.
    pub open spec fn is_redraw(self, w: Wander) -> bool {
        exists|d: int, x: int, y: int|
            draws_ok(self.time_deviance, d, x, y) && w == drawn(
                self.wander_time_ms,
                self.idle_time_ms,
                self.time_deviance,
                flip(self.state),
                d,
                x,
                y,
            )
    }

    /// Builds a controller from given draws: the dwell time is the base time of
    /// `state` scaled by `1 + d/1000`, and the direction is `(x, y)` normalised.
    pub fn from_draws(
        wander_time_ms: u64,
        idle_time_ms: u64,
        time_deviance: u64,
        state: WanderState,
        d: i64,
        x: i64,
        y: i64,
    ) -> (r: Wander)
        requires
            wander_time_ms <= TIME_LIMIT,
            idle_time_ms <= TIME_LIMIT,
            time_deviance <= 1000,
            draws_ok(time_deviance, d as int, x as int, y as int),
        ensures
            r == drawn(wander_time_ms, idle_time_ms, time_deviance, state, d as int, x as int, y as int),
            r.wf(),
    {
        let base: u64 = match state {
            WanderState::Wandering => wander_time_ms,
            WanderState::Idling => idle_time_ms,
        };
        let factor: u64 = (1000 + d) as u64;
        assert(base * factor <= 2_000_000_000_000) by (nonlinear_arith)
            requires
                base <= 1_000_000_000,
                factor <= 2000,
        ;
        assert(base * factor / 1000 <= 2 * TIME_LIMIT) by (nonlinear_arith)
            requires
                base * factor <= 2_000_000_000_000,
        ;
        let duration: u64 = base * factor / 1000;
        Wander {
            wander_time_ms,
            idle_time_ms,
            time_deviance,
            state,
            timer: Timer::from_millis(duration),
            wander_dir: unit_direction(x, y),
        }
    }

    /// Builds a controller in mode `state` with a randomly drawn dwell time and
    /// direction.
    pub fn new(wander_time_ms: u64, idle_time_ms: u64, time_deviance: u64, state: WanderState) -> (r:
        Wander)
        requires
            wander_time_ms <= TIME_LIMIT,
            idle_time_ms <= TIME_LIMIT,
            time_deviance <= 1000,
        ensures
            exists|d: int, x: int, y: int|
                draws_ok(time_deviance, d, x, y) && r == drawn(
                    wander_time_ms,
                    idle_time_ms,
                    time_deviance,
                    state,
                    d,
                    x,
                    y,
                ),
            r.wf(),
    {
        let dev: i64 = time_deviance as i64;
        let d = random_in(-dev, dev);
        let x = random_in(-UNIT, UNIT);
        let y = random_in(-UNIT, UNIT);
        let r = Wander::from_draws(wander_time_ms, idle_time_ms, time_deviance, state, d, x, y);
        assert(draws_ok(time_deviance, d as int, x as int, y as int));
        r
    }
}

/// A sheep of the flock, with all that the simulation reads of it.
#[derive(Clone, Copy, Debug, PartialEq, Eq, Structural)]
pub struct SheepEntity {
    pub id: u64,
    pub sheep: Sheep,
    pub position: Position,
    pub health: i64,
    pub speed: Speed,
    pub wander: Wander,
    pub bounds: Bounds,
    pub dragged: bool,
}

impl SheepEntity {
    /// Everything but the position is well formed, and the position is within
    /// twice the computable range (where movement may leave it before the clamp).
    pub open spec fn wf_loose(self) -> bool {
        self.bounds.wf() && self.wander.wf() && self.speed.0 <= SPEED_LIMIT && -2
            * crate::geometry::COORD_LIMIT <= self.position.x <= 2 * crate::geometry::COORD_LIMIT
            && -2 * crate::geometry::COORD_LIMIT <= self.position.y <= 2
            * crate::geometry::COORD_LIMIT
    }

    /// Well formed, with the position inside its bounds.
    pub open spec fn wf(self) -> bool {
        self.wf_loose() && self.bounds.contains(self.position)
    }

    /// The sheep after one tick of `dt` milliseconds of its wander state
    /// machine, given the controller `redraw` it switches to if its timer runs
    /// out. A dragged sheep is left alone.
    pub open spec fn wandered(self, dt: u64, redraw: Wander) -> SheepEntity {
        if self.dragged {
            self
        } else {
            let w = if self.wander.timer.finishes_on(dt) {
                redraw
            } else {
                Wander { timer: self.wander.timer.ticked(dt), ..self.wander }
            };
            let p = if w.state == WanderState::Wandering {
                shifted(self.position, w.wander_dir, travel_spec(self.speed.0, dt))
            } else {
                self.position
            };
            SheepEntity { wander: w, position: p, ..self }
        }
    }

    /// One tick of the wander state machine, with the controller to switch to
    /// given.
    pub fn wander_with(&mut self, dt: u64, redraw: Wander)
        requires
            old(self).wf(),
            dt <= DT_LIMIT,
            redraw.wf(),
        ensures
            *final(self) == old(self).wandered(dt, redraw),
            final(self).wf_loose(),
    {
        if self.dragged {
            return ;
        }
        let finished = self.wander.timer.finishes_now(dt);
        if finished {
            self.wander = redraw;
        } else {
            self.wander.timer.tick(dt);
        }
        if self.wander.state == WanderState::Wandering {
            let step = travel(self.speed.0, dt);
            self.position = shift(self.position, self.wander.wander_dir, step);
        }
    }

    /// One tick of the wander state machine: when the timer runs out the mode
    /// flips and a fresh dwell time and direction are drawn.
    pub fn wander(&mut self, dt: u64)
        requires
            old(self).wf(),
            dt <= DT_LIMIT,
        ensures
            exists|w: Wander| old(self).wander.is_redraw(w) && *final(self) == old(self).wandered(dt, w),
            final(self).wf_loose(),
            final(self).id == old(self).id,
    {
        let w = self.wander;
        if self.wander.timer.finishes_now(dt) {
            let next = match w.state {
                WanderState::Wandering => WanderState::Idling,
                WanderState::Idling => WanderState::Wandering,
            };
            let redraw = Wander::new(w.wander_time_ms, w.idle_time_ms, w.time_deviance, next);
            self.wander_with(dt, redraw);
            assert(w.is_redraw(redraw));
        } else {
            let ghost w0 = drawn(
                w.wander_time_ms,
                w.idle_time_ms,
                w.time_deviance,
                flip(w.state),
                0,
                0,
                0,
            );
            assert(draws_ok(w.time_deviance, 0, 0, 0));
            assert(w.is_redraw(w0));
            self.wander_with(dt, w);
            assert(*self == old(self).wandered(dt, w0));
        }
    }
}

impl Timer {
    /// Whether the timer has run out once the next `dt` milliseconds have passed.
    pub fn finishes_now(&self, dt: u64) -> (r: bool)
        requires
            self.wf(),
            dt <= DT_LIMIT,
        ensures
            r == self.finishes_on(dt),
    {
        self.elapsed_ms + dt >= self.duration_ms
    }
}

/// Colour a sheep is drawn in, by its merge count.
#[derive(Clone, Copy, Debug, PartialEq, Eq, Structural)]
pub enum SheepTint {
    White,
    Red,
    Green,
    Blue,
    Purple,
}

pub open spec fn tint_spec(state: u8) -> SheepTint {
    if state == 0 {
        SheepTint::White
    } else if state == 1 {
        SheepTint::Red
    } else if state == 2 {
        SheepTint::Green
    } else if state == 3 {
        SheepTint::Blue
    } else {
        SheepTint::Purple
    }
}

/// The display colour of a sheep: white, red, green, blue for zero to three
/// merges, purple beyond.
pub fn update_sheep(sheep: &Sheep) -> (r: SheepTint)
    ensures
        r == tint_spec(sheep.state),
{
    match sheep.state {
        0 => SheepTint::White,
        1 => SheepTint::Red,
        2 => SheepTint::Green,
        3 => SheepTint::Blue,
        _ => SheepTint::Purple,
    }
}

/// Every sheep of the flock is well formed.
pub open spec fn flock_wf(flock: Seq<SheepEntity>) -> bool {
    forall|i: int| 0 <= i < flock.len() ==> #[trigger] flock[i].wf()
}

/// No two sheep of the flock share an identity.
pub open spec fn ids_unique(flock: Seq<SheepEntity>) -> bool {
    forall|i: int, j: int| 0 <= i < j < flock.len() ==> #[trigger] flock[i].id != #[trigger] flock[j].id
}

/// Every identity in the flock is below `n`.
pub open spec fn ids_below(flock: Seq<SheepEntity>, n: u64) -> bool {
    forall|i: int| 0 <= i < flock.len() ==> #[trigger] flock[i].id < n
}

pub open spec fn as_int(o: Option<usize>) -> Option<int> {
    match o {
        Some(j) => Some(j as int),
        None => None,
    }
}

/// Among the first `n` sheep, the index of the one nearest to `p` that lies
/// within `range` of it; on equal distances the earliest one.
pub open spec fn nearest_in(flock: Seq<SheepEntity>, p: Position, range: u64, n: int) -> Option<int>
    decreases n,
{
    if n <= 0 {
        None
    } else {
        let q = flock[n - 1].position;
        match nearest_in(flock, p, range, n - 1) {
            None => if within(p, q, range) {
                Some(n - 1)
            } else {
                None
            },
            Some(b) => if within(p, q, range) && dist_sq(p, q) < dist_sq(p, flock[b].position) {
                Some(n - 1)
            } else {
                Some(b)
            },
        }
    }
}

/// The index of the sheep nearest to `p` within `range`, the earliest on a tie.
pub open spec fn nearest(flock: Seq<SheepEntity>, p: Position, range: u64) -> Option<int> {
    nearest_in(flock, p, range, flock.len() as int)
}

/// What the nearest search finds: nothing only when no sheep is in range, and
/// otherwise a sheep in range that no sheep in range is closer than.
pub proof fn lemma_nearest_in(flock: Seq<SheepEntity>, p: Position, range: u64, n: int)
    requires
        0 <= n <= flock.len(),
    ensures
        match nearest_in(flock, p, range, n) {
            None => forall|k: int| 0 <= k < n ==> !within(p, #[trigger] flock[k].position, range),
            Some(j) => 0 <= j < n && within(p, flock[j].position, range) && forall|k: int|
                0 <= k < n && within(p, #[trigger] flock[k].position, range) ==> dist_sq(
                    p,
                    flock[j].position,
                ) <= dist_sq(p, flock[k].position),
        },
    decreases n,
{
    if n > 0 {
        lemma_nearest_in(flock, p, range, n - 1);
    }
}

/// The nearest search reads the positions only.
pub proof fn lemma_nearest_positions(
    a: Seq<SheepEntity>,
    b: Seq<SheepEntity>,
    p: Position,
    range: u64,
    n: int,
)
    requires
        0 <= n <= a.len(),
        a.len() == b.len(),
        forall|k: int| 0 <= k < a.len() ==> #[trigger] a[k].position == b[k].position,
    ensures
        nearest_in(a, p, range, n) == nearest_in(b, p, range, n),
    decreases n,
{
    if n > 0 {
        lemma_nearest_positions(a, b, p, range, n - 1);
        lemma_nearest_in(a, p, range, n - 1);
        assert(a[n - 1].position == b[n - 1].position);
        match nearest_in(a, p, range, n - 1) {
            Some(j) => {
                assert(a[j].position == b[j].position);
            },
            None => {},
        }
    }
}

/// The sheep nearest to `p` within `range`, the earliest in the flock on a tie.
pub fn nearest_sheep(flock: &Vec<SheepEntity>, p: Position, range: u64) -> (r: Option<usize>)
    requires
        p.in_range(),
        flock_wf(flock@),
    ensures
        as_int(r) == nearest(flock@, p, range),
{
    let mut best: Option<usize> = None;
    let mut best_d: u64 = 0;
    let mut i: usize = 0;
    while i < flock.len()
        invariant
            0 <= i <= flock.len(),
            p.in_range(),
            flock_wf(flock@),
            as_int(best) == nearest_in(flock@, p, range, i as int),
            match best {
                Some(b) => b < flock.len() && best_d == dist_sq(p, flock@[b as int].position),
                None => true,
            },
        decreases flock.len() - i,
    {
        let q = flock[i].position;
        assert(flock@[i as int].wf());
        let d = crate::geometry::distance_sq(p, q);
        let inside = is_within(p, q, range);
        match best {
            None => {
                if inside {
                    best = Some(i);
                    best_d = d;
                }
            },
            Some(_) => {
                if inside && d < best_d {
                    best = Some(i);
                    best_d = d;
                }
            },
        }
        i = i + 1;
    }
    best
}

/// `b` is what one tick of its wander state machine may make of `a`, whatever
/// was drawn.
pub open spec fn wandered_from(a: SheepEntity, b: SheepEntity, dt: u64) -> bool {
    exists|w: Wander| a.wander.is_redraw(w) && b == a.wandered(dt, w)
}

/// Runs the wander state machine of every sheep for one tick.
pub fn wander(flock: &mut Vec<SheepEntity>, dt: u64)
    requires
        flock_wf(old(flock)@),
        dt <= DT_LIMIT,
    ensures
        final(flock)@.len() == old(flock)@.len(),
        forall|i: int|
            0 <= i < old(flock)@.len() ==> wandered_from(old(flock)@[i], #[trigger] final(flock)@[i], dt),
        forall|i: int| 0 <= i < old(flock)@.len() ==> #[trigger] final(flock)@[i].wf_loose(),
        forall|i: int| 0 <= i < old(flock)@.len() ==> #[trigger] final(flock)@[i].id == old(flock)@[i].id,
{
    let ghost start = flock@;
    let mut i: usize = 0;
    while i < flock.len()
        invariant
            0 <= i <= flock.len(),
            flock@.len() == start.len(),
            dt <= DT_LIMIT,
            flock_wf(start),
            forall|k: int| i <= k < start.len() ==> #[trigger] flock@[k] == start[k],
            forall|k: int| 0 <= k < i ==> wandered_from(start[k], #[trigger] flock@[k], dt),
            forall|k: int| 0 <= k < i ==> #[trigger] flock@[k].wf_loose(),
            forall|k: int| 0 <= k < i ==> #[trigger] flock@[k].id == start[k].id,
        decreases start.len() - i,
    {
        let mut e = flock[i];
        assert(start[i as int].wf());
        e.wander(dt);
        assert(wandered_from(start[i as int], e, dt));
        flock.set(i, e);
        i = i + 1;
    }
}

pub open spec fn clamped(e: SheepEntity) -> SheepEntity {
    SheepEntity { position: e.bounds.clamp_spec(e.position), ..e }
}

/// Brings every sheep back inside its bounds.
pub fn bounds_check(flock: &mut Vec<SheepEntity>)
    requires
        forall|i: int| 0 <= i < old(flock)@.len() ==> #[trigger] old(flock)@[i].wf_loose(),
    ensures
        final(flock)@ == old(flock)@.map_values(|e: SheepEntity| clamped(e)),
        flock_wf(final(flock)@),
{
    let ghost start = flock@;
    let mut i: usize = 0;
    while i < flock.len()
        invariant
            0 <= i <= flock.len(),
            flock@.len() == start.len(),
            forall|k: int| 0 <= k < start.len() ==> #[trigger] start[k].wf_loose(),
            forall|k: int| i <= k < start.len() ==> #[trigger] flock@[k] == start[k],
            forall|k: int| 0 <= k < i ==> #[trigger] flock@[k] == clamped(start[k]),
            forall|k: int| 0 <= k < i ==> #[trigger] flock@[k].wf(),
        decreases start.len() - i,
    {
        let mut e = flock[i];
        assert(start[i as int].wf_loose());
        e.position = e.bounds.clamp(e.position);
        flock.set(i, e);
        i = i + 1;
    }
    assert(flock@ =~= start.map_values(|e: SheepEntity| clamped(e)));
}

/// Picks up the sheep nearest to `point` within `radius`, if any, by marking
/// it as dragged.
pub fn select_sheep(flock: &mut Vec<SheepEntity>, point: Position, radius: u64)
    requires
        point.in_range(),
        flock_wf(old(flock)@),
    ensures
        final(flock)@ == match nearest(old(flock)@, point, radius) {
            Some(j) => old(flock)@.update(j, SheepEntity { dragged: true, ..old(flock)@[j] }),
            None => old(flock)@,
        },
        flock_wf(final(flock)@),
{
    proof {
        lemma_nearest_in(flock@, point, radius, flock@.len() as int);
    }
    match nearest_sheep(flock, point, radius) {
        Some(j) => {
            let mut e = flock[j];
            e.dragged = true;
            flock.set(j, e);
            assert(forall|i: int| 0 <= i < flock@.len() ==> #[trigger] flock@[i].wf() <== old(flock)@[i].wf());
        },
        None => {},
    }
}

/// The identities of the dragged sheep, in flock order.
pub open spec fn dragged_ids(s: Seq<SheepEntity>) -> Seq<u64>
    decreases s.len(),
{
    if s.len() == 0 {
        Seq::empty()
    } else if s.last().dragged {
        dragged_ids(s.drop_last()).push(s.last().id)
    } else {
        dragged_ids(s.drop_last())
    }
}

/// Ends every drag: clears the marks and returns the identities of the sheep
/// that carried one, in flock order.
pub fn release_sheep(flock: &mut Vec<SheepEntity>) -> (r: Vec<u64>)
    ensures
        r@ == dragged_ids(old(flock)@),
        final(flock)@ == old(flock)@.map_values(|e: SheepEntity| SheepEntity { dragged: false, ..e }),
{
    let ghost start = flock@;
    let mut ids: Vec<u64> = Vec::new();
    let mut i: usize = 0;
    while i < flock.len()
        invariant
            0 <= i <= flock.len(),
            flock@.len() == start.len(),
            ids@ == dragged_ids(start.subrange(0, i as int)),
            forall|k: int| i <= k < start.len() ==> #[trigger] flock@[k] == start[k],
            forall|k: int|
                0 <= k < i ==> #[trigger] flock@[k] == (SheepEntity { dragged: false, ..start[k] }),
        decreases start.len() - i,
    {
        let mut e = flock[i];
        assert(start.subrange(0, i + 1).drop_last() =~= start.subrange(0, i as int));
        if e.dragged {
            ids.push(e.id);
        }
        e.dragged = false;
        flock.set(i, e);
        i = i + 1;
    }
    assert(start.subrange(0, start.len() as int) =~= start);
    assert(flock@ =~= start.map_values(|e: SheepEntity| SheepEntity { dragged: false, ..e }));
    ids
}

/// `w` is a fresh controller for a newborn sheep: either mode, with drawn dwell
/// time and direction.
pub open spec fn is_fresh(w: Wander) -> bool {
    exists|state: WanderState, d: int, x: int, y: int|
        draws_ok(MAX_WANDER_TIME_DEVIANCE_PERMILLE, d, x, y) && w == drawn(
            WANDER_TIME_MS,
            IDLE_TIME_MS,
            MAX_WANDER_TIME_DEVIANCE_PERMILLE,
            state,
            d,
            x,
            y,
        )
}

/// A newborn sheep with the given controller.
pub open spec fn newborn(id: u64, position: Position, sheep: Sheep, bounds: Bounds, wander: Wander)
    -> SheepEntity {
    SheepEntity {
        id,
        sheep,
        position,
        health: SHEEP_HEALTH,
        speed: Speed(SHEEP_WANDER_SPEED),
        wander,
        bounds,
        dragged: false,
    }
}

/// A fresh controller for a newborn sheep, in a mode chosen by a coin toss.
pub fn fresh_wander() -> (r: Wander)
    ensures
        is_fresh(r),
        r.wf(),
{
    let state = if random_flag() {
        WanderState::Wandering
    } else {
        WanderState::Idling
    };
    Wander::new(WANDER_TIME_MS, IDLE_TIME_MS, MAX_WANDER_TIME_DEVIANCE_PERMILLE, state)
}

/// A newborn sheep: full health, the wander speed, and a fresh controller in a
/// mode chosen by a coin toss.
pub fn spawn_sheep(id: u64, position: Position, sheep: Sheep, bounds: Bounds) -> (r: SheepEntity)
    requires
        bounds.wf(),
        bounds.contains(position),
    ensures
        r == newborn(id, position, sheep, bounds, r.wander),
        is_fresh(r.wander),
        r.wf(),
{
    let wander = fresh_wander();
    SheepEntity {
        id,
        sheep,
        position,
        health: SHEEP_HEALTH,
        speed: Speed(SHEEP_WANDER_SPEED),
        wander,
        bounds,
        dragged: false,
    }
}

/// The pen the starting flock is scattered over and kept in.
pub open spec fn pen_spec() -> Bounds {
    Bounds {
        x_min: (-X_MAX_POS_OFFSET) as i64,
        x_max: X_MAX_POS_OFFSET,
        y_min: (-Y_MAX_POS_OFFSET) as i64,
        y_max: Y_MAX_POS_OFFSET,
    }
}

pub fn pen() -> (r: Bounds)
    ensures
        r == pen_spec(),
        r.wf(),
{
    Bounds {
        x_min: -X_MAX_POS_OFFSET,
        x_max: X_MAX_POS_OFFSET,
        y_min: -Y_MAX_POS_OFFSET,
        y_max: Y_MAX_POS_OFFSET,
    }
}

/// `s` is a starting flock: `COUNT_INIT_SHEEP` unmerged newborn sheep with
/// the identities `first_id, first_id + 1, ...` and fresh controllers, in the pen.
pub open spec fn starting_flock(s: Seq<SheepEntity>, first_id: u64) -> bool {
    &&& s.len() == COUNT_INIT_SHEEP
    &&& forall|i: int|
        0 <= i < s.len() ==> #[trigger] s[i] == newborn(
            (first_id + i) as u64,
            s[i].position,
            Sheep { state: 0 },
            pen_spec(),
            s[i].wander,
        ) && is_fresh(s[i].wander) && pen_spec().contains(s[i].position)
}

/// The starting flock: `COUNT_INIT_SHEEP` unmerged newborn sheep with the
/// identities `first_id, first_id + 1, ...`, scattered at random over the pen.
pub fn init_sheep(first_id: u64) -> (r: Vec<SheepEntity>)
    requires
        first_id + COUNT_INIT_SHEEP <= u64::MAX,
    ensures
        starting_flock(r@, first_id),
        flock_wf(r@),
{
    let bounds = pen();
    let mut flock: Vec<SheepEntity> = Vec::new();
    let mut i: usize = 0;
    while i < COUNT_INIT_SHEEP
        invariant
            0 <= i <= COUNT_INIT_SHEEP,
            flock@.len() == i,
            bounds == pen_spec(),
            first_id + COUNT_INIT_SHEEP <= u64::MAX,
            flock_wf(flock@),
            forall|k: int|
                0 <= k < i ==> #[trigger] flock@[k] == newborn(
                    (first_id + k) as u64,
                    flock@[k].position,
                    Sheep { state: 0 },
                    pen_spec(),
                    flock@[k].wander,
                ) && is_fresh(flock@[k].wander) && pen_spec().contains(flock@[k].position),
        decreases COUNT_INIT_SHEEP - i,
    {
        let x = random_in(-X_MAX_POS_OFFSET, X_MAX_POS_OFFSET);
        let y = random_in(-Y_MAX_POS_OFFSET, Y_MAX_POS_OFFSET);
        let e = spawn_sheep(first_id + i as u64, Position { x, y }, Sheep::new(0), bounds);
        flock.push(e);
        i = i + 1;
    }
    flock
}

/// Index of the first of the first `n` sheep with identity `id`.
pub open spec fn index_in(s: Seq<SheepEntity>, id: u64, n: int) -> Option<int>
    decreases n,
{
    if n <= 0 {
        None
    } else {
        match index_in(s, id, n - 1) {
            Some(k) => Some(k),
            None => if s[n - 1].id == id {
                Some(n - 1)
            } else {
                None
            },
        }
    }
}

/// Index of the first of the first `n` sheep that is not `id` and lies within
/// `scale` of `p`.
pub open spec fn partner_in(s: Seq<SheepEntity>, id: u64, p: Position, scale: u64, n: int) -> Option<
    int,
>
    decreases n,
{
    if n <= 0 {
        None
    } else {
        match partner_in(s, id, p, scale, n - 1) {
            Some(k) => Some(k),
            None => if s[n - 1].id != id && within(p, s[n - 1].position, scale) {
                Some(n - 1)
            } else {
                None
            },
        }
    }
}

proof fn lemma_index_in(s: Seq<SheepEntity>, id: u64, n: int)
    requires
        0 <= n <= s.len(),
    ensures
        match index_in(s, id, n) {
            Some(k) => 0 <= k < n && s[k].id == id,
            None => true,
        },
    decreases n,
{
    if n > 0 {
        lemma_index_in(s, id, n - 1);
    }
}

proof fn lemma_partner_in(s: Seq<SheepEntity>, id: u64, p: Position, scale: u64, n: int)
    requires
        0 <= n <= s.len(),
    ensures
        match partner_in(s, id, p, scale, n) {
            Some(k) => 0 <= k < n && s[k].id != id,
            None => true,
        },
    decreases n,
{
    if n > 0 {
        lemma_partner_in(s, id, p, scale, n - 1);
    }
}

/// The pair of a merge on the release of sheep `id`: the released sheep (the
/// first with that identity) and the first other sheep within `scale` of it.
pub open spec fn merge_pair(s: Seq<SheepEntity>, id: u64, scale: u64) -> Option<(int, int)> {
    match index_in(s, id, s.len() as int) {
        None => None,
        Some(r) => match partner_in(s, id, s[r].position, scale, s.len() as int) {
            None => None,
            Some(c) => Some((r, c)),
        },
    }
}

/// The merge count of a sheep born of a merge, at most 255.
pub open spec fn next_level(state: u8) -> u8 {
    if state < 255 {
        (state + 1) as u8
    } else {
        255
    }
}

/// The flock after sheep `r` and `c` are replaced by `born`, added last.
pub open spec fn merged(s: Seq<SheepEntity>, r: int, c: int, born: SheepEntity) -> Seq<SheepEntity> {
    if r < c {
        s.remove(c).remove(r).push(born)
    } else {
        s.remove(r).remove(c).push(born)
    }
}

/// The sheep born of merging the released sheep `r` onto sheep `c`: it stands
/// where `c` stood, inside `c`'s bounds, with one merge more than `r`.
pub open spec fn merge_child(s: Seq<SheepEntity>, r: int, c: int, new_id: u64, wander: Wander)
    -> SheepEntity {
    newborn(new_id, s[c].position, Sheep { state: next_level(s[r].sheep.state) }, s[c].bounds, wander)
}

/// Finds the pair of a merge on the release of sheep `id`.
pub fn find_merge(flock: &Vec<SheepEntity>, id: u64, scale: u64) -> (r: Option<(usize, usize)>)
    requires
        flock_wf(flock@),
    ensures
        match r {
            None => merge_pair(flock@, id, scale) is None,
            Some((a, b)) => merge_pair(flock@, id, scale) == Some((a as int, b as int)),
        },
{
    let mut found: Option<usize> = None;
    let mut i: usize = 0;
    while i < flock.len()
        invariant
            0 <= i <= flock.len(),
            as_int(found) == index_in(flock@, id, i as int),
            match found {
                Some(k) => k < flock.len(),
                None => true,
            },
        decreases flock.len() - i,
    {
        if found.is_none() && flock[i].id == id {
            found = Some(i);
        }
        i = i + 1;
    }
    let r = match found {
        None => {
            return None;
        },
        Some(r) => r,
    };
    let p = flock[r].position;
    assert(flock@[r as int].wf());
    let mut partner: Option<usize> = None;
    let mut j: usize = 0;
    while j < flock.len()
        invariant
            0 <= j <= flock.len(),
            r < flock.len(),
            p == flock@[r as int].position,
            p.in_range(),
            flock_wf(flock@),
            as_int(partner) == partner_in(flock@, id, p, scale, j as int),
            match partner {
                Some(k) => k < flock.len(),
                None => true,
            },
        decreases flock.len() - j,
    {
        if partner.is_none() && flock[j].id != id {
            assert(flock@[j as int].wf());
            if is_within(p, flock[j].position, scale) {
                partner = Some(j);
            }
        }
        j = j + 1;
    }
    match partner {
        None => None,
        Some(c) => Some((r, c)),
    }
}

/// Replaces sheep `r` and `c` by `born`, which goes last.
fn replace_pair(flock: &mut Vec<SheepEntity>, r: usize, c: usize, born: SheepEntity)
    requires
        r < old(flock)@.len(),
        c < old(flock)@.len(),
        r != c,
    ensures
        final(flock)@ == merged(old(flock)@, r as int, c as int, born),
{
    if r < c {
        flock.remove(c);
        flock.remove(r);
    } else {
        flock.remove(r);
        flock.remove(c);
    }
    flock.push(born);
}

proof fn lemma_merged_wf(s: Seq<SheepEntity>, r: int, c: int, born: SheepEntity)
    requires
        flock_wf(s),
        0 <= r < s.len(),
        0 <= c < s.len(),
        r != c,
        born.wf(),
    ensures
        flock_wf(merged(s, r, c, born)),
        merged(s, r, c, born).len() == s.len() - 1,
        ids_unique(s) && ids_below(s, born.id) && born.id < u64::MAX ==> ids_unique(
            merged(s, r, c, born),
        ) && ids_below(merged(s, r, c, born), (born.id + 1) as u64),
{
    let m = merged(s, r, c, born);
    let (a, b) = if r < c { (r, c) } else { (c, r) };
    let src = |i: int| if i < a { i } else if i < b - 1 { i + 1 } else { i + 2 };
    assert forall|i: int| 0 <= i < m.len() - 1 implies m[i] == s[src(i)] && 0 <= src(i) < s.len() by {
    }
    assert forall|i: int| 0 <= i < m.len() implies #[trigger] m[i].wf() by {
        if i < m.len() - 1 {
            assert(m[i] == s[src(i)]);
        }
    }
    if ids_unique(s) && ids_below(s, born.id) && born.id < u64::MAX {
        assert forall|i: int, j: int| 0 <= i < j < m.len() implies #[trigger] m[i].id
            != #[trigger] m[j].id by {
            assert(m[i] == s[src(i)]);
            if j < m.len() - 1 {
                assert(m[j] == s[src(j)]);
                assert(src(i) < src(j));
            } else {
                assert(s[src(i)].id < born.id);
            }
        }
        assert forall|i: int| 0 <= i < m.len() implies #[trigger] m[i].id < born.id + 1 by {
            if i < m.len() - 1 {
                assert(m[i] == s[src(i)]);
            }
        }
    }
}

/// Merges on the release of sheep `id`, with the controller of the newborn
/// given. When the released sheep is in the flock and another sheep lies
/// within `scale` of it, both are replaced by one sheep (see `merge_child`) and
/// the flock shrinks by one; otherwise nothing changes.
pub fn merge_with(flock: &mut Vec<SheepEntity>, id: u64, scale: u64, new_id: u64, wander: Wander) -> (merged_any: bool)
    requires
        flock_wf(old(flock)@),
        wander.wf(),
    ensures
        merged_any == merge_pair(old(flock)@, id, scale) is Some,
        match merge_pair(old(flock)@, id, scale) {
            None => final(flock)@ == old(flock)@,
            Some((r, c)) => final(flock)@ == merged(
                old(flock)@,
                r,
                c,
                merge_child(old(flock)@, r, c, new_id, wander),
            ),
        },
        merged_any ==> final(flock)@.len() == old(flock)@.len() - 1,
        flock_wf(final(flock)@),
        ids_unique(old(flock)@) && ids_below(old(flock)@, new_id) && new_id < u64::MAX
            ==> ids_unique(final(flock)@) && ids_below(final(flock)@, (new_id + 1) as u64),
{
    proof {
        lemma_index_in(flock@, id, flock@.len() as int);
    }
    match find_merge(flock, id, scale) {
        None => false,
        Some((r, c)) => {
            proof {
                lemma_partner_in(flock@, id, flock@[r as int].position, scale, flock@.len() as int);
            }
            assert(flock@[c as int].wf());
            let born = SheepEntity {
                id: new_id,
                sheep: Sheep { state: if flock[r].sheep.state < 255 { flock[r].sheep.state + 1 } else { 255 } },
                position: flock[c].position,
                health: SHEEP_HEALTH,
                speed: Speed(SHEEP_WANDER_SPEED),
                wander,
                bounds: flock[c].bounds,
                dragged: false,
            };
            proof {
                lemma_merged_wf(flock@, r as int, c as int, born);
            }
            replace_pair(flock, r, c, born);
            true
        },
    }
}

/// `s2` is what the release of sheep `id` may make of the flock `s`, whatever
/// controller was drawn for the newborn of a merge.
pub open spec fn dropped(s: Seq<SheepEntity>, id: u64, scale: u64, new_id: u64, s2: Seq<SheepEntity>) -> bool {
    match merge_pair(s, id, scale) {
        None => s2 == s,
        Some((r, c)) => exists|w: Wander|
            is_fresh(w) && s2 == merged(s, r, c, merge_child(s, r, c, new_id, w)),
    }
}

/// Merges on the release of sheep `id`: as `merge_with`, with a newborn whose
/// controller is freshly drawn.
pub fn drop_sheep(flock: &mut Vec<SheepEntity>, id: u64, scale: u64, new_id: u64) -> (merged_any: bool)
    requires
        flock_wf(old(flock)@),
    ensures
        merged_any == merge_pair(old(flock)@, id, scale) is Some,
        dropped(old(flock)@, id, scale, new_id, final(flock)@),
        merged_any ==> final(flock)@.len() == old(flock)@.len() - 1,
        flock_wf(final(flock)@),
        ids_unique(old(flock)@) && ids_below(old(flock)@, new_id) && new_id < u64::MAX
            ==> ids_unique(final(flock)@) && ids_below(final(flock)@, (new_id + 1) as u64),
{
    let wander = fresh_wander();
    merge_with(flock, id, scale, new_id, wander)
}

} // verus!
