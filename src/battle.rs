//! War machines, the pursuit and attack of sheep, the removal of dead sheep and
//! the end of a battle.
use crate::geometry::{
    dist_sq, is_within, root, step_toward, step_toward_spec, travel, travel_spec, within, Bounds,
    Position, DT_LIMIT, SPEED_LIMIT,
};
use crate::random::random_in;
use crate::sheep::{
    flock_wf, ids_below, ids_unique, lemma_nearest_in, lemma_nearest_positions, nearest,
    nearest_sheep, SheepEntity, Speed,
};
pub use crate::world::BattlePlugin;
use vstd::prelude::*;

verus! {

/// Left and right edges of the battlefield, in milli-units.
pub const BATTLEFIELD_X_MIN: i64 = -6200;

pub const BATTLEFIELD_X_MAX: i64 = 6200;

/// Bottom and top edges of the battlefield, in milli-units.
pub const BATTLEFIELD_Y_MIN: i64 = -6400;

pub const BATTLEFIELD_Y_MAX: i64 = 7000;

/// How a war machine picks and follows its prey.
#[derive(Clone, Copy, Debug, PartialEq, Eq, Structural)]
pub enum PursuitType {
    /// Heads straight for the nearest sheep in sight.
    ChasingClosest,
}

/// A hostile machine that hunts sheep during a battle.
///
/// `spotting_range` and `attack_range` are radii in milli-units; a sheep in
/// attack range loses `attack_value` health per tick.
#[derive(Clone, Copy, Debug, PartialEq, Eq, Structural)]
pub struct WarMachine {
    pub id: u64,
    pub position: Position,
    pub speed: Speed,
    pub health: i64,
    pub attack_range: u64,
    pub attack_value: i64,
    pub spotting_range: u64,
    pub pursuit: PursuitType,
    pub bounds: Bounds,
}

/// The difficulty level; it selects the layout of war machines.
#[derive(Clone, Copy, Debug, PartialEq, Eq, Structural)]
pub struct Level(pub usize);

/// The overall phase of the game.
#[derive(Clone, Copy, Debug, PartialEq, Eq, Structural)]
pub enum GameState {
    Herding,
    Battle,
}

/// The phase and the level, as read and written by the battle controller.
#[derive(Clone, Copy, Debug, PartialEq, Eq, Structural)]
pub struct PhaseState {
    pub state: GameState,
    pub level: Level,
}

impl WarMachine {
    pub open spec fn wf_loose(self) -> bool {
        self.bounds.wf() && self.speed.0 <= SPEED_LIMIT && -2 * crate::geometry::COORD_LIMIT
            <= self.position.x <= 2 * crate::geometry::COORD_LIMIT && -2
            * crate::geometry::COORD_LIMIT <= self.position.y <= 2 * crate::geometry::COORD_LIMIT
    }

    pub open spec fn wf(self) -> bool {
        self.wf_loose() && self.bounds.contains(self.position)
    }
}

pub open spec fn machines_wf(ms: Seq<WarMachine>) -> bool {
    forall|i: int| 0 <= i < ms.len() ==> #[trigger] ms[i].wf()
}

/// Health after a blow of `a`, saturating at the bounds of `i64`.
pub open spec fn hit(h: i64, a: i64) -> i64 {
    if h - a < i64::MIN {
        i64::MIN
    } else if h - a > i64::MAX {
        i64::MAX
    } else {
        (h - a) as i64
    }
}

fn hit_exec(h: i64, a: i64) -> (r: i64)
    ensures
        r == hit(h, a),
{
    if a >= 0 {
        if h >= i64::MIN + a {
            h - a
        } else {
            i64::MIN
        }
    } else {
        if h <= i64::MAX + a {
            h - a
        } else {
            i64::MAX
        }
    }
}

/// The sheep a war machine goes for: the nearest in its spotting range. A
/// machine with a spotting range of zero never engages.
pub open spec fn target(flock: Seq<SheepEntity>, m: WarMachine) -> Option<int> {
    if m.spotting_range == 0 {
        None
    } else {
        nearest(flock, m.position, m.spotting_range)
    }
}

/// The war machine after it moves `dt` milliseconds towards its target.
pub open spec fn pursued(m: WarMachine, flock: Seq<SheepEntity>, dt: u64) -> WarMachine {
    match target(flock, m) {
        None => m,
        Some(j) => match m.pursuit {
            PursuitType::ChasingClosest => WarMachine {
                position: step_toward_spec(
                    m.position,
                    flock[j].position,
                    travel_spec(m.speed.0, dt),
                ),
                ..m
            },
        },
    }
}

/// The flock after war machine `m` strikes its target, if the target is in
/// attack range.
pub open spec fn attacked(flock: Seq<SheepEntity>, m: WarMachine) -> Seq<SheepEntity> {
    match target(flock, m) {
        None => flock,
        Some(j) => if within(m.position, flock[j].position, m.attack_range) {
            flock.update(j, SheepEntity { health: hit(flock[j].health, m.attack_value), ..flock[j] })
        } else {
            flock
        },
    }
}

/// The flock after the first `k` war machines strike, in order.
pub open spec fn after_attacks(flock: Seq<SheepEntity>, ms: Seq<WarMachine>, k: int) -> Seq<
    SheepEntity,
>
    decreases k,
{
    if k <= 0 {
        flock
    } else {
        attacked(after_attacks(flock, ms, k - 1), ms[k - 1])
    }
}

/// Every war machine, in order, picks the nearest sheep in its spotting range,
/// strikes it if it is in attack range, and moves towards it at its speed.
/// Machines with no sheep in sight, or with a spotting range of zero, neither
/// move nor strike.
pub fn move_and_attack(flock: &mut Vec<SheepEntity>, war_machines: &mut Vec<WarMachine>, dt: u64)
    requires
        flock_wf(old(flock)@),
        machines_wf(old(war_machines)@),
        dt <= DT_LIMIT,
    ensures
        final(flock)@ == after_attacks(old(flock)@, old(war_machines)@, old(war_machines)@.len() as int),
        flock_wf(final(flock)@),
        final(flock)@.len() == old(flock)@.len(),
        forall|k: int| 0 <= k < old(flock)@.len() ==> #[trigger] final(flock)@[k].id == old(flock)@[k].id,
        final(war_machines)@.len() == old(war_machines)@.len(),
        forall|i: int|
            0 <= i < old(war_machines)@.len() ==> #[trigger] final(war_machines)@[i] == pursued(
                old(war_machines)@[i],
                old(flock)@,
                dt,
            ),
        forall|i: int| 0 <= i < old(war_machines)@.len() ==> #[trigger] final(war_machines)@[i].wf_loose(),
{
    let ghost start = flock@;
    let ghost ms = war_machines@;
    let mut i: usize = 0;
    while i < war_machines.len()
        invariant
            0 <= i <= war_machines.len(),
            war_machines@.len() == ms.len(),
            dt <= DT_LIMIT,
            machines_wf(ms),
            flock_wf(flock@),
            flock@ == after_attacks(start, ms, i as int),
            flock@.len() == start.len(),
            forall|k: int| 0 <= k < start.len() ==> #[trigger] flock@[k].position == start[k].position,
            forall|k: int| 0 <= k < start.len() ==> #[trigger] flock@[k].id == start[k].id,
            forall|k: int| i <= k < ms.len() ==> #[trigger] war_machines@[k] == ms[k],
            forall|k: int| 0 <= k < i ==> #[trigger] war_machines@[k] == pursued(ms[k], start, dt),
            forall|k: int| 0 <= k < i ==> #[trigger] war_machines@[k].wf_loose(),
        decreases ms.len() - i,
    {
        let mut m = war_machines[i];
        assert(ms[i as int].wf());
        let ghost before = flock@;
        proof {
            lemma_nearest_positions(flock@, start, m.position, m.spotting_range, start.len() as int);
            lemma_nearest_in(flock@, m.position, m.spotting_range, flock@.len() as int);
        }
        let found = if m.spotting_range == 0 {
            None
        } else {
            nearest_sheep(flock, m.position, m.spotting_range)
        };
        match found {
            None => {},
            Some(j) => {
                let mut prey = flock[j];
                assert(before[j as int].wf());
                if is_within(m.position, prey.position, m.attack_range) {
                    prey.health = hit_exec(prey.health, m.attack_value);
                    flock.set(j, prey);
                }
                match m.pursuit {
                    PursuitType::ChasingClosest => {
                        let step = travel(m.speed.0, dt);
                        m.position = step_toward(m.position, prey.position, step);
                    },
                }
            },
        }
        war_machines.set(i, m);
        assert(flock@ == attacked(before, ms[i as int]));
        i = i + 1;
    }
}

/// The sheep that are still alive.
pub open spec fn alive(e: SheepEntity) -> bool {
    e.health > 0
}

/// Removes every sheep whose health has dropped to zero or below, keeping the
/// order of the others.
pub fn remove_dead_sheep(flock: &mut Vec<SheepEntity>)
    ensures
        final(flock)@ == old(flock)@.filter(|e: SheepEntity| alive(e)),
        forall|i: int| 0 <= i < final(flock)@.len() ==> #[trigger] final(flock)@[i].health > 0,
        flock_wf(old(flock)@) ==> flock_wf(final(flock)@),
        ids_unique(old(flock)@) ==> ids_unique(final(flock)@),
        forall|n: u64| ids_below(old(flock)@, n) ==> #[trigger] ids_below(final(flock)@, n),
{
    let ghost start = flock@;
    let ghost mut src: Seq<int> = Seq::empty();
    let mut kept: Vec<SheepEntity> = Vec::new();
    let mut i: usize = 0;
    while i < flock.len()
        invariant
            0 <= i <= flock.len(),
            flock@ == start,
            kept@ == start.subrange(0, i as int).filter(|e: SheepEntity| alive(e)),
            src.len() == kept@.len(),
            forall|k: int| 0 <= k < src.len() ==> 0 <= #[trigger] src[k] < i && kept@[k] == start[src[k]],
            forall|k: int, l: int| 0 <= k < l < src.len() ==> #[trigger] src[k] < #[trigger] src[l],
        decreases start.len() - i,
    {
        proof {
            reveal(Seq::filter);
            assert(start.subrange(0, i + 1).drop_last() =~= start.subrange(0, i as int));
        }
        if flock[i].health > 0 {
            kept.push(flock[i]);
            proof {
                src = src.push(i as int);
            }
        }
        i = i + 1;
    }
    proof {
        assert(start.subrange(0, start.len() as int) =~= start);
        let f = start.filter(|e: SheepEntity| alive(e));
        assert forall|k: int| 0 <= k < f.len() implies #[trigger] f[k].health > 0 && (flock_wf(
            start,
        ) ==> f[k].wf()) by {
            assert(f[k] == start[src[k]]);
            start.lemma_filter_pred(|e: SheepEntity| alive(e), k);
        }
        if ids_unique(start) {
            assert forall|k: int, l: int| 0 <= k < l < f.len() implies #[trigger] f[k].id
                != #[trigger] f[l].id by {
                assert(src[k] < src[l]);
                assert(f[k] == start[src[k]]);
                assert(f[l] == start[src[l]]);
            }
        }
        assert forall|n: u64| ids_below(start, n) implies #[trigger] ids_below(f, n) by {
            assert forall|k: int| 0 <= k < f.len() implies #[trigger] f[k].id < n by {
                assert(f[k] == start[src[k]]);
            }
        }
    }
    *flock = kept;
}

/// When every sheep is alive, removing the dead keeps the flock as it is.
proof fn lemma_all_alive_kept(s: Seq<SheepEntity>)
    requires
        forall|i: int| 0 <= i < s.len() ==> #[trigger] s[i].health > 0,
    ensures
        s.filter(|e: SheepEntity| alive(e)) == s,
    decreases s.len(),
{
    reveal(Seq::filter);
    if s.len() > 0 {
        lemma_all_alive_kept(s.drop_last());
        assert(s.drop_last().push(s.last()) =~= s);
    }
}

/// A flock with exactly one dead sheep loses exactly one sheep when the dead
/// are removed.
pub proof fn lemma_one_dead_one_removed(s: Seq<SheepEntity>, k: int)
    requires
        0 <= k < s.len(),
        s[k].health <= 0,
        forall|i: int| 0 <= i < s.len() && i != k ==> #[trigger] s[i].health > 0,
    ensures
        s.filter(|e: SheepEntity| alive(e)).len() == s.len() - 1,
    decreases s.len(),
{
    reveal(Seq::filter);
    let d = s.drop_last();
    if k == s.len() - 1 {
        assert forall|i: int| 0 <= i < d.len() implies #[trigger] d[i].health > 0 by {
            assert(d[i] == s[i]);
        }
        lemma_all_alive_kept(d);
    } else {
        assert forall|i: int| 0 <= i < d.len() && i != k implies #[trigger] d[i].health > 0 by {
            assert(d[i] == s[i]);
        }
        lemma_one_dead_one_removed(d, k);
    }
}

/// The phase after the end-of-battle check, with `n_sheep` sheep and
/// `n_machines` war machines left: a battle ends when either side is gone, and
/// a battle won (no war machine left) raises the level by one.
pub open spec fn end_checked(ps: PhaseState, n_sheep: nat, n_machines: nat) -> PhaseState {
    if ps.state == GameState::Battle && (n_sheep == 0 || n_machines == 0) {
        PhaseState {
            state: GameState::Herding,
            level: if n_machines == 0 {
                Level((ps.level.0 + 1) as usize)
            } else {
                ps.level
            },
        }
    } else {
        ps
    }
}

/// Ends a battle in which either side is gone; the level goes up by one when
/// the war machines are the side that is gone.
pub fn check_end_battle(ps: PhaseState, n_sheep: usize, n_machines: usize) -> (r: PhaseState)
    requires
        ps.level.0 < usize::MAX,
    ensures
        r == end_checked(ps, n_sheep as nat, n_machines as nat),
{
    if ps.state == GameState::Battle && (n_sheep == 0 || n_machines == 0) {
        PhaseState {
            state: GameState::Herding,
            level: if n_machines == 0 {
                Level(ps.level.0 + 1)
            } else {
                ps.level
            },
        }
    } else {
        ps
    }
}

/// The end-of-battle check is idempotent: a second check with the same
/// populations changes nothing more, so the level is raised at most once.
pub proof fn lemma_check_end_battle_idempotent(ps: PhaseState, n_sheep: nat, n_machines: nat)
    ensures
        end_checked(end_checked(ps, n_sheep, n_machines), n_sheep, n_machines) == end_checked(
            ps,
            n_sheep,
            n_machines,
        ),
{
}

/// Destroys every war machine; run when a battle ends, whatever ended it.
pub fn despawn_war_machines(war_machines: &mut Vec<WarMachine>)
    ensures
        final(war_machines)@.len() == 0,
{
    war_machines.clear();
}

pub open spec fn battlefield_spec() -> Bounds {
    Bounds {
        x_min: BATTLEFIELD_X_MIN,
        x_max: BATTLEFIELD_X_MAX,
        y_min: BATTLEFIELD_Y_MIN,
        y_max: BATTLEFIELD_Y_MAX,
    }
}

/// The rectangle war machines are kept in.
pub fn battlefield() -> (r: Bounds)
    ensures
        r == battlefield_spec(),
        r.wf(),
{
    Bounds {
        x_min: BATTLEFIELD_X_MIN,
        x_max: BATTLEFIELD_X_MAX,
        y_min: BATTLEFIELD_Y_MIN,
        y_max: BATTLEFIELD_Y_MAX,
    }
}

/// A war machine at `position`, kept in the battlefield, with no speed, health
/// or weapons yet and the nearest-sheep pursuit.
pub fn new_war_machine(id: u64, position: Position) -> (r: WarMachine)
    ensures
        r == (WarMachine {
            id,
            position,
            speed: Speed(0),
            health: 0,
            attack_range: 0,
            attack_value: 0,
            spotting_range: 0,
            pursuit: PursuitType::ChasingClosest,
            bounds: battlefield_spec(),
        }),
{
    WarMachine {
        id,
        position,
        speed: Speed(0),
        health: 0,
        attack_range: 0,
        attack_value: 0,
        spotting_range: 0,
        pursuit: PursuitType::ChasingClosest,
        bounds: battlefield(),
    }
}

/// The war machine of the first level, at `position`: speed 6 units/s, health
/// 10, a blow of 1 within 1 unit, and a sight of 1000 units.
pub open spec fn level1_machine(id: u64, position: Position) -> WarMachine {
    WarMachine {
        id,
        position,
        speed: Speed(6000),
        health: 10,
        attack_range: 1000,
        attack_value: 1,
        spotting_range: 1_000_000,
        pursuit: PursuitType::ChasingClosest,
        bounds: battlefield_spec(),
    }
}

/// The first level: one war machine at a random point of the battlefield.
pub fn setup_level1(first_id: u64) -> (r: Vec<WarMachine>)
    ensures
        r@.len() == 1,
        r@[0] == level1_machine(first_id, r@[0].position),
        battlefield_spec().contains(r@[0].position),
        machines_wf(r@),
{
    let x = random_in(BATTLEFIELD_X_MIN, BATTLEFIELD_X_MAX);
    let y = random_in(BATTLEFIELD_Y_MIN, BATTLEFIELD_Y_MAX);
    let mut m = new_war_machine(first_id, Position { x, y });
    m.speed = Speed(6000);
    m.health = 10;
    m.attack_value = 1;
    m.attack_range = 1000;
    m.spotting_range = 1_000_000;
    m.pursuit = PursuitType::ChasingClosest;
    let mut r: Vec<WarMachine> = Vec::new();
    r.push(m);
    r
}

/// The second level has no war machines yet.
pub fn setup_level2(first_id: u64) -> (r: Vec<WarMachine>)
    ensures
        r@.len() == 0,
{
    Vec::new()
}

/// The war machines of `level`. Only levels 1 and 2 exist; asking for another
/// is a configuration error that callers must not make.
pub fn init_level(level: &Level, first_id: u64) -> (r: Vec<WarMachine>)
    requires
        level.0 == 1 || level.0 == 2,
    ensures
        level.0 == 1 ==> r@.len() == 1 && r@[0] == level1_machine(first_id, r@[0].position)
            && battlefield_spec().contains(r@[0].position),
        level.0 == 2 ==> r@.len() == 0,
        machines_wf(r@),
{
    if level.0 == 1 {
        setup_level1(first_id)
    } else {
        setup_level2(first_id)
    }
}

pub open spec fn machine_clamped(m: WarMachine) -> WarMachine {
    WarMachine { position: m.bounds.clamp_spec(m.position), ..m }
}

/// Brings every war machine back inside its bounds.
pub fn bounds_check_machines(war_machines: &mut Vec<WarMachine>)
    requires
        forall|i: int| 0 <= i < old(war_machines)@.len() ==> #[trigger] old(war_machines)@[i].wf_loose(),
    ensures
        final(war_machines)@ == old(war_machines)@.map_values(|m: WarMachine| machine_clamped(m)),
        machines_wf(final(war_machines)@),
{
    let ghost start = war_machines@;
    let mut i: usize = 0;
    while i < war_machines.len()
        invariant
            0 <= i <= war_machines.len(),
            war_machines@.len() == start.len(),
            forall|k: int| 0 <= k < start.len() ==> #[trigger] start[k].wf_loose(),
            forall|k: int| i <= k < start.len() ==> #[trigger] war_machines@[k] == start[k],
            forall|k: int| 0 <= k < i ==> #[trigger] war_machines@[k] == machine_clamped(start[k]),
            forall|k: int| 0 <= k < i ==> #[trigger] war_machines@[k].wf(),
        decreases start.len() - i,
    {
        let mut m = war_machines[i];
        assert(start[i as int].wf_loose());
        m.position = m.bounds.clamp(m.position);
        war_machines.set(i, m);
        i = i + 1;
    }
    assert(war_machines@ =~= start.map_values(|m: WarMachine| machine_clamped(m)));
}

/// On one axis: a coordinate inside `[lo, hi]` that moves towards `t` without
/// passing it, and is then clamped to `[lo, hi]`, is no farther from `t` than
/// before; if `t` is inside `[lo, hi]` the clamp changes nothing.
proof fn lemma_clamp_axis(lo: i64, hi: i64, old: i64, new: i64, t: i64)
    requires
        lo <= old <= hi,
        crate::geometry::between(old as int, new as int, t as int),
    ensures
        (crate::geometry::clamp_int(new, lo, hi) - t) * (crate::geometry::clamp_int(new, lo, hi) - t)
            <= (old - t) * (old - t),
        lo <= t <= hi ==> crate::geometry::clamp_int(new, lo, hi) == new,
{
    let c = crate::geometry::clamp_int(new, lo, hi);
    assert(crate::geometry::between(old as int, c as int, t as int));
    assert((c - t) * (c - t) <= (old - t) * (old - t)) by (nonlinear_arith)
        requires
            (old <= c <= t) || (t <= c <= old),
    ;
}

/// A war machine with a sheep in sight ends its tick, move and clamp included,
/// no farther from the sheep it chases, when its move is no longer than the
/// distance. Before the clamp, and also after it when the sheep stands inside
/// the machine's bounds, it is strictly closer unless it already stood on the
/// sheep or covers no distance in the tick.
pub proof fn lemma_pursuit_converges(flock: Seq<SheepEntity>, m: WarMachine, dt: u64, k: int)
    requires
        flock_wf(flock),
        m.wf(),
        0 <= k < flock.len(),
        m.spotting_range > 0,
        within(m.position, flock[k].position, m.spotting_range),
    ensures
        target(flock, m) is Some,
        ({
            let j = target(flock, m)->0;
            let t = flock[j].position;
            let step = travel_spec(m.speed.0, dt);
            let before = dist_sq(m.position, t);
            let moved = dist_sq(pursued(m, flock, dt).position, t);
            let after = dist_sq(machine_clamped(pursued(m, flock, dt)).position, t);
            step <= root(before) ==> {
                &&& moved <= before
                &&& after <= before
                &&& step > 0 && before > 0 ==> moved < before
                &&& m.bounds.contains(t) ==> after == moved
            }
        }),
{
    lemma_nearest_in(flock, m.position, m.spotting_range, flock.len() as int);
    let j = target(flock, m)->0;
    let t = flock[j].position;
    assert(flock[j].wf());
    assert(flock[k].wf());
    let step = travel_spec(m.speed.0, dt);
    assert(step >= 0) by (nonlinear_arith)
        requires
            step == (m.speed.0 * dt) / 1000,
    ;
    let before = dist_sq(m.position, t);
    if step <= root(before) {
        crate::geometry::lemma_step_toward_approaches(m.position, t, step);
        let p = pursued(m, flock, dt).position;
        let c = machine_clamped(pursued(m, flock, dt)).position;
        assert(dist_sq(p, t) == dist_sq(t, p)) by (nonlinear_arith);
        lemma_clamp_axis(m.bounds.x_min, m.bounds.x_max, m.position.x, p.x, t.x);
        lemma_clamp_axis(m.bounds.y_min, m.bounds.y_max, m.position.y, p.y, t.y);
        assert(dist_sq(c, t) <= dist_sq(m.position, t)) by (nonlinear_arith)
            requires
                (c.x - t.x) * (c.x - t.x) <= (m.position.x - t.x) * (m.position.x - t.x),
                (c.y - t.y) * (c.y - t.y) <= (m.position.y - t.y) * (m.position.y - t.y),
        ;
    }
}

} // verus!
