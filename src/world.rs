//! The whole simulation: the flock, the war machines and the phase, with the
//! per-tick schedules of the herding and battle phases.
use crate::battle::{
    after_attacks, alive, bounds_check_machines, check_end_battle, despawn_war_machines,
    end_checked, init_level, level1_machine, machine_clamped, machines_wf, move_and_attack,
    pursued, remove_dead_sheep, GameState, Level, PhaseState, WarMachine,
};
use crate::geometry::{Position, DT_LIMIT};
use crate::sheep::{
    bounds_check, clamped, dragged_ids, drop_sheep, dropped, flock_wf, ids_below, ids_unique,
    init_sheep, nearest,
    release_sheep, select_sheep, starting_flock, wander, wandered_from, SheepEntity,
    COUNT_INIT_SHEEP, SHEEP_SCALE,
};
use vstd::prelude::*;

verus! {

/// Tag of the group that every sheep belongs to; the presentation layer
/// attaches newborn sheep under it. It carries no data.
#[derive(Clone, Copy, Debug, PartialEq, Eq, Structural)]
pub struct SheepParent;

/// The per-tick schedule of the herding phase.
#[derive(Clone, Copy, Debug, PartialEq, Eq, Structural)]
pub struct SheepPlugin;

/// The per-tick schedule of the battle phase.
#[derive(Clone, Copy, Debug, PartialEq, Eq, Structural)]
pub struct BattlePlugin;

/// The simulated population and the phase it is in.
pub struct World {
    pub flock: Vec<SheepEntity>,
    pub war_machines: Vec<WarMachine>,
    pub phase: PhaseState,
    pub next_id: u64,
}

/// `b` is what one tick of the wander state machine may make of the flock `a`.
pub open spec fn flock_wandered(a: Seq<SheepEntity>, b: Seq<SheepEntity>, dt: u64) -> bool {
    a.len() == b.len() && forall|i: int| 0 <= i < a.len() ==> wandered_from(a[i], #[trigger] b[i], dt)
}

impl World {
    /// Every entity is well formed and inside its bounds, and the sheep have
    /// distinct identities, all below `next_id`.
    pub open spec fn wf(&self) -> bool {
        &&& flock_wf(self.flock@)
        &&& machines_wf(self.war_machines@)
        &&& ids_unique(self.flock@)
        &&& ids_below(self.flock@, self.next_id)
        &&& (self.phase.state == GameState::Battle ==> self.phase.level.0 < usize::MAX)
    }

    /// A fresh game: the starting flock in the pen, no war machine, herding at
    /// level 1.
    pub fn new() -> (r: World)
        ensures
            r.wf(),
            starting_flock(r.flock@, 0),
            r.war_machines@.len() == 0,
            r.phase == (PhaseState { state: GameState::Herding, level: Level(1) }),
            r.next_id == COUNT_INIT_SHEEP,
    {
        let flock = init_sheep(0);
        proof {
            assert forall|i: int, j: int| 0 <= i < j < flock@.len() implies #[trigger] flock@[i].id
                != #[trigger] flock@[j].id by {
                assert(flock@[i].id == i);
                assert(flock@[j].id == j);
            }
            assert forall|i: int| 0 <= i < flock@.len() implies #[trigger] flock@[i].id < COUNT_INIT_SHEEP by {
                assert(flock@[i].id == i);
            }
        }
        World {
            flock,
            war_machines: Vec::new(),
            phase: PhaseState { state: GameState::Herding, level: Level(1) },
            next_id: COUNT_INIT_SHEEP as u64,
        }
    }

    /// The current phase and level.
    pub fn snapshot(&self) -> (r: PhaseState)
        ensures
            r == self.phase,
    {
        self.phase
    }

    /// Starts a battle: the war machines of the current level are set up.
    /// Only levels 1 and 2 are defined; entering another is a configuration
    /// error that callers must not make.
    pub fn enter_battle(&mut self)
        requires
            old(self).wf(),
            old(self).phase.level.0 == 1 || old(self).phase.level.0 == 2,
            old(self).next_id < u64::MAX,
        ensures
            final(self).wf(),
            final(self).phase == (PhaseState { state: GameState::Battle, ..old(self).phase }),
            final(self).flock@ == old(self).flock@,
            final(self).next_id == old(self).next_id + 1,
            old(self).phase.level.0 == 1 ==> final(self).war_machines@.len() == 1
                && final(self).war_machines@[0] == level1_machine(
                old(self).next_id,
                final(self).war_machines@[0].position,
            ),
            old(self).phase.level.0 == 2 ==> final(self).war_machines@.len() == 0,
    {
        self.war_machines = init_level(&self.phase.level, self.next_id);
        self.next_id = self.next_id + 1;
        self.phase.state = GameState::Battle;
        proof {
            lemma_same_ids(old(self).flock@, self.flock@, self.next_id);
        }
    }

    /// Picks up the sheep nearest to `point` within half a sheep's size.
    pub fn select(&mut self, point: Position)
        requires
            old(self).wf(),
            point.in_range(),
        ensures
            final(self).wf(),
            final(self).flock@ == match nearest(old(self).flock@, point, SHEEP_SCALE / 2) {
                Some(j) => old(self).flock@.update(j, SheepEntity { dragged: true, ..old(self).flock@[j] }),
                None => old(self).flock@,
            },
            final(self).war_machines@ == old(self).war_machines@,
            final(self).phase == old(self).phase,
            final(self).next_id == old(self).next_id,
    {
        proof {
            crate::sheep::lemma_nearest_in(old(self).flock@, point, SHEEP_SCALE / 2, old(self).flock@.len() as int);
        }
        select_sheep(&mut self.flock, point, SHEEP_SCALE / 2);
        proof {
            assert forall|i: int| 0 <= i < self.flock@.len() implies #[trigger] self.flock@[i].id
                == old(self).flock@[i].id by {}
            lemma_same_ids(old(self).flock@, self.flock@, self.next_id);
        }
    }

    /// Ends every drag; then each released sheep, in flock order, merges with
    /// the first other sheep it landed on, if any (see `drop_sheep`). The k-th
    /// released sheep's merge gives the newborn the identity `next_id + k`.
    /// Returns the number of merges; each one removes a sheep from the flock.
    pub fn release(&mut self) -> (merges: usize)
        requires
            old(self).wf(),
            old(self).next_id + old(self).flock@.len() <= u64::MAX,
        ensures
            final(self).wf(),
            released_through(
                old(self).flock@.map_values(|e: SheepEntity| SheepEntity { dragged: false, ..e }),
                dragged_ids(old(self).flock@),
                old(self).next_id,
                final(self).flock@,
            ),
            final(self).next_id == old(self).next_id + dragged_ids(old(self).flock@).len(),
            final(self).flock@.len() == old(self).flock@.len() - merges,
            final(self).war_machines@ == old(self).war_machines@,
            final(self).phase == old(self).phase,
    {
        let ids = release_sheep(&mut self.flock);
        let ghost start = self.flock@;
        let ghost first = self.next_id;
        proof {
            assert forall|i: int| 0 <= i < self.flock@.len() implies #[trigger] self.flock@[i].wf() by {
                assert(old(self).flock@[i].wf());
            }
            lemma_dragged_ids_len(old(self).flock@);
            assert forall|i: int| 0 <= i < self.flock@.len() implies #[trigger] self.flock@[i].id
                == old(self).flock@[i].id by {}
            lemma_same_ids(old(self).flock@, self.flock@, self.next_id);
        }
        let ghost mut trace: Seq<Seq<SheepEntity>> = seq![start];
        let mut merges: usize = 0;
        let mut k: usize = 0;
        while k < ids.len()
            invariant
                0 <= k <= ids.len(),
                ids@.len() <= start.len(),
                start.len() == old(self).flock@.len(),
                merges <= k,
                self.flock@.len() == start.len() - merges,
                self.next_id == first + k,
                first + start.len() <= u64::MAX,
                self.wf(),
                self.war_machines@ == old(self).war_machines@,
                self.phase == old(self).phase,
                trace.len() == k + 1,
                trace[0] == start,
                trace[k as int] == self.flock@,
                forall|j: int|
                    0 <= j < k ==> dropped(
                        #[trigger] trace[j],
                        ids@[j],
                        SHEEP_SCALE,
                        (first + j) as u64,
                        trace[j + 1],
                    ),
            decreases ids.len() - k,
        {
            if drop_sheep(&mut self.flock, ids[k], SHEEP_SCALE, self.next_id) {
                merges = merges + 1;
            }
            proof {
                trace = trace.push(self.flock@);
            }
            self.next_id = self.next_id + 1;
            assert(ids_below(self.flock@, self.next_id));
            k = k + 1;
        }
        merges
    }
}

/// `end` is what releasing the sheep `ids` one after another may make of the
/// flock `start`, the k-th newborn taking the identity `first_id + k`.
pub open spec fn released_through(
    start: Seq<SheepEntity>,
    ids: Seq<u64>,
    first_id: u64,
    end: Seq<SheepEntity>,
) -> bool {
    exists|trace: Seq<Seq<SheepEntity>>|
        trace.len() == ids.len() + 1 && trace[0] == start && trace[ids.len() as int] == end
            && forall|j: int|
            0 <= j < ids.len() ==> dropped(
                #[trigger] trace[j],
                ids[j],
                SHEEP_SCALE,
                (first_id + j) as u64,
                trace[j + 1],
            )
}

/// A flock with the same identities, one for one, keeps their distinctness and
/// bound.
proof fn lemma_same_ids(a: Seq<SheepEntity>, b: Seq<SheepEntity>, n: u64)
    requires
        a.len() == b.len(),
        forall|i: int| 0 <= i < a.len() ==> #[trigger] b[i].id == a[i].id,
        ids_unique(a),
        ids_below(a, n),
    ensures
        ids_unique(b),
        ids_below(b, n),
{
    assert forall|i: int, j: int| 0 <= i < j < b.len() implies #[trigger] b[i].id != #[trigger] b[j].id by {
        assert(a[i].id != a[j].id);
    }
    assert forall|i: int| 0 <= i < b.len() implies #[trigger] b[i].id < n by {
        assert(a[i].id < n);
    }
}

/// No more sheep are released than there are sheep.
proof fn lemma_dragged_ids_len(s: Seq<SheepEntity>)
    ensures
        crate::sheep::dragged_ids(s).len() <= s.len(),
    decreases s.len(),
{
    if s.len() > 0 {
        lemma_dragged_ids_len(s.drop_last());
    }
}

impl SheepPlugin {
    /// One herding tick of `dt` milliseconds: every sheep runs its wander
    /// state machine and is then brought back inside its bounds.
    pub fn update(&self, world: &mut World, dt: u64)
        requires
            old(world).wf(),
            dt <= DT_LIMIT,
        ensures
            final(world).wf(),
            exists|moved: Seq<SheepEntity>|
                flock_wandered(old(world).flock@, moved, dt) && final(world).flock@
                    == moved.map_values(|e: SheepEntity| clamped(e)),
            final(world).war_machines@ == old(world).war_machines@,
            final(world).phase == old(world).phase,
            final(world).next_id == old(world).next_id,
    {
        wander(&mut world.flock, dt);
        let ghost moved = world.flock@;
        bounds_check(&mut world.flock);
        assert(flock_wandered(old(world).flock@, moved, dt));
        proof {
            assert forall|i: int| 0 <= i < world.flock@.len() implies #[trigger] world.flock@[i].id
                == old(world).flock@[i].id by {
                assert(world.flock@[i] == clamped(moved[i]));
            }
            lemma_same_ids(old(world).flock@, world.flock@, world.next_id);
        }
    }
}

impl BattlePlugin {
    /// One battle tick of `dt` milliseconds, outside a battle a no-op. In
    /// order: the war machines hunt (see `move_and_attack`), the sheep wander,
    /// every entity is brought back inside its bounds, dead sheep are removed,
    /// and the battle ends if either side is gone, which destroys the
    /// remaining war machines. Afterwards every entity lies inside its bounds
    /// and every sheep left has positive health.
    pub fn update(&self, world: &mut World, dt: u64)
        requires
            old(world).wf(),
            dt <= DT_LIMIT,
        ensures
            final(world).wf(),
            old(world).phase.state != GameState::Battle ==> final(world).flock@ == old(world).flock@
                && final(world).war_machines@ == old(world).war_machines@ && final(world).phase
                == old(world).phase,
            old(world).phase.state == GameState::Battle ==> {
                &&& forall|i: int|
                    0 <= i < final(world).flock@.len() ==> #[trigger] final(world).flock@[i].health > 0
                &&& exists|moved: Seq<SheepEntity>|
                    flock_wandered(
                        after_attacks(
                            old(world).flock@,
                            old(world).war_machines@,
                            old(world).war_machines@.len() as int,
                        ),
                        moved,
                        dt,
                    ) && final(world).flock@ == moved.map_values(|e: SheepEntity| clamped(e)).filter(
                        |e: SheepEntity| alive(e),
                    )
                &&& final(world).phase == end_checked(
                    old(world).phase,
                    final(world).flock@.len(),
                    old(world).war_machines@.len(),
                )
                &&& final(world).phase.state == GameState::Battle ==> final(world).war_machines@
                    == old(world).war_machines@.map_values(
                    |m: WarMachine| machine_clamped(pursued(m, old(world).flock@, dt)),
                )
                &&& final(world).phase.state != GameState::Battle ==> final(world).war_machines@.len()
                    == 0
            },
            final(world).next_id == old(world).next_id,
    {
        if world.phase.state != GameState::Battle {
            return ;
        }
        move_and_attack(&mut world.flock, &mut world.war_machines, dt);
        let ghost hunted = world.war_machines@;
        proof {
            assert forall|i: int| 0 <= i < world.flock@.len() implies #[trigger] world.flock@[i].wf() by {
            }
        }
        let ghost hunted_flock = world.flock@;
        wander(&mut world.flock, dt);
        let ghost moved = world.flock@;
        bounds_check(&mut world.flock);
        proof {
            assert forall|i: int| 0 <= i < world.flock@.len() implies #[trigger] world.flock@[i].id
                == old(world).flock@[i].id by {
                assert(world.flock@[i] == clamped(moved[i]));
                assert(moved[i].id == hunted_flock[i].id);
                assert(hunted_flock[i].id == old(world).flock@[i].id);
            }
            lemma_same_ids(old(world).flock@, world.flock@, world.next_id);
        }
        bounds_check_machines(&mut world.war_machines);
        remove_dead_sheep(&mut world.flock);
        assert(ids_below(world.flock@, world.next_id));
        let n_machines = world.war_machines.len();
        let next = check_end_battle(world.phase, world.flock.len(), n_machines);
        if next.state != GameState::Battle {
            despawn_war_machines(&mut world.war_machines);
        }
        world.phase = next;
        proof {
            assert(flock_wandered(
                after_attacks(
                    old(world).flock@,
                    old(world).war_machines@,
                    old(world).war_machines@.len() as int,
                ),
                moved,
                dt,
            ));
            if next.state == GameState::Battle {
                assert(world.war_machines@ =~= old(world).war_machines@.map_values(
                    |m: WarMachine| machine_clamped(pursued(m, old(world).flock@, dt)),
                ));
            }
        }
    }
}

} // verus!
