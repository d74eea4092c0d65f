//! Planted bombs, their fuses, and what an explosion does to its surroundings.
use vstd::prelude::*;

use crate::config::{
    LAYER_CREATURES,
    BOMB_TIMER_CHAIN_REACTION_NANOS, EXPLODABLE_FUSE_NANOS, EXPLOSION_RANGE, EXPLOSION_VISUAL_NANOS,
    TILE_SIZE,
};
use crate::geometry::{all_in_world, in_world, lemma_world_in_reach, related, Pos, Relation};
use crate::selection::{related_indices, selects};
use crate::timer::GameTimer;

verus! {

/// A bomb that has been planted and goes off when its fuse finishes.
#[derive(Clone, Copy, Debug, PartialEq, Eq, Structural)]
pub struct PlantedBomb {
    pub position: Pos,
    pub fuse: GameTimer,
}

/// How long an element has left before it is removed.
#[derive(Clone, Copy, Debug, PartialEq, Eq, Structural)]
pub struct Lifetime {
    pub timer: GameTimer,
}

/// The picture of an explosion shown on a spot for a while.
#[derive(Clone, Copy, Debug, PartialEq, Eq, Structural)]
pub struct ExplosionVisual {
    pub position: Pos,
    pub lifetime: Lifetime,
}

/// What one planted bomb does when it goes off. Indices refer to the lists
/// handed to `explosive_lifetime_system`.
#[derive(Debug)]
pub struct Detonation {
    /// The planted bomb that goes off; it is removed.
    pub bomb: usize,
    /// The entities in range: an explosion is shown on each of them.
    pub hit: Vec<usize>,
    /// The explodable elements in range: each gets a short fuse.
    pub armed: Vec<usize>,
    /// The bombs lying in range: each is replaced by a planted bomb on a short fuse.
    pub chained: Vec<usize>,
}

/// The explosion picture shown over an entity at `p`.
pub open spec fn visual_over(p: Pos) -> ExplosionVisual {
    ExplosionVisual {
        position: Pos { x: p.x, y: p.y, z: LAYER_CREATURES },
        lifetime: Lifetime {
            timer: GameTimer {
                duration: EXPLOSION_VISUAL_NANOS,
                elapsed: 0,
                finished: false,
                repeating: false,
            },
        },
    }
}

/// The explosion picture shown over an entity at `p`.
pub fn explosion_visual(p: &Pos) -> (v: ExplosionVisual)
    ensures
        v == visual_over(*p),
{
    ExplosionVisual {
        position: Pos { x: p.x, y: p.y, z: LAYER_CREATURES },
        lifetime: Lifetime { timer: GameTimer::once(EXPLOSION_VISUAL_NANOS) },
    }
}

/// The fuse an explodable element gets when an explosion reaches it.
pub fn explodable_fuse() -> (t: Lifetime)
    ensures
        t == (Lifetime {
            timer: GameTimer {
                duration: EXPLODABLE_FUSE_NANOS,
                elapsed: 0,
                finished: false,
                repeating: false,
            },
        }),
{
    Lifetime { timer: GameTimer::once(EXPLODABLE_FUSE_NANOS) }
}

/// The planted bomb that replaces a bomb at `p` reached by an explosion.
pub fn chained_bomb(p: &Pos) -> (b: PlantedBomb)
    ensures
        b == (PlantedBomb {
            position: *p,
            fuse: GameTimer {
                duration: BOMB_TIMER_CHAIN_REACTION_NANOS,
                elapsed: 0,
                finished: false,
                repeating: false,
            },
        }),
{
    PlantedBomb { position: *p, fuse: GameTimer::once(BOMB_TIMER_CHAIN_REACTION_NANOS) }
}

/// Ticks every lifetime by `delta` and lists, in order, the indices of those
/// that finished.
fn expire(lifetimes: &mut Vec<Lifetime>, delta: u64) -> (r: Vec<usize>)
    ensures
        final(lifetimes)@.len() == old(lifetimes)@.len(),
        forall|i: int|
            0 <= i < old(lifetimes)@.len() ==> #[trigger] final(lifetimes)@[i].timer == old(
                lifetimes,
            )@[i].timer.after_tick(delta),
        selects(r@, old(lifetimes)@.len() as int, |i: int| final(lifetimes)@[i].timer.finished),
{
    let ghost start = lifetimes@;
    let n: usize = lifetimes.len();
    let mut r: Vec<usize> = Vec::new();
    let mut i: usize = 0;
    while i < n
        invariant
            n == start.len(),
            lifetimes@.len() == n,
            i <= n,
            forall|j: int| 0 <= j < i ==> #[trigger] lifetimes@[j].timer == start[j].timer.after_tick(delta),
            forall|j: int| i <= j < n ==> #[trigger] lifetimes@[j] == start[j],
            forall|k: int| 0 <= k < r@.len() ==> #[trigger] r@[k] < i && lifetimes@[r@[k] as int].timer.finished,
            forall|k: int, l: int| 0 <= k < l < r@.len() ==> #[trigger] r@[k] < #[trigger] r@[l],
            forall|j: int| 0 <= j < i && #[trigger] lifetimes@[j].timer.finished ==> r@.contains(j as usize),
        decreases n - i,
    {
        let mut t = lifetimes[i];
        t.timer.tick(delta);
        lifetimes.set(i, t);
        if t.timer.is_finished() {
            let ghost old_r = r@;
            r.push(i);
            assert forall|j: int| 0 <= j < i + 1 && #[trigger] lifetimes@[j].timer.finished implies r@.contains(
                j as usize,
            ) by {
                if j < i {
                    let k = choose|k: int| 0 <= k < old_r.len() && old_r[k] == j as usize;
                    assert(r@[k] == j as usize);
                } else {
                    assert(r@[r@.len() - 1] == j as usize);
                }
            }
        }
        i = i + 1;
    }
    r
}

/// One frame for the explodable elements that carry a lifetime: every
/// lifetime is ticked by `delta`; the result lists, in order, the elements
/// whose lifetime finished, which are to be removed.
pub fn explodable_lifetime_system(lifetimes: &mut Vec<Lifetime>, delta: u64) -> (r: Vec<usize>)
    ensures
        final(lifetimes)@.len() == old(lifetimes)@.len(),
        forall|i: int|
            0 <= i < old(lifetimes)@.len() ==> #[trigger] final(lifetimes)@[i].timer == old(
                lifetimes,
            )@[i].timer.after_tick(delta),
        selects(r@, old(lifetimes)@.len() as int, |i: int| final(lifetimes)@[i].timer.finished),
{
    expire(lifetimes, delta)
}

/// One frame for the explosion pictures: every lifetime is ticked by `delta`;
/// the result lists, in order, the pictures whose lifetime finished, which are
/// to be removed.
pub fn remove_explosion_sprite(lifetimes: &mut Vec<Lifetime>, delta: u64) -> (r: Vec<usize>)
    ensures
        final(lifetimes)@.len() == old(lifetimes)@.len(),
        forall|i: int|
            0 <= i < old(lifetimes)@.len() ==> #[trigger] final(lifetimes)@[i].timer == old(
                lifetimes,
            )@[i].timer.after_tick(delta),
        selects(r@, old(lifetimes)@.len() as int, |i: int| final(lifetimes)@[i].timer.finished),
{
    expire(lifetimes, delta)
}

/// Every planted bomb is in the world.
pub open spec fn planted_in_world(planted: Seq<PlantedBomb>) -> bool {
    forall|i: int| 0 <= i < planted.len() ==> in_world(#[trigger] planted[i].position)
}

/// `d` is what the planted bomb at `center` does when it goes off.
pub open spec fn detonation_of(
    d: Detonation,
    center: Pos,
    entities: Seq<Pos>,
    explodables: Seq<Pos>,
    bombs: Seq<Pos>,
) -> bool {
    &&& selects(d.hit@, entities.len() as int, |j: int| related(Relation::Blast, center, entities[j]))
    &&& selects(
        d.armed@,
        explodables.len() as int,
        |j: int| related(Relation::Blast, center, explodables[j]),
    )
    &&& selects(d.chained@, bombs.len() as int, |j: int| related(Relation::Blast, center, bombs[j]))
}

/// `b` is within the explosion radius of a bomb at `c`: at most
/// `EXPLOSION_RANGE` tiles away in space.
pub open spec fn within_blast(c: Pos, b: Pos) -> bool {
    (c.x - b.x) * (c.x - b.x) + (c.y - b.y) * (c.y - b.y) + (c.z - b.z) * (c.z - b.z) <= (
    EXPLOSION_RANGE * TILE_SIZE) * (EXPLOSION_RANGE * TILE_SIZE)
}

/// `idx` lists, without repeats, exactly the positions of `s` within the
/// explosion radius of `c`.
pub open spec fn lists_blasted(idx: Seq<usize>, c: Pos, s: Seq<Pos>) -> bool {
    &&& forall|k: int| 0 <= k < idx.len() ==> #[trigger] idx[k] < s.len() && within_blast(c, s[idx[k] as int])
    &&& forall|j: int| 0 <= j < s.len() && within_blast(c, #[trigger] s[j]) ==> idx.contains(j as usize)
    &&& forall|k: int, l: int| 0 <= k < l < idx.len() ==> #[trigger] idx[k] != #[trigger] idx[l]
}

proof fn lemma_selects_blasted(idx: Seq<usize>, c: Pos, s: Seq<Pos>)
    requires
        selects(idx, s.len() as int, |j: int| related(Relation::Blast, c, s[j])),
    ensures
        lists_blasted(idx, c, s),
{
    let pred = |j: int| related(Relation::Blast, c, s[j]);
    assert forall|k: int| 0 <= k < idx.len() implies #[trigger] idx[k] < s.len() && within_blast(
        c,
        s[idx[k] as int],
    ) by {
        assert(pred(idx[k] as int));
    }
    assert forall|j: int| 0 <= j < s.len() && within_blast(c, #[trigger] s[j]) implies idx.contains(
        j as usize,
    ) by {
        assert(pred(j));
    }
}

/// A bomb going off reaches exactly what lies within its explosion radius,
/// at most `EXPLOSION_RANGE` tiles away in space: every entity, explodable
/// element and lying bomb listed is within it, each within it is listed, and
/// none twice.
pub proof fn law_blast_reaches_its_radius(
    d: Detonation,
    center: Pos,
    entities: Seq<Pos>,
    explodables: Seq<Pos>,
    bombs: Seq<Pos>,
)
    requires
        detonation_of(d, center, entities, explodables, bombs),
    ensures
        lists_blasted(d.hit@, center, entities),
        lists_blasted(d.armed@, center, explodables),
        lists_blasted(d.chained@, center, bombs),
{
    lemma_selects_blasted(d.hit@, center, entities);
    lemma_selects_blasted(d.armed@, center, explodables);
    lemma_selects_blasted(d.chained@, center, bombs);
}

/// One frame for the planted bombs: every fuse is ticked by `delta`, and each
/// bomb whose fuse finished goes off. The result lists the detonations in the
/// order of the planted bombs; each names the entities, explodable elements
/// and lying bombs within the explosion radius of that planted bomb.
pub fn explosive_lifetime_system(
    planted: &mut Vec<PlantedBomb>,
    entities: &Vec<Pos>,
    explodables: &Vec<Pos>,
    bombs: &Vec<Pos>,
    delta: u64,
) -> (r: Vec<Detonation>)
    requires
        planted_in_world(old(planted)@),
        all_in_world(entities@),
        all_in_world(explodables@),
        all_in_world(bombs@),
    ensures
        final(planted)@.len() == old(planted)@.len(),
        forall|i: int|
            0 <= i < old(planted)@.len() ==> #[trigger] final(planted)@[i] == (PlantedBomb {
                position: old(planted)@[i].position,
                fuse: old(planted)@[i].fuse.after_tick(delta),
            }),
        selects(
            r@.map_values(|d: Detonation| d.bomb),
            old(planted)@.len() as int,
            |i: int| final(planted)@[i].fuse.finished,
        ),
        forall|k: int|
            0 <= k < r@.len() ==> detonation_of(
                #[trigger] r@[k],
                old(planted)@[r@[k].bomb as int].position,
                entities@,
                explodables@,
                bombs@,
            ),
{
    proof {
        lemma_world_in_reach(entities@);
        lemma_world_in_reach(explodables@);
        lemma_world_in_reach(bombs@);
    }
    let ghost start = planted@;
    let n: usize = planted.len();
    let mut r: Vec<Detonation> = Vec::new();
    let mut i: usize = 0;
    while i < n
        invariant
            n == start.len(),
            planted@.len() == n,
            i <= n,
            planted_in_world(start),
            all_in_world(entities@),
            all_in_world(explodables@),
            all_in_world(bombs@),
            crate::geometry::all_in_reach(entities@),
            crate::geometry::all_in_reach(explodables@),
            crate::geometry::all_in_reach(bombs@),
            forall|j: int|
                0 <= j < i ==> #[trigger] planted@[j] == (PlantedBomb {
                    position: start[j].position,
                    fuse: start[j].fuse.after_tick(delta),
                }),
            forall|j: int| i <= j < n ==> #[trigger] planted@[j] == start[j],
            forall|k: int|
                0 <= k < r@.len() ==> #[trigger] r@[k].bomb < i && planted@[r@[k].bomb as int].fuse.finished,
            forall|k: int, l: int| 0 <= k < l < r@.len() ==> #[trigger] r@[k].bomb < #[trigger] r@[l].bomb,
            forall|j: int|
                0 <= j < i && #[trigger] planted@[j].fuse.finished ==> exists|k: int|
                    0 <= k < r@.len() && r@[k].bomb == j,
            forall|k: int|
                0 <= k < r@.len() ==> detonation_of(
                    #[trigger] r@[k],
                    start[r@[k].bomb as int].position,
                    entities@,
                    explodables@,
                    bombs@,
                ),
        decreases n - i,
    {
        let mut bomb = planted[i];
        bomb.fuse.tick(delta);
        planted.set(i, bomb);
        if bomb.fuse.is_finished() {
            let center = bomb.position;
            assert(in_world(start[i as int].position));
            let hit = related_indices(Relation::Blast, &center, entities);
            let armed = related_indices(Relation::Blast, &center, explodables);
            let chained = related_indices(Relation::Blast, &center, bombs);
            let ghost old_r = r@;
            r.push(Detonation { bomb: i, hit, armed, chained });
            assert forall|j: int|
                0 <= j < i + 1 && #[trigger] planted@[j].fuse.finished implies exists|k: int|
                    0 <= k < r@.len() && r@[k].bomb == j by {
                if j < i {
                    let k = choose|k: int| 0 <= k < old_r.len() && old_r[k].bomb == j;
                    assert(r@[k].bomb == j);
                } else {
                    assert(r@[r@.len() - 1].bomb == j);
                }
            }
        }
        i = i + 1;
    }
    let ghost bombs_of = r@.map_values(|d: Detonation| d.bomb);
    assert forall|j: int|
        0 <= j < n && #[trigger] planted@[j].fuse.finished implies bombs_of.contains(j as usize) by {
        let k = choose|k: int| 0 <= k < r@.len() && r@[k].bomb == j;
        assert(bombs_of[k] == j as usize);
    }
    r
}

} // verus!
