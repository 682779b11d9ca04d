//! The ring as a whole: what holds when every process keeps to the rounds.
//!
//! Nothing here runs. These are the laws that the driver relies on when it
//! lets each process hand its passing block to the next rank, round after
//! round: after as many rounds as there are processes, every process has had
//! every block, and so every particle, before it exactly once.

use vstd::prelude::*;
use vstd::arithmetic::div_mod::lemma_add_mod_noop_right;
use vstd::arithmetic::div_mod::lemma_fundamental_div_mod_converse;
use vstd::arithmetic::div_mod::lemma_mod_add_multiples_vanish;
use vstd::arithmetic::div_mod::lemma_mod_bound;
use crate::partition::in_slice;
use crate::partition::lemma_slices_cover;
use crate::partition::lemma_slices_disjoint;
use crate::partition::lemma_slices_ordered;
use crate::partition::lemma_slice_bounds;
use crate::partition::slice_start;
use crate::partition::Rank;
use crate::proc::lemma_previous_of;
use crate::proc::next_of;
use crate::proc::previous_of;
use crate::proc::Exchange;
use crate::proc::ProcState;
use crate::star::Particle;
use crate::star::Vec3;

verus! {

/// The remainder of a number that lies less than one modulus away from zero.
proof fn lemma_mod_near(x: int, m: int)
    requires
        0 < m,
        -m < x < m,
    ensures
        x % m == if x >= 0 {
            x
        } else {
            x + m
        },
{
    if x >= 0 {
        lemma_fundamental_div_mod_converse(x, m, 0, x);
    } else {
        lemma_fundamental_div_mod_converse(x, m, -1, x + m);
    }
}

/// Both neighbours of a rank are ranks; going to the next rank and back, or
/// back and forth, ends where it began; and a process is its own neighbour
/// exactly where it is alone.
pub proof fn lemma_neighbours(size: int, rank: int)
    requires
        1 <= size,
        0 <= rank < size,
    ensures
        0 <= next_of(size, rank) < size,
        0 <= previous_of(size, rank) < size,
        previous_of(size, next_of(size, rank)) == rank,
        next_of(size, previous_of(size, rank)) == rank,
        next_of(size, rank) == rank <==> size == 1,
        previous_of(size, rank) == rank <==> size == 1,
{
    lemma_mod_near(rank + 1 - size, size);
    lemma_mod_add_multiples_vanish(rank + 1 - size, size);
    let next = next_of(size, rank);
    assert(next == if rank + 1 == size {
        0
    } else {
        rank + 1
    });
    lemma_previous_of(size, rank);
    let previous = previous_of(size, rank);
    lemma_previous_of(size, next);
    lemma_mod_near(previous + 1 - size, size);
    lemma_mod_add_multiples_vanish(previous + 1 - size, size);
}

/// The rank whose block a process has before it once `rounds` rounds of an
/// iteration have ended: the block has come `rounds` places along the ring.
pub open spec fn origin_of(size: int, rank: int, rounds: int) -> int {
    (rank - rounds) % size
}

/// Before the first round a process has its own block before it, and after
/// each round the block that its previous neighbour had; after as many
/// rounds as there are processes the blocks are where they were.
pub proof fn lemma_origin(size: int, rank: int, rounds: int)
    requires
        1 <= size,
        0 <= rank < size,
    ensures
        0 <= origin_of(size, rank, rounds) < size,
        origin_of(size, rank, 0) == rank,
        origin_of(size, rank, rounds + 1) == origin_of(size, previous_of(size, rank), rounds),
        origin_of(size, rank, rounds + size) == origin_of(size, rank, rounds),
{
    lemma_mod_bound(rank - rounds, size);
    lemma_mod_near(rank, size);
    lemma_add_mod_noop_right(-rounds, rank - 1 + size, size);
    lemma_mod_add_multiples_vanish(rank - 1 - rounds, size);
    assert(-rounds + (rank - 1 + size) == size + (rank - 1 - rounds));
    assert(-rounds + previous_of(size, rank) == previous_of(size, rank) - rounds);
    lemma_mod_add_multiples_vanish(rank - rounds - size, size);
    assert(size + (rank - rounds - size) == rank - rounds);
}

/// Within the rounds of one iteration a process gets the block of every rank
/// before it, and none of them twice.
pub proof fn lemma_each_origin_once(size: int, rank: int, source: int) -> (round: int)
    requires
        1 <= size,
        0 <= rank < size,
        0 <= source < size,
    ensures
        0 <= round < size,
        origin_of(size, rank, round) == source,
        forall|other: int|
            0 <= other < size && origin_of(size, rank, other) == source ==> other == round,
{
    let round = if source <= rank {
        rank - source
    } else {
        rank - source + size
    };
    lemma_mod_near(rank - round, size);
    assert forall|other: int|
        0 <= other < size && origin_of(size, rank, other) == source implies other == round by {
        lemma_mod_near(rank - other, size);
    }
    round
}

/// With the items dealt to the processes in blocks, every item comes before
/// every process in exactly one round of an iteration.
pub proof fn lemma_each_item_once(size: int, len: int, rank: int, item: int) -> (round: int)
    requires
        1 <= size,
        0 <= rank < size,
        0 <= item < len,
    ensures
        0 <= round < size,
        in_slice(size, origin_of(size, rank, round), len, item),
        forall|other: int|
            0 <= other < size && in_slice(size, origin_of(size, rank, other), len, item)
                ==> other == round,
{
    let source = lemma_slices_cover(size, len, item);
    let round = lemma_each_origin_once(size, rank, source);
    assert forall|other: int|
        0 <= other < size && in_slice(
            size,
            origin_of(size, rank, other),
            len,
            item,
        ) implies other == round by {
        lemma_origin(size, rank, other);
        lemma_slices_disjoint(size, origin_of(size, rank, other), source, len, item);
    }
    round
}

/// Whether the states are those of the processes of one ring, in the order
/// of their ranks.
pub open spec fn is_ring(ring: Seq<ProcState>) -> bool {
    &&& 1 <= ring.len() <= i32::MAX
    &&& forall|i: int|
        0 <= i < ring.len() ==> {
            &&& (#[trigger] ring[i]).rank == i
            &&& ring[i].next_rank == next_of(ring.len() as int, i)
            &&& ring[i].previous_rank == previous_of(ring.len() as int, i)
        }
}

/// The ring one round later: every process has begun and ended a round, and
/// has received the block that its previous neighbour had. `new_vels[i]` is
/// what the residents of rank `i` gathered in that round.
pub open spec fn ring_round(ring: Seq<ProcState>, new_vels: Seq<Seq<Vec3>>) -> Seq<ProcState> {
    Seq::new(
        ring.len(),
        |i: int|
            ring[i].after_step().after_round(
                new_vels[i],
                ring[ring[i].previous_rank as int].stars_buff,
            ),
    )
}

/// The ring after `rounds` rounds; `new_vels[t]` belongs to round `t`.
pub open spec fn ring_rounds(
    ring: Seq<ProcState>,
    new_vels: Seq<Seq<Seq<Vec3>>>,
    rounds: nat,
) -> Seq<ProcState>
    decreases rounds,
{
    if rounds == 0 {
        ring
    } else {
        ring_round(ring_rounds(ring, new_vels, (rounds - 1) as nat), new_vels[rounds - 1])
    }
}

/// Rounds carry the blocks along the ring unchanged: after `rounds` rounds
/// the process of `rank` has before it the block that the process
/// `origin_of(size, rank, rounds)` had at the start. In a ring of two or more
/// this holds after any number of rounds, so after as many rounds as there
/// are processes each has its own block back. A lone process takes its own
/// residents as the next block, so of it this is said of the start only.
pub proof fn lemma_ring_rotates(
    ring: Seq<ProcState>,
    new_vels: Seq<Seq<Seq<Vec3>>>,
    rounds: nat,
    rank: int,
)
    requires
        is_ring(ring),
        0 <= rank < ring.len(),
        ring.len() >= 2 || rounds == 0,
    ensures
        ring_rounds(ring, new_vels, rounds).len() == ring.len(),
        is_ring(ring_rounds(ring, new_vels, rounds)),
        0 <= origin_of(ring.len() as int, rank, rounds as int) < ring.len(),
        ring_rounds(ring, new_vels, rounds)[rank].stars_buff == ring[origin_of(
            ring.len() as int,
            rank,
            rounds as int,
        )].stars_buff,
        ring_rounds(ring, new_vels, rounds)[rank].iteration == ring[rank].iteration + rounds,
    decreases rounds,
{
    let size = ring.len() as int;
    lemma_origin(size, rank, rounds as int);
    if rounds > 0 {
        let earlier = ring_rounds(ring, new_vels, (rounds - 1) as nat);
        let previous = previous_of(size, rank);
        lemma_neighbours(size, rank);
        lemma_ring_rotates(ring, new_vels, (rounds - 1) as nat, previous);
        lemma_ring_rotates(ring, new_vels, (rounds - 1) as nat, rank);
        lemma_origin(size, rank, rounds - 1);
        let now = ring_rounds(ring, new_vels, rounds);
        assert(now == ring_round(earlier, new_vels[rounds - 1]));
        assert(earlier[rank].previous_rank == previous);
        assert(earlier[rank].rank != earlier[rank].next_rank);
        assert(now[rank].stars_buff == earlier[previous].stars_buff);
    }
}

/// Rounds leave a resident where and what it is: only what has been gathered
/// for it changes.
pub proof fn lemma_rounds_keep_residents(
    ring: Seq<ProcState>,
    new_vels: Seq<Seq<Seq<Vec3>>>,
    rounds: nat,
    rank: int,
    k: int,
)
    requires
        0 <= rank < ring.len(),
        0 <= k < ring[rank].stars.len(),
    ensures
        ring_rounds(ring, new_vels, rounds).len() == ring.len(),
        ring_rounds(ring, new_vels, rounds)[rank].stars.len() == ring[rank].stars.len(),
        ring_rounds(ring, new_vels, rounds)[rank].stars[k].pos == ring[rank].stars[k].pos,
        ring_rounds(ring, new_vels, rounds)[rank].stars[k].vel == ring[rank].stars[k].vel,
        ring_rounds(ring, new_vels, rounds)[rank].stars[k].mass == ring[rank].stars[k].mass,
        ring_rounds(ring, new_vels, rounds)[rank].stars[k].radius == ring[rank].stars[k].radius,
        rounds > 0 ==> ring_rounds(ring, new_vels, rounds)[rank].stars[k].new_vel
            == new_vels[rounds - 1][rank][k],
    decreases rounds,
{
    if rounds > 0 {
        lemma_rounds_keep_residents(ring, new_vels, (rounds - 1) as nat, rank, k);
    }
}

/// A lone process needs no transport: it is told to keep its block, and when
/// the round ends the passing block is its residents as they then are. Those
/// are the residents from before the round but for what they gathered; where
/// the round gathered nothing new, the block is the residents from before
/// the round.
pub proof fn lemma_single_process_round(
    before: ProcState,
    new_vels: Seq<Vec3>,
    received: Seq<Particle>,
)
    requires
        before.rank == 0,
        before.next_rank == next_of(1, 0),
        new_vels.len() == before.stars.len(),
    ensures
        before.exchange() == Exchange::Local,
        before.after_round(new_vels, received).stars_buff == before.after_round(
            new_vels,
            received,
        ).stars,
        before.after_round(new_vels, received).stars_buff.len() == before.stars.len(),
        forall|k: int|
            0 <= k < before.stars.len() ==> #[trigger] before.after_round(
                new_vels,
                received,
            ).stars_buff[k] == (Particle { new_vel: new_vels[k], ..before.stars[k] }),
        (forall|k: int| 0 <= k < before.stars.len() ==> new_vels[k] == before.stars[k].new_vel)
            ==> before.after_round(new_vels, received).stars_buff == before.stars,
{
    lemma_neighbours(1, 0);
    let after = before.after_round(new_vels, received);
    if forall|k: int| 0 <= k < before.stars.len() ==> new_vels[k] == before.stars[k].new_vel {
        assert(after.stars_buff =~= before.stars);
    }
}

/// The ring at the start of an iteration when `all` particles are dealt to
/// `size` processes: each process has its block as residents and as the
/// passing block. Its member of rank `i` is the state of `Proc::deal(all, i,
/// size)`.
pub open spec fn dealt(all: Seq<Particle>, size: int) -> Seq<ProcState> {
    Seq::new(
        size as nat,
        |i: int|
            ProcState::initial(
                all.subrange(
                    slice_start(size, i, all.len() as int),
                    slice_start(size, i + 1, all.len() as int),
                ),
                i as Rank,
                size as Rank,
            ),
    )
}

/// Within the rounds of one iteration every particle comes before every
/// process exactly once. For a process `rank` and a particle `item` of the
/// whole sequence there is one round before which the passing block of the
/// process is the block that holds the particle, and there the particle
/// stands at its place within the block; before no other round of the
/// iteration does the passing block come from the owner of that particle.
pub proof fn lemma_every_particle_passes_once(
    all: Seq<Particle>,
    size: int,
    new_vels: Seq<Seq<Seq<Vec3>>>,
    rank: int,
    item: int,
) -> (round: nat)
    requires
        1 <= size <= i32::MAX,
        0 <= rank < size,
        0 <= item < all.len(),
    ensures
        round < size,
        in_slice(size, origin_of(size, rank, round as int), all.len() as int, item),
        ({
            let block = ring_rounds(dealt(all, size), new_vels, round)[rank].stars_buff;
            let first = slice_start(size, origin_of(size, rank, round as int), all.len() as int);
            0 <= item - first < block.len() && block[item - first] == all[item]
        }),
        forall|other: int|
            0 <= other < size && in_slice(
                size,
                origin_of(size, rank, other),
                all.len() as int,
                item,
            ) ==> other == round,
{
    let len = all.len() as int;
    let ring = dealt(all, size);
    let round = lemma_each_item_once(size, len, rank, item) as nat;
    let source = origin_of(size, rank, round as int);
    assert(is_ring(ring)) by {
        assert forall|i: int| 0 <= i < ring.len() implies {
            &&& (#[trigger] ring[i]).rank == i
            &&& ring[i].next_rank == next_of(size, i)
            &&& ring[i].previous_rank == previous_of(size, i)
        } by {
            lemma_neighbours(size, i);
        }
    }
    lemma_origin(size, rank, round as int);
    if size == 1 {
        assert(round == 0);
    }
    lemma_ring_rotates(ring, new_vels, round, rank);
    lemma_slice_bounds(size, source, len);
    lemma_slice_bounds(size, source + 1, len);
    lemma_slices_ordered(size, source, source + 1, len);
    round
}

} // verus!
