//! One process of the ring: its resident particles, the block that is
//! passing through, and what an exchange round and an integration step do
//! to them.
//!
//! A process decides and records; the driver computes and transports. A
//! round goes like this. The driver calls `step` and learns what is to become
//! of the passing block. It works the force law on each resident against the
//! particles of the block that `Particle::others` picks for it, carries the
//! block along the ring as it was told, and hands what was gathered and what
//! was received to `complete_step`. After as many rounds as there are
//! processes the driver works the integrator on the residents and hands the
//! outcome to `complete_interation`.

use vstd::prelude::*;
use crate::err::StarErr;
use crate::partition::get_slice;
use crate::partition::slice_start;
use crate::partition::Rank;
use crate::star::Particle;
use crate::star::Vec3;

verus! {

/// The neighbour that a process sends the passing block to.
pub open spec fn next_of(size: int, rank: int) -> int {
    (rank + 1) % size
}

/// The neighbour that a process receives the next passing block from.
pub open spec fn previous_of(size: int, rank: int) -> int {
    (rank - 1 + size) % size
}

/// What the driver is to do with the passing block at the end of a round.
#[derive(Copy, Clone, Debug, PartialEq, Eq, Structural)]
pub enum Exchange {
    /// The process is its own neighbour: nothing is sent or received.
    Local,
    /// Send the passing block to `to`, then receive the next one from `from`.
    Ring { to: Rank, from: Rank },
}

/// The position and the velocity that the integrator gave for one particle.
#[derive(Copy, Clone, Debug, PartialEq, Eq, Structural)]
pub struct Motion {
    pub pos: Vec3,
    pub vel: Vec3,
}

/// The state of one process.
pub struct Proc {
    /// The resident particles, which this process owns and integrates.
    pub stars: Vec<Particle>,
    /// The block that is passing through.
    pub stars_buff: Vec<Particle>,
    /// The rank that the passing block is sent to.
    pub next_rank: Rank,
    /// The rank that the next passing block comes from.
    pub previous_rank: Rank,
    /// This process's own rank.
    pub rank: Rank,
    /// The number of rounds begun so far.
    pub iteration: usize,
}

/// What a process holds, as plain mathematical values.
pub struct ProcState {
    pub stars: Seq<Particle>,
    pub stars_buff: Seq<Particle>,
    pub next_rank: Rank,
    pub previous_rank: Rank,
    pub rank: Rank,
    pub iteration: nat,
}

impl View for Proc {
    type V = ProcState;

    open spec fn view(&self) -> ProcState {
        ProcState {
            stars: self.stars@,
            stars_buff: self.stars_buff@,
            next_rank: self.next_rank,
            previous_rank: self.previous_rank,
            rank: self.rank,
            iteration: self.iteration as nat,
        }
    }
}

/// The residents after a round: each keeps all that it had but takes the
/// gathered change of velocity given for it.
pub open spec fn gathered(stars: Seq<Particle>, new_vels: Seq<Vec3>) -> Seq<Particle> {
    Seq::new(stars.len(), |i: int| Particle { new_vel: new_vels[i], ..stars[i] })
}

/// The residents after an integration step: each takes the position and
/// velocity given for it, keeps mass and radius, and has nothing gathered.
pub open spec fn integrated(stars: Seq<Particle>, moved: Seq<Motion>) -> Seq<Particle> {
    Seq::new(
        stars.len(),
        |i: int|
            Particle {
                pos: moved[i].pos,
                vel: moved[i].vel,
                new_vel: Vec3(0, 0, 0),
                ..stars[i]
            },
    )
}

impl ProcState {
    /// The state of the process of `rank` among `size` before its first
    /// round: `stars` are its residents and the passing block alike.
    pub open spec fn initial(stars: Seq<Particle>, rank: Rank, size: Rank) -> ProcState {
        ProcState {
            stars,
            stars_buff: stars,
            next_rank: next_of(size as int, rank as int) as Rank,
            previous_rank: previous_of(size as int, rank as int) as Rank,
            rank,
            iteration: 0,
        }
    }

    /// What a round asks of the driver: nothing where the process is its own
    /// neighbour, else to pass the block on to the next rank and to take the
    /// block of the previous one.
    pub open spec fn exchange(self) -> Exchange {
        if self.rank != self.next_rank {
            Exchange::Ring { to: self.next_rank, from: self.previous_rank }
        } else {
            Exchange::Local
        }
    }

    /// The state once a round has begun: the round is counted.
    pub open spec fn after_step(self) -> ProcState {
        ProcState { iteration: self.iteration + 1, ..self }
    }

    /// The state once a round has ended. The residents have taken what was
    /// gathered for them. The passing block is the one received, or, where
    /// the process is its own neighbour, the residents as they now are.
    pub open spec fn after_round(self, new_vels: Seq<Vec3>, received: Seq<Particle>) -> ProcState {
        let stars = gathered(self.stars, new_vels);
        ProcState {
            stars,
            stars_buff: if self.rank != self.next_rank {
                received
            } else {
                stars
            },
            ..self
        }
    }

    /// The state once an iteration has ended: the residents are where the
    /// integrator put them, and the passing block is the residents again.
    pub open spec fn after_iteration(self, moved: Seq<Motion>) -> ProcState {
        let stars = integrated(self.stars, moved);
        ProcState { stars, stars_buff: stars, ..self }
    }
}

fn copy_of(stars: &Vec<Particle>) -> (r: Vec<Particle>)
    ensures
        r@ == stars@,
{
    let mut r: Vec<Particle> = Vec::with_capacity(stars.len());
    let mut i: usize = 0;
    while i < stars.len()
        invariant
            i <= stars.len(),
            r@ == stars@.subrange(0, i as int),
        decreases stars.len() - i,
    {
        r.push(stars[i]);
        i += 1;
        assert(r@ =~= stars@.subrange(0, i as int));
    }
    assert(stars@.subrange(0, stars.len() as int) =~= stars@);
    r
}

impl Proc {
    /// The process of `rank` among `size`, with `stars` as its residents and,
    /// to begin with, as the passing block too.
    pub fn new(stars: Vec<Particle>, rank: Rank, size: Rank) -> (r: Proc)
        requires
            1 <= size,
            0 <= rank < size,
        ensures
            r@ == ProcState::initial(stars@, rank, size),
            r.next_rank == next_of(size as int, rank as int),
            r.previous_rank == previous_of(size as int, rank as int),
    {
        let next_rank: Rank = (rank + 1) % size;
        let previous_rank: Rank = if rank == 0 {
            size - 1
        } else {
            rank - 1
        };
        proof {
            lemma_previous_of(size as int, rank as int);
        }
        Proc {
            stars: copy_of(&stars),
            stars_buff: stars,
            next_rank,
            previous_rank,
            rank,
            iteration: 0,
        }
    }

    /// The process of `rank` among `size` when the particles `all` are dealt
    /// to the processes: its residents are its block of `all`.
    pub fn deal(all: &Vec<Particle>, rank: Rank, size: Rank) -> (r: Proc)
        requires
            1 <= size,
            0 <= rank < size,
        ensures
            r@ == ProcState::initial(
                all@.subrange(
                    slice_start(size as int, rank as int, all.len() as int),
                    slice_start(size as int, rank + 1, all.len() as int),
                ),
                rank,
                size,
            ),
    {
        let block = get_slice(size, rank, all.len());
        let mut stars: Vec<Particle> = Vec::with_capacity(block.end - block.start);
        let mut i: usize = block.start;
        while i < block.end
            invariant
                block.start <= i <= block.end <= all.len(),
                stars@ == all@.subrange(block.start as int, i as int),
            decreases block.end - i,
        {
            stars.push(all[i]);
            i += 1;
            assert(stars@ =~= all@.subrange(block.start as int, i as int));
        }
        Proc::new(stars, rank, size)
    }

    /// Begins an exchange round: counts it, and says what is to become of
    /// the passing block. A round cannot begin on an empty block; the round
    /// is then counted and nothing else happens.
    pub fn step(&mut self) -> (r: Result<Exchange, StarErr>)
        requires
            old(self).iteration < usize::MAX,
        ensures
            final(self)@ == old(self)@.after_step(),
            r is Err <==> old(self).stars_buff@.len() == 0,
            r is Err ==> r->Err_0@ == "Empty initial state"@,
            r is Ok ==> r->Ok_0 == old(self)@.exchange(),
    {
        self.iteration += 1;
        if self.stars_buff.len() == 0 {
            return Err(StarErr::from("Empty initial state"));
        }
        if self.rank != self.next_rank {
            Ok(Exchange::Ring { to: self.next_rank, from: self.previous_rank })
        } else {
            Ok(Exchange::Local)
        }
    }

    /// Ends an exchange round that `step` began. `new_vels` holds, for each
    /// resident in order, the change of velocity gathered once the passing
    /// block has acted on it; `received` is the block that came from the
    /// previous rank. The residents take what was gathered. The passing block
    /// becomes `received`, or, where the process is its own neighbour (then
    /// `received` is not looked at), a copy of the residents as they now are.
    pub fn complete_step(&mut self, new_vels: &Vec<Vec3>, received: Vec<Particle>)
        requires
            new_vels.len() == old(self).stars.len(),
        ensures
            final(self)@ == old(self)@.after_round(new_vels@, received@),
    {
        let n: usize = self.stars.len();
        let mut i: usize = 0;
        while i < n
            invariant
                i <= n,
                n == self.stars.len(),
                n == new_vels.len(),
                n == old(self).stars.len(),
                forall|j: int|
                    0 <= j < i ==> #[trigger] self.stars@[j] == gathered(
                        old(self).stars@,
                        new_vels@,
                    )[j],
                forall|j: int| i <= j < n ==> #[trigger] self.stars@[j] == old(self).stars@[j],
                self.iteration == old(self).iteration,
                self.rank == old(self).rank,
                self.next_rank == old(self).next_rank,
                self.previous_rank == old(self).previous_rank,
            decreases n - i,
        {
            let mut star: Particle = self.stars[i];
            star.calc_vec(new_vels[i]);
            self.stars.set(i, star);
            i += 1;
        }
        assert(self.stars@ =~= gathered(old(self).stars@, new_vels@));
        if self.rank != self.next_rank {
            self.stars_buff = received;
        } else {
            self.stars_buff = copy_of(&self.stars);
        }
    }

    /// Ends an iteration, after the last of its rounds. `moved` holds, for
    /// each resident in order, the position and velocity that the integrator
    /// gave. The residents take them and have nothing gathered any more, and
    /// the passing block becomes a copy of the residents as they now are.
    pub fn complete_interation(&mut self, moved: &Vec<Motion>)
        requires
            moved.len() == old(self).stars.len(),
        ensures
            final(self)@ == old(self)@.after_iteration(moved@),
    {
        let n: usize = self.stars.len();
        let mut i: usize = 0;
        while i < n
            invariant
                i <= n,
                n == self.stars.len(),
                n == moved.len(),
                n == old(self).stars.len(),
                forall|j: int|
                    0 <= j < i ==> #[trigger] self.stars@[j] == integrated(
                        old(self).stars@,
                        moved@,
                    )[j],
                forall|j: int| i <= j < n ==> #[trigger] self.stars@[j] == old(self).stars@[j],
                self.iteration == old(self).iteration,
                self.rank == old(self).rank,
                self.next_rank == old(self).next_rank,
                self.previous_rank == old(self).previous_rank,
            decreases n - i,
        {
            let mut star: Particle = self.stars[i];
            star.update(moved[i].pos, moved[i].vel);
            self.stars.set(i, star);
            i += 1;
        }
        assert(self.stars@ =~= integrated(old(self).stars@, moved@));
        self.stars_buff = copy_of(&self.stars);
    }
}

/// The lower neighbour of a rank is the rank before it, and that of rank 0
/// is the last rank.
pub proof fn lemma_previous_of(size: int, rank: int)
    requires
        1 <= size,
        0 <= rank < size,
    ensures
        previous_of(size, rank) == if rank == 0 {
            size - 1
        } else {
            rank - 1
        },
{
    if rank == 0 {
        assert((size - 1) % size == size - 1) by (nonlinear_arith)
            requires
                1 <= size,
        ;
    } else {
        assert((rank - 1 + size) % size == rank - 1) by (nonlinear_arith)
            requires
                1 <= rank < size,
        ;
    }
}

} // verus!
