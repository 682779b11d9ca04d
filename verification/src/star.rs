//! Particles, and the layout of one record of the input file.
//!
//! A number is held as a `Unit`: the IEEE 754 single-precision encoding of
//! its value. This crate stores such numbers, hands them back unchanged and
//! tells whether two of them are equal; it never computes with them.

use vstd::prelude::*;
use vstd::slice::slice_subrange;
use crate::err::ParseError;

verus! {

/// The encoding of one single-precision number.
pub type Unit = u32;

/// The encoding of 1.
pub const ONE: Unit = 0x3f80_0000;

/// The encoding of the single-precision number nearest to 1.01.
pub const ONE_AND_A_HUNDREDTH: Unit = 0x3f81_47ae;

/// The encoding of 5.
pub const FIVE: Unit = 0x40a0_0000;

/// The encoding without its sign: the size of the number.
pub open spec fn magnitude(a: Unit) -> Unit {
    a & 0x7fff_ffff
}

/// Whether the encoding stands for no number at all (a NaN): those are the
/// encodings whose size lies above that of infinity.
pub open spec fn is_nan(a: Unit) -> bool {
    magnitude(a) > 0x7f80_0000
}

/// Whether two encodings stand for equal numbers. What is no number equals
/// nothing, not even itself; positive and negative zero are equal; any other
/// two numbers are equal exactly where their encodings are.
pub open spec fn same_number(a: Unit, b: Unit) -> bool {
    !is_nan(a) && !is_nan(b) && (a == b || (magnitude(a) == 0 && magnitude(b) == 0))
}

/// Tells whether two encodings stand for equal numbers.
pub fn numbers_equal(a: Unit, b: Unit) -> (r: bool)
    ensures
        r == same_number(a, b),
{
    let size_a: Unit = a & 0x7fff_ffff;
    let size_b: Unit = b & 0x7fff_ffff;
    size_a <= 0x7f80_0000 && size_b <= 0x7f80_0000 && (a == b || (size_a == 0 && size_b == 0))
}

/// Three numbers: a position, a velocity or an acceleration.
///
/// `==` holds of two vectors with the same encodings; `equals` tells whether
/// their numbers are equal, which is not the same for zeros and NaNs.
#[derive(Copy, Clone, Debug, PartialEq, Eq, Structural)]
pub struct Vec3(pub Unit, pub Unit, pub Unit);

/// What three fields give when they are read as one vector. A field is
/// `Some` with the number's encoding where its text is a number, and `None`
/// where it is not.
pub open spec fn parsed_vec3(fields: Seq<Option<Unit>>) -> Result<Vec3, ParseError> {
    if fields.len() != 3 {
        Err(ParseError::BadVector)
    } else if fields[0] is None || fields[1] is None || fields[2] is None {
        Err(ParseError::CannotParse)
    } else {
        Ok(Vec3(fields[0]->0, fields[1]->0, fields[2]->0))
    }
}

impl Vec3 {
    /// Reads a vector from its three fields.
    pub fn from_vec(vec: &[Option<Unit>]) -> (r: Result<Vec3, ParseError>)
        ensures
            r == parsed_vec3(vec@),
    {
        if vec.len() != 3 {
            return Err(ParseError::BadVector);
        }
        let x: Unit = match vec[0] {
            Some(x) => x,
            None => { return Err(ParseError::CannotParse); },
        };
        let y: Unit = match vec[1] {
            Some(y) => y,
            None => { return Err(ParseError::CannotParse); },
        };
        let z: Unit = match vec[2] {
            Some(z) => z,
            None => { return Err(ParseError::CannotParse); },
        };
        Ok(Vec3(x, y, z))
    }

    /// Whether the two vectors hold equal numbers, place by place.
    pub open spec fn same_as(self, other: Vec3) -> bool {
        same_number(self.0, other.0) && same_number(self.1, other.1) && same_number(
            self.2,
            other.2,
        )
    }

    /// Tells whether the two vectors hold equal numbers, place by place.
    pub fn equals(&self, other: &Vec3) -> (r: bool)
        ensures
            r == self.same_as(*other),
    {
        numbers_equal(self.0, other.0) && numbers_equal(self.1, other.1) && numbers_equal(
            self.2,
            other.2,
        )
    }

    /// The vector whose three numbers are positive zero.
    pub fn zeros() -> (r: Vec3)
        ensures
            r == Vec3(0, 0, 0),
    {
        Vec3(0, 0, 0)
    }
}

/// A body with its position, velocity, mass and radius, and the change of
/// velocity that has been gathered for it since the last integration.
///
/// `==` holds of two particles with the same encodings; `equals` tells
/// whether they are the same particle.
#[derive(Copy, Clone, Debug, PartialEq, Eq, Structural)]
pub struct Particle {
    pub pos: Vec3,
    pub vel: Vec3,
    pub mass: Unit,
    pub radius: Unit,
    pub new_vel: Vec3,
}

/// What the fields of one record give when they are read as a particle.
///
/// The record is `px,py,pz,vx,vy,vz,mass,radius`; a ninth field is allowed
/// and ignored. The fields are judged from left to right: with seven fields
/// a bad number among them is reported before the missing radius.
pub open spec fn parsed_particle(fields: Seq<Option<Unit>>) -> Result<Particle, ParseError> {
    if fields.len() < 7 || fields.len() > 9 {
        Err(ParseError::TooFewArguments)
    } else if exists|i: int| 0 <= i < 7 && fields[i] is None {
        Err(ParseError::CannotParse)
    } else if fields.len() == 7 {
        Err(ParseError::TooFewArguments)
    } else if fields[7] is None {
        Err(ParseError::CannotParse)
    } else {
        Ok(
            Particle {
                pos: Vec3(fields[0]->0, fields[1]->0, fields[2]->0),
                vel: Vec3(fields[3]->0, fields[4]->0, fields[5]->0),
                mass: fields[6]->0,
                radius: fields[7]->0,
                new_vel: Vec3(0, 0, 0),
            },
        )
    }
}

impl Particle {
    /// A particle at rest in no field: position and velocity (1.01, 1, 1),
    /// mass 5, radius 1, nothing gathered.
    pub fn new() -> (r: Particle)
        ensures
            r == (Particle {
                pos: Vec3(ONE_AND_A_HUNDREDTH, ONE, ONE),
                vel: Vec3(ONE_AND_A_HUNDREDTH, ONE, ONE),
                mass: FIVE,
                radius: ONE,
                new_vel: Vec3(0, 0, 0),
            }),
    {
        Particle {
            pos: Vec3(ONE_AND_A_HUNDREDTH, ONE, ONE),
            vel: Vec3(ONE_AND_A_HUNDREDTH, ONE, ONE),
            mass: FIVE,
            radius: ONE,
            new_vel: Vec3::zeros(),
        }
    }

    /// Reads a particle from the fields of one record.
    pub fn from_str(fields: &[Option<Unit>]) -> (r: Result<Particle, ParseError>)
        ensures
            r == parsed_particle(fields@),
    {
        let n: usize = fields.len();
        if n < 7 || n > 9 {
            return Err(ParseError::TooFewArguments);
        }
        let ghost first = fields@.subrange(0, 3);
        let ghost second = fields@.subrange(3, 6);
        assert(first[0] == fields@[0] && first[1] == fields@[1] && first[2] == fields@[2]);
        assert(second[0] == fields@[3] && second[1] == fields@[4] && second[2] == fields@[5]);
        let pos = match Vec3::from_vec(slice_subrange(fields, 0, 3)) {
            Ok(v) => v,
            Err(e) => { return Err(e); },
        };
        let vel = match Vec3::from_vec(slice_subrange(fields, 3, 6)) {
            Ok(v) => v,
            Err(e) => { return Err(e); },
        };
        let mass: Unit = match fields[6] {
            Some(m) => m,
            None => { return Err(ParseError::CannotParse); },
        };
        if n == 7 {
            return Err(ParseError::TooFewArguments);
        }
        let radius: Unit = match fields[7] {
            Some(r) => r,
            None => { return Err(ParseError::CannotParse); },
        };
        Ok(Particle { pos, vel, mass, radius, new_vel: Vec3::zeros() })
    }

    /// Whether the two are the same particle. Particles carry no name: two
    /// are the same where all their numbers are equal, those of what they
    /// have gathered included. Two bodies that agree in every number are thus
    /// taken for one, and a particle with a NaN among its numbers is not even
    /// the same as itself.
    pub open spec fn same_as(self, other: Particle) -> bool {
        &&& self.pos.same_as(other.pos)
        &&& self.vel.same_as(other.vel)
        &&& same_number(self.mass, other.mass)
        &&& same_number(self.radius, other.radius)
        &&& self.new_vel.same_as(other.new_vel)
    }

    /// Tells whether the two are the same particle.
    pub fn equals(&self, other: &Particle) -> (r: bool)
        ensures
            r == self.same_as(*other),
    {
        self.pos.equals(&other.pos) && self.vel.equals(&other.vel) && numbers_equal(
            self.mass,
            other.mass,
        ) && numbers_equal(self.radius, other.radius) && self.new_vel.equals(&other.new_vel)
    }

    /// The particles of a passing block that act on this one: all of them, in
    /// order, but those that are this particle itself.
    pub open spec fn acting(self, block: Seq<Particle>) -> Seq<Particle> {
        block.filter(|other: Particle| !other.same_as(self))
    }

    /// Picks from a passing block the particles that act on this one.
    pub fn others(&self, block: &Vec<Particle>) -> (r: Vec<Particle>)
        ensures
            r@ == self.acting(block@),
    {
        let mut out: Vec<Particle> = Vec::new();
        let mut i: usize = 0;
        proof {
            reveal(Seq::filter);
            assert(block@.subrange(0, 0) =~= Seq::<Particle>::empty());
        }
        while i < block.len()
            invariant
                i <= block.len(),
                out@ == self.acting(block@.subrange(0, i as int)),
            decreases block.len() - i,
        {
            let other: Particle = block[i];
            proof {
                reveal(Seq::filter);
                let upto = block@.subrange(0, i + 1);
                assert(upto.drop_last() =~= block@.subrange(0, i as int));
                assert(upto.last() == other);
                assert(self.acting(upto) == if !other.same_as(*self) {
                    self.acting(upto.drop_last()).push(other)
                } else {
                    self.acting(upto.drop_last())
                });
            }
            if !other.equals(self) {
                out.push(other);
            }
            i += 1;
        }
        assert(block@.subrange(0, block@.len() as int) =~= block@);
        out
    }

    /// Takes in the outcome of one exchange round for this particle: the
    /// change of velocity gathered so far, as the force law gave it from the
    /// particles that passed by. Nothing else of the particle changes.
    pub fn calc_vec(&mut self, new_vel: Vec3)
        ensures
            *final(self) == (Particle { new_vel, ..*old(self) }),
    {
        self.new_vel = new_vel;
    }

    /// Takes in the outcome of the integration step: the position and the
    /// velocity that the integrator gave. What had been gathered is spent: the
    /// gathered change of velocity goes back to zero. Mass and radius stay.
    pub fn update(&mut self, pos: Vec3, vel: Vec3)
        ensures
            *final(self) == (Particle { pos, vel, new_vel: Vec3(0, 0, 0), ..*old(self) }),
    {
        self.pos = pos;
        self.vel = vel;
        self.new_vel = Vec3::zeros();
    }

    /// The particle's mass.
    pub fn get_mass(&self) -> (r: Unit)
        ensures
            r == self.mass,
    {
        self.mass
    }

    /// The change of velocity gathered so far.
    pub fn get_new_vel(&self) -> (r: Vec3)
        ensures
            r == self.new_vel,
    {
        self.new_vel
    }
}

/// Being the same particle goes both ways: where one particle acts on
/// another, the other acts on it.
pub proof fn lemma_same_both_ways(a: Particle, b: Particle)
    ensures
        a.same_as(b) == b.same_as(a),
{
}

/// What acts on a particle was in the block and is not the particle itself.
pub proof fn lemma_acting_excludes_self(p: Particle, block: Seq<Particle>, k: int)
    requires
        0 <= k < p.acting(block).len(),
    ensures
        !p.acting(block)[k].same_as(p),
        block.contains(p.acting(block)[k]),
        p.acting(block).len() <= block.len(),
{
    let of_p = |other: Particle| !other.same_as(p);
    block.lemma_filter_pred(of_p, k);
    block.lemma_filter_len(of_p);
    lemma_acting_within(p, block, k);
}

proof fn lemma_acting_within(p: Particle, block: Seq<Particle>, k: int)
    requires
        0 <= k < p.acting(block).len(),
    ensures
        block.contains(p.acting(block)[k]),
    decreases block.len(),
{
    reveal(Seq::filter);
    if block.len() > 0 {
        let earlier = block.drop_last();
        if k < p.acting(earlier).len() {
            lemma_acting_within(p, earlier, k);
            let found = choose|i: int| 0 <= i < earlier.len() && earlier[i] == p.acting(earlier)[k];
            assert(block[found] == p.acting(block)[k]);
        } else {
            assert(block[block.len() - 1] == p.acting(block)[k]);
        }
    }
}

/// A particle whose numbers are all numbers does not act on itself.
pub proof fn lemma_no_self_pull(p: Particle)
    requires
        p.same_as(p),
    ensures
        p.acting(seq![p]) == Seq::<Particle>::empty(),
{
    reveal(Seq::filter);
    assert(seq![p].drop_last() =~= Seq::<Particle>::empty());
    assert(seq![p].drop_last().filter(|other: Particle| !other.same_as(p)) =~= Seq::<
        Particle,
    >::empty());
}

} // verus!
