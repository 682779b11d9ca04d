//! The text of records: a line of the input file falls into fields at its
//! commas, and the output is made of fields that each end in a comma.

use vstd::prelude::*;
use crate::partition::Rank;
use crate::star::parsed_particle;
use crate::star::Particle;
use crate::star::Unit;

verus! {

/// The byte that separates the fields of a record.
pub const COMMA: u8 = 44;

/// Whether a field holds no comma.
pub open spec fn comma_free(field: Seq<u8>) -> bool {
    forall|i: int| 0 <= i < field.len() ==> field[i] != COMMA
}

/// The line that the fields make when a comma is put between neighbours.
pub open spec fn joined(fields: Seq<Seq<u8>>) -> Seq<u8>
    decreases fields.len(),
{
    if fields.len() == 0 {
        Seq::empty()
    } else if fields.len() == 1 {
        fields[0]
    } else {
        joined(fields.drop_last()) + seq![COMMA] + fields.last()
    }
}

/// The texts that a vector of byte strings holds.
pub open spec fn texts(fields: Seq<Vec<u8>>) -> Seq<Seq<u8>> {
    Seq::new(fields.len(), |i: int| fields[i]@)
}

/// Splits a line at its commas. There is always at least one field, no field
/// holds a comma, and the fields joined by commas are the line again; by
/// `lemma_split_unique` this leaves one answer only.
pub fn split_fields(line: &[u8]) -> (r: Vec<Vec<u8>>)
    ensures
        r.len() >= 1,
        forall|i: int| 0 <= i < r.len() ==> comma_free(#[trigger] r[i]@),
        joined(texts(r@)) == line@,
{
    let mut out: Vec<Vec<u8>> = Vec::new();
    let mut cur: Vec<u8> = Vec::new();
    let mut i: usize = 0;
    while i < line.len()
        invariant
            i <= line.len(),
            forall|j: int| 0 <= j < out.len() ==> comma_free(#[trigger] out[j]@),
            comma_free(cur@),
            joined(texts(out@).push(cur@)) == line@.subrange(0, i as int),
        decreases line.len() - i,
    {
        let b: u8 = line[i];
        let ghost before = texts(out@);
        let ghost field = cur@;
        if b == COMMA {
            out.push(cur);
            cur = Vec::new();
            proof {
                assert(texts(out@) =~= before.push(field));
                let all = texts(out@).push(cur@);
                assert(all.drop_last() =~= texts(out@));
                assert(joined(all) =~= joined(texts(out@)) + seq![COMMA]);
            }
        } else {
            cur.push(b);
            proof {
                let all = before.push(cur@);
                let was = before.push(field);
                assert(all.drop_last() =~= before);
                assert(was.drop_last() =~= before);
                assert(joined(all) =~= joined(was) + seq![b]);
            }
        }
        assert(line@.subrange(0, i + 1) =~= line@.subrange(0, i as int) + seq![b]);
        i += 1;
    }
    let ghost before = texts(out@);
    out.push(cur);
    proof {
        assert(texts(out@) =~= before.push(cur@));
        assert(line@.subrange(0, line@.len() as int) =~= line@);
    }
    out
}

/// No two lists of comma-free fields make the same line: a line falls into
/// fields in one way only.
pub proof fn lemma_split_unique(a: Seq<Seq<u8>>, b: Seq<Seq<u8>>)
    requires
        a.len() >= 1,
        b.len() >= 1,
        forall|i: int| 0 <= i < a.len() ==> comma_free(#[trigger] a[i]),
        forall|i: int| 0 <= i < b.len() ==> comma_free(#[trigger] b[i]),
        joined(a) == joined(b),
    ensures
        a == b,
    decreases a.len(),
{
    let line = joined(a);
    if a.len() == 1 || b.len() == 1 {
        if a.len() > 1 {
            let at = joined(a.drop_last()).len() as int;
            assert(line[at] == COMMA);
            assert(comma_free(b[0]));
        }
        if b.len() > 1 {
            let at = joined(b.drop_last()).len() as int;
            assert(joined(b)[at] == COMMA);
            assert(comma_free(a[0]));
        }
        assert(a =~= b);
    } else {
        let head_a = joined(a.drop_last());
        let head_b = joined(b.drop_last());
        let at_a = head_a.len() as int;
        let at_b = head_b.len() as int;
        assert(line[at_a] == COMMA);
        assert(joined(b)[at_b] == COMMA);
        assert(comma_free(a.last()));
        assert(comma_free(b.last()));
        assert(line.len() == at_a + 1 + a.last().len());
        assert(joined(b).len() == at_b + 1 + b.last().len());
        if at_a < at_b {
            assert(line[at_b] == a.last()[at_b - at_a - 1]);
        }
        if at_b < at_a {
            assert(joined(b)[at_a] == b.last()[at_a - at_b - 1]);
        }
        assert(a.last() =~= line.subrange(at_a + 1, line.len() as int));
        assert(b.last() =~= line.subrange(at_a + 1, line.len() as int));
        assert(head_a =~= line.subrange(0, at_a));
        assert(head_b =~= line.subrange(0, at_a));
        assert forall|i: int| 0 <= i < a.drop_last().len() implies comma_free(
            #[trigger] a.drop_last()[i],
        ) by {
            assert(a.drop_last()[i] == a[i]);
        }
        assert forall|i: int| 0 <= i < b.drop_last().len() implies comma_free(
            #[trigger] b.drop_last()[i],
        ) by {
            assert(b.drop_last()[i] == b[i]);
        }
        lemma_split_unique(a.drop_last(), b.drop_last());
        assert(a =~= a.drop_last().push(a.last()));
        assert(b =~= b.drop_last().push(b.last()));
    }
}

/// The chunk that fields make for the output: every field with a comma
/// after it, in order.
pub open spec fn chunk_of(fields: Seq<Seq<u8>>) -> Seq<u8>
    decreases fields.len(),
{
    if fields.len() == 0 {
        Seq::empty()
    } else {
        chunk_of(fields.drop_last()) + fields.last() + seq![COMMA]
    }
}

/// Makes the output chunk of one process from its fields: the written forms
/// of the numbers that `positions` picked, in that order.
pub fn chunk(fields: &Vec<Vec<u8>>) -> (r: Vec<u8>)
    ensures
        r@ == chunk_of(texts(fields@)),
{
    let mut out: Vec<u8> = Vec::new();
    let mut i: usize = 0;
    while i < fields.len()
        invariant
            i <= fields.len(),
            out@ == chunk_of(texts(fields@).subrange(0, i as int)),
        decreases fields.len() - i,
    {
        let field: &Vec<u8> = &fields[i];
        let mut j: usize = 0;
        let ghost before = out@;
        while j < field.len()
            invariant
                j <= field.len(),
                out@ == before + field@.subrange(0, j as int),
            decreases field.len() - j,
        {
            out.push(field[j]);
            j += 1;
            assert(out@ =~= before + field@.subrange(0, j as int));
        }
        out.push(COMMA);
        proof {
            let done = texts(fields@).subrange(0, i + 1);
            assert(done.drop_last() =~= texts(fields@).subrange(0, i as int));
            assert(done.last() == field@);
            assert(field@.subrange(0, field@.len() as int) =~= field@);
            assert(out@ =~= chunk_of(done));
        }
        i += 1;
    }
    assert(texts(fields@).subrange(0, fields@.len() as int) =~= texts(fields@));
    out
}

/// The room that the collector sets aside for the chunks of all processes:
/// one chunk's length for each process, and one more.
pub fn gather_capacity(chunk_len: usize, size: Rank) -> (r: usize)
    requires
        0 <= size,
        chunk_len * (size + 1) <= usize::MAX,
    ensures
        r == chunk_len * (size + 1),
{
    chunk_len * (size as usize + 1)
}

/// A line without its zero bytes.
pub open spec fn without_zeros(line: Seq<u8>) -> Seq<u8> {
    line.filter(|b: u8| b != 0)
}

/// Takes the zero bytes out of the gathered line. The collector's room is
/// zero to begin with, so what the chunks did not fill goes away and the
/// chunks stay, in order.
pub fn strip_padding(line: &[u8]) -> (r: Vec<u8>)
    ensures
        r@ == without_zeros(line@),
{
    let mut out: Vec<u8> = Vec::new();
    let mut i: usize = 0;
    proof {
        reveal(Seq::filter);
        assert(line@.subrange(0, 0) =~= Seq::<u8>::empty());
    }
    while i < line.len()
        invariant
            i <= line.len(),
            out@ == without_zeros(line@.subrange(0, i as int)),
        decreases line.len() - i,
    {
        let b: u8 = line[i];
        proof {
            reveal(Seq::filter);
            let upto = line@.subrange(0, i + 1);
            assert(upto.drop_last() =~= line@.subrange(0, i as int));
            assert(upto.last() == b);
            assert(without_zeros(upto) == if b != 0 {
                without_zeros(upto.drop_last()).push(b)
            } else {
                without_zeros(upto.drop_last())
            });
        }
        if b != 0 {
            out.push(b);
        }
        i += 1;
    }
    assert(line@.subrange(0, line@.len() as int) =~= line@);
    out
}

/// The numbers that are written out for the particles: of each particle, in
/// order, the three numbers of its position and nothing else.
pub open spec fn positions_of(stars: Seq<Particle>) -> Seq<Unit> {
    Seq::new(
        3 * stars.len(),
        |i: int|
            if i % 3 == 0 {
                stars[i / 3].pos.0
            } else if i % 3 == 1 {
                stars[i / 3].pos.1
            } else {
                stars[i / 3].pos.2
            },
    )
}

/// Picks the numbers that are written out for the particles. Velocity, mass
/// and radius are not among them: what is written does not give the
/// particles back.
pub fn positions(stars: &Vec<Particle>) -> (r: Vec<Unit>)
    ensures
        r@ == positions_of(stars@),
{
    let mut out: Vec<Unit> = Vec::new();
    let mut i: usize = 0;
    while i < stars.len()
        invariant
            i <= stars.len(),
            out@ == positions_of(stars@.subrange(0, i as int)),
        decreases stars.len() - i,
    {
        let pos = stars[i].pos;
        out.push(pos.0);
        out.push(pos.1);
        out.push(pos.2);
        i += 1;
        assert(out@ =~= positions_of(stars@.subrange(0, i as int)));
    }
    assert(stars@.subrange(0, stars@.len() as int) =~= stars@);
    out
}

/// What is written for a particle that was read from a complete record is
/// what its first three fields held: reading and writing keep the position
/// as it is, and the rest of the record is not written.
pub proof fn lemma_position_round_trip(fields: Seq<Option<Unit>>)
    requires
        8 <= fields.len() <= 9,
        forall|i: int| 0 <= i < 8 ==> fields[i] is Some,
    ensures
        parsed_particle(fields) is Ok,
        positions_of(seq![parsed_particle(fields)->Ok_0]) == seq![
            fields[0]->0,
            fields[1]->0,
            fields[2]->0,
        ],
{
    assert(positions_of(seq![parsed_particle(fields)->Ok_0]) =~= seq![
        fields[0]->0,
        fields[1]->0,
        fields[2]->0,
    ]);
}

/// A chunk reads back as its fields: split at its commas it gives the
/// fields that it was made of, and one empty field after the last comma.
pub proof fn lemma_chunk_splits(fields: Seq<Seq<u8>>)
    ensures
        joined(fields.push(Seq::empty())) == chunk_of(fields),
    decreases fields.len(),
{
    let all = fields.push(Seq::empty());
    assert(all.drop_last() =~= fields);
    if fields.len() == 0 {
        assert(joined(all) =~= chunk_of(fields));
    } else {
        lemma_chunk_splits(fields.drop_last());
        let earlier = fields.drop_last().push(Seq::empty());
        assert(earlier.drop_last() =~= fields.drop_last());
        assert(joined(fields) =~= chunk_of(fields.drop_last()) + fields.last());
        assert(joined(all) =~= chunk_of(fields));
    }
}

} // verus!
