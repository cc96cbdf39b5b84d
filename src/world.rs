use vstd::prelude::*;
use std::collections::HashMap;
use crate::chunk::{Chunk, ChunkStack, ChunkUW};

verus! {

broadcast use vstd::std_specs::hash::group_hash_axioms;

/// The noise generator of the `noise` crate, carried by the world as an opaque value.
#[verifier::external_type_specification]
#[verifier::external_body]
pub struct ExSimplex(noise::Simplex);

/// Relies on noise::Simplex::new: builds the generator for a seed; nothing about the
/// result is used here.
pub assume_specification[ noise::Simplex::new ](seed: u32) -> noise::Simplex;

/// Map key of the column `uw`: the two coordinates, offset to be non-negative, side by side.
pub open spec fn column_key(uw: ChunkUW) -> u64 {
    ((uw.0 as int + 0x8000_0000) * 0x1_0000_0000 + (uw.1 as int + 0x8000_0000)) as u64
}

/// Distinct columns have distinct keys.
pub proof fn lemma_column_key_injective(a: ChunkUW, b: ChunkUW)
    ensures
        column_key(a) == column_key(b) <==> a == b,
{
}

pub fn column_key_of(uw: ChunkUW) -> (r: u64)
    ensures
        r == column_key(uw),
{
    let u = (uw.0 as i64 + 0x8000_0000) as u64;
    let w = (uw.1 as i64 + 0x8000_0000) as u64;
    u * 0x1_0000_0000 + w
}

/// The seeded noise source and the terrain columns generated so far, by column key.
pub struct World {
    noise: noise::Simplex,
    chunk_stacks: HashMap<u64, ChunkStack>,
}

impl View for World {
    type V = Map<u64, ChunkStack>;

    closed spec fn view(&self) -> Map<u64, ChunkStack> {
        self.chunk_stacks@
    }
}

impl World {
    /// Every column of the world is a well-formed stack.
    pub open spec fn wf(&self) -> bool {
        forall|k: u64| #[trigger] self@.contains_key(k) ==> self@[k].wf()
    }

    /// A world without columns whose terrain comes from the noise seeded with `seed`.
    pub fn new(seed: u32) -> (r: World)
        ensures
            r@ == Map::<u64, ChunkStack>::empty(),
            r.wf(),
    {
        World { noise: noise::Simplex::new(seed), chunk_stacks: HashMap::new() }
    }

    /// The noise source, to be sampled where terrain is generated.
    pub fn noise_source(&self) -> (r: &noise::Simplex) {
        &self.noise
    }

    pub fn has_column(&self, uw: ChunkUW) -> (r: bool)
        ensures
            r == self@.contains_key(column_key(uw)),
    {
        let key = column_key_of(uw);
        self.chunk_stacks.contains_key(&key)
    }

    pub fn get_column(&self, uw: ChunkUW) -> (r: Option<&ChunkStack>)
        ensures
            match r {
                Some(s) => self@.contains_key(column_key(uw)) && *s == self@[column_key(uw)],
                None => !self@.contains_key(column_key(uw)),
            },
    {
        let key = column_key_of(uw);
        self.chunk_stacks.get(&key)
    }

    /// Adds a generated column; a column is inserted at most once.
    pub fn insert_chunks(&mut self, uw: ChunkUW, chunk_stack: ChunkStack)
        requires
            old(self).wf(),
            chunk_stack.wf(),
            !old(self)@.contains_key(column_key(uw)),
        ensures
            final(self).wf(),
            final(self)@ == old(self)@.insert(column_key(uw), chunk_stack),
    {
        let key = column_key_of(uw);
        self.chunk_stacks.insert(key, chunk_stack);
    }

    /// Generates column `uw` from its noise samples and adds it; a column is generated at
    /// most once.
    pub fn create_chunks(&mut self, uw: ChunkUW, samples: &Vec<u32>)
        requires
            old(self).wf(),
            samples@.len() == 1156,
            !old(self)@.contains_key(column_key(uw)),
        ensures
            final(self).wf(),
            final(self)@.contains_key(column_key(uw)),
            final(self)@[column_key(uw)].generated_from(uw, samples@),
            final(self)@ == old(self)@.insert(column_key(uw), final(self)@[column_key(uw)]),
    {
        let chunk_stack = Chunk::generate_stack(uw, samples);
        self.insert_chunks(uw, chunk_stack);
    }

    /// Takes a column out of the world, if it is there.
    pub fn take_column(&mut self, uw: ChunkUW) -> (r: Option<ChunkStack>)
        requires
            old(self).wf(),
        ensures
            final(self).wf(),
            final(self)@ == old(self)@.remove(column_key(uw)),
            match r {
                Some(s) => old(self)@.contains_key(column_key(uw)) && s == old(self)@[column_key(
                    uw,
                )],
                None => !old(self)@.contains_key(column_key(uw)),
            },
    {
        let key = column_key_of(uw);
        let r = self.chunk_stacks.remove(&key);
        assert forall|k: u64| #[trigger] self@.contains_key(k) implies self@[k].wf() by {
            assert(old(self)@.contains_key(k));
            assert(self@[k] == old(self)@[k]);
        }
        r
    }
}

} // verus!
