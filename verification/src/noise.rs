//! The seed field: four independent uniform draws for every cell of the grid.

use vstd::prelude::*;
use rand::Rng;
use rand::SeedableRng;
use rand::rngs::StdRng;
use rand::rngs::ThreadRng;
use crate::grid::{GridSize, MAX_GRID};

verus! {

/// The draws that one cell holds.
pub const CHANNELS: usize = 4;

/// One more than the largest draw: a draw `q` stands for the number
/// `q / 2^24` of the unit interval.
pub const UNIT: u32 = 0x100_0000;

/// The generator that the operating system seeds once for each thread.
#[verifier::external_type_specification]
#[verifier::external_body]
pub struct ExThreadRng(rand::rngs::ThreadRng);

/// The generator that is a function of its seed alone.
#[verifier::external_type_specification]
#[verifier::external_body]
pub struct ExStdRng(rand::rngs::StdRng);

/// `rand::thread_rng`: a handle to the calling thread's generator. Nothing
/// is claimed of it. The call panics where the operating system has no
/// entropy to seed the generator with; no argument decides that.
#[verifier::external_body]
fn thread_generator() -> (rng: ThreadRng) {
    rand::thread_rng()
}

/// `StdRng::seed_from_u64`: a generator started from `seed`. Nothing is
/// claimed of it. The call does not fail.
#[verifier::external_body]
fn seeded_generator(seed: u64) -> (rng: StdRng) {
    StdRng::seed_from_u64(seed)
}

/// `Rng::gen` at 32 bits on the thread's generator: the next 32 random
/// bits. Nothing is claimed of them. The generator seeds itself anew from
/// time to time, and the call panics where the operating system then has
/// no entropy.
#[verifier::external_body]
fn next_thread_word(rng: &mut ThreadRng) -> (word: u32) {
    rng.gen::<u32>()
}

/// `Rng::gen` at 32 bits on a seeded generator: the next 32 random bits.
/// Nothing is claimed of them. The call does not fail.
#[verifier::external_body]
fn next_seeded_word(rng: &mut StdRng) -> (word: u32) {
    rng.gen::<u32>()
}

/// The draw that 32 random bits give: their 24 most significant bits.
pub open spec fn draw_of(word: u32) -> u32 {
    word >> 8
}

/// Every draw lies in the unit interval.
pub proof fn lemma_draw_in_unit(word: u32)
    ensures
        draw_of(word) < UNIT,
{
    assert(word >> 8 < 0x100_0000u32) by (bit_vector);
}

/// The number of draws of a field on a grid of `n` cells a side.
pub open spec fn field_len(n: nat) -> nat {
    n * n * CHANNELS as nat
}

/// A seed field: for every cell of a grid, row after row, four draws.
pub struct RandomField {
    size: GridSize,
    draws: Vec<u32>,
}

impl View for RandomField {
    type V = Seq<u32>;

    closed spec fn view(&self) -> Seq<u32> {
        self.draws@
    }
}

impl RandomField {
    /// The grid that the field covers.
    pub closed spec fn spec_size(self) -> GridSize {
        self.size
    }

    /// The invariant of the type: the field's length fits its grid and
    /// every draw lies in the unit interval.
    #[verifier::type_invariant]
    pub open spec fn valid(self) -> bool {
        &&& self.spec_size().valid()
        &&& self@.len() == field_len(self.spec_size().spec_n())
        &&& forall|i: int| 0 <= i < self@.len() ==> #[trigger] self@[i] < UNIT
    }

    /// The field that the given random words give, each word 32 random
    /// bits: draw `i` is the 24 most significant bits of word `i`. `None`
    /// if and only if the number of words is not that of the grid's draws.
    pub fn from_words(size: GridSize, words: &Vec<u32>) -> (field: Option<RandomField>)
        ensures
            field is Some <==> words@.len() == field_len(size.spec_n()),
            field matches Some(f) ==> {
                &&& f.spec_size() == size
                &&& f.valid()
                &&& forall|i: int| 0 <= i < words@.len() ==> #[trigger] f@[i] == draw_of(words@[i])
            },
    {
        let n = size.n();
        proof {
            lemma_field_len_fits(n as nat);
        }
        if words.len() != (n as usize) * (n as usize) * CHANNELS {
            return None;
        }
        Some(Self::collect(size, words))
    }

    fn collect(size: GridSize, words: &Vec<u32>) -> (field: RandomField)
        requires
            size.valid(),
            words@.len() == field_len(size.spec_n()),
        ensures
            field.spec_size() == size,
            field.valid(),
            forall|i: int| 0 <= i < words@.len() ==> #[trigger] field@[i] == draw_of(words@[i]),
    {
        let len = words.len();
        let mut draws: Vec<u32> = Vec::new();
        let mut i: usize = 0;
        while i < len
            invariant
                i <= len,
                len == words@.len(),
                draws@.len() == i,
                forall|j: int| 0 <= j < i ==> #[trigger] draws@[j] == draw_of(words@[j]),
                forall|j: int| 0 <= j < i ==> #[trigger] draws@[j] < UNIT,
            decreases len - i,
        {
            let word = words[i];
            proof {
                lemma_draw_in_unit(word);
            }
            draws.push(word >> 8);
            i = i + 1;
        }
        RandomField { size, draws }
    }

    /// A field of fresh draws from the calling thread's generator, which
    /// the operating system seeds.
    pub fn generate(size: GridSize) -> (field: RandomField)
        ensures
            field.spec_size() == size,
            field.valid(),
    {
        let n = size.n();
        proof {
            lemma_field_len_fits(n as nat);
        }
        let len = (n as usize) * (n as usize) * CHANNELS;
        let mut rng = thread_generator();
        let mut words: Vec<u32> = Vec::new();
        let mut i: usize = 0;
        while i < len
            invariant
                i <= len,
                words@.len() == i,
            decreases len - i,
        {
            let word = next_thread_word(&mut rng);
            words.push(word);
            i = i + 1;
        }
        Self::collect(size, &words)
    }

    /// A field of the draws that a generator started from `seed` gives.
    pub fn generate_seeded(size: GridSize, seed: u64) -> (field: RandomField)
        ensures
            field.spec_size() == size,
            field.valid(),
    {
        let n = size.n();
        proof {
            lemma_field_len_fits(n as nat);
        }
        let len = (n as usize) * (n as usize) * CHANNELS;
        let mut rng = seeded_generator(seed);
        let mut words: Vec<u32> = Vec::new();
        let mut i: usize = 0;
        while i < len
            invariant
                i <= len,
                words@.len() == i,
            decreases len - i,
        {
            let word = next_seeded_word(&mut rng);
            words.push(word);
            i = i + 1;
        }
        Self::collect(size, &words)
    }

    /// The grid that the field covers.
    pub fn size(&self) -> (size: GridSize)
        ensures
            size == self.spec_size(),
            self.valid(),
    {
        proof {
            use_type_invariant(self);
        }
        self.size
    }

    /// All draws: four for each cell, row after row.
    pub fn draws(&self) -> (draws: &Vec<u32>)
        ensures
            draws@ == self@,
            self.valid(),
    {
        proof {
            use_type_invariant(self);
        }
        &self.draws
    }
}

/// The draws of the largest grid can be counted in 32 bits.
pub proof fn lemma_field_len_fits(n: nat)
    requires
        n <= MAX_GRID,
    ensures
        n * n <= 0x1000_0000,
        field_len(n) <= 0x4000_0000,
{
    assert(n * n <= 0x1000_0000) by (nonlinear_arith)
        requires
            n <= 0x4000,
    ;
}

} // verus!
