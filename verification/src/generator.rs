//! Reproducible synthetic blocks for measurements and tests.
//!
//! The data is a pure function of a seed: a xorshift generator is stepped a
//! few times per term, and what it returns fixes the term. The stream of
//! terms is written down here as a specification, `stream_term`, and the
//! generator is proved to produce exactly that stream.

use crate::term::{join_mask, join_words, Block, FullTerm};
use vstd::prelude::*;

verus! {

/// Terms in all the generated blocks together.
pub const TOTAL_ENTRIES: usize = 1_000_000;

/// Terms in one generated block.
pub const ENTRIES_PER_BLOCK: usize = 100;

/// Generated blocks.
pub const NUM_BLOCKS: usize = TOTAL_ENTRIES / ENTRIES_PER_BLOCK;

/// The seed of the generated data.
pub const SEED: u64 = 42;

/// One step of the 64-bit xorshift generator with shifts 13, 7 and 17: the
/// state after the step, which is also the number the step returns.
pub open spec fn xorshift_step(state: u64) -> u64 {
    let a = state ^ (state << 13);
    let b = a ^ (a >> 7);
    b ^ (b << 17)
}

/// A step never reaches zero from a state that is not zero, so a generator
/// that starts away from zero never gets stuck there.
pub proof fn lemma_xorshift_step_nonzero(state: u64)
    requires
        state != 0,
    ensures
        xorshift_step(state) != 0,
{
    let a = state ^ (state << 13);
    let b = a ^ (a >> 7);
    let c = b ^ (b << 17);
    assert(a != 0) by (bit_vector)
        requires
            state != 0,
            a == state ^ (state << 13),
    ;
    assert(b != 0) by (bit_vector)
        requires
            a != 0,
            b == a ^ (a >> 7),
    ;
    assert(c != 0) by (bit_vector)
        requires
            b != 0,
            c == b ^ (b << 17),
    ;
}

/// A small deterministic pseudo-random number generator.
pub struct Xorshift64 {
    state: u64,
}

impl View for Xorshift64 {
    type V = u64;

    /// The state of the generator.
    closed spec fn view(&self) -> u64 {
        self.state
    }
}

impl Xorshift64 {
    /// The state is never zero.
    #[verifier::type_invariant]
    spec fn well_formed(self) -> bool {
        self.state != 0
    }

    /// A generator that starts from `seed`, or from 1 when the seed is 0.
    pub fn new(seed: u64) -> (rng: Self)
        ensures
            rng@ == if seed == 0 {
                1
            } else {
                seed
            },
    {
        Self {
            state: if seed == 0 {
                1
            } else {
                seed
            },
        }
    }

    /// Steps the generator and returns its new state, which is never zero.
    pub fn next(&mut self) -> (value: u64)
        ensures
            value == xorshift_step(old(self)@),
            final(self)@ == value,
            value != 0,
    {
        proof {
            use_type_invariant(&*self);
            lemma_xorshift_step_nonzero(self.state);
        }
        let mut x = self.state;
        x ^= x << 13;
        x ^= x >> 7;
        x ^= x << 17;
        self.state = x;
        x
    }

    /// Steps the generator twice and returns the two numbers as one: the
    /// first is the high word, the second the low word.
    pub fn next_u128(&mut self) -> (value: u128)
        ensures
            value == join_words(
                xorshift_step(old(self)@),
                xorshift_step(xorshift_step(old(self)@)),
            ),
            final(self)@ == xorshift_step(xorshift_step(old(self)@)),
    {
        let high = self.next();
        let low = self.next();
        join_mask(high, low)
    }
}

/// The term that the generator draws from state `state` when the document
/// before it was `doc_id`, and the state it leaves.
///
/// It steps once to decide whether to leave a gap: one time in ten it steps
/// again and moves on by 1 to 5 documents, otherwise by 1. Two more steps
/// give the field mask and a last one the frequency, from 1 to 1000.
pub open spec fn draw_term(state: u64, doc_id: u64) -> (FullTerm, u64) {
    let choice = xorshift_step(state);
    let decided = if choice % 10 == 0 {
        xorshift_step(choice)
    } else {
        choice
    };
    let gap = if choice % 10 == 0 {
        decided % 5 + 1
    } else {
        1
    };
    let high = xorshift_step(decided);
    let low = xorshift_step(high);
    let last = xorshift_step(low);
    (
        FullTerm {
            doc_id: (doc_id + gap) as u64,
            field_mask: join_words(high, low),
            frequency: (last % 1000 + 1) as u64,
        },
        last,
    )
}

/// Where the generator stands after `count` terms from `seed`: its state and
/// the last document.
pub open spec fn stream_state(seed: u64, count: nat) -> (u64, u64)
    decreases count,
{
    if count == 0 {
        (seed, 0)
    } else {
        let (state, doc_id) = stream_state(seed, (count - 1) as nat);
        let (term, after) = draw_term(state, doc_id);
        (after, term.doc_id)
    }
}

/// Term number `index`, from 0, of the stream that starts at `seed`.
pub open spec fn stream_term(seed: u64, index: nat) -> FullTerm {
    let (state, doc_id) = stream_state(seed, index);
    draw_term(state, doc_id).0
}

/// Every term that is drawn moves on by 1 to 5 documents and occurs 1 to
/// 1000 times.
pub proof fn lemma_draw_term_bounds(state: u64, doc_id: u64)
    requires
        doc_id <= u64::MAX - 5,
    ensures
        doc_id < draw_term(state, doc_id).0.doc_id <= doc_id + 5,
        1 <= draw_term(state, doc_id).0.frequency <= 1000,
{
}

/// Document numbers grow along the stream: term number `index` lies 1 to 5
/// documents after the term before it, and so between `index + 1` and
/// `5 (index + 1)`.
pub proof fn lemma_stream_doc_ids_grow(seed: u64, index: nat)
    requires
        5 * (index + 1) <= u64::MAX,
    ensures
        index <= stream_state(seed, index).1 <= 5 * index,
        stream_state(seed, index).1 < stream_term(seed, index).doc_id <= stream_state(
            seed,
            index,
        ).1 + 5,
        stream_state(seed, index + 1).1 == stream_term(seed, index).doc_id,
    decreases index,
{
    if index > 0 {
        lemma_stream_doc_ids_grow(seed, (index - 1) as nat);
    }
}

/// Draws one term after document `doc_id`.
fn next_term(rng: &mut Xorshift64, doc_id: u64) -> (term: FullTerm)
    requires
        doc_id <= u64::MAX - 5,
    ensures
        term == draw_term(old(rng)@, doc_id).0,
        final(rng)@ == draw_term(old(rng)@, doc_id).1,
        doc_id < term.doc_id <= doc_id + 5,
        1 <= term.frequency <= 1000,
{
    let gap = if rng.next() % 10 == 0 {
        rng.next() % 5 + 1  // Gap of 1-5
    } else {
        1  // Sequential
    };
    let field_mask = rng.next_u128();
    let frequency = rng.next() % 1000 + 1;
    FullTerm { doc_id: doc_id + gap, field_mask, frequency }
}

/// Generates the test data: `NUM_BLOCKS` blocks of `ENTRIES_PER_BLOCK` terms
/// each, which are the first `TOTAL_ENTRIES` terms of the stream of `SEED`
/// cut into blocks. Document numbers grow from term to term through the
/// whole data, by 1 to 5 at a time.
pub fn generate_test_data() -> (blocks: Vec<Block>)
    ensures
        blocks@.len() == 10_000,
        forall|b: int|
            0 <= b < 10_000 ==> (#[trigger] blocks@[b])@ == Seq::new(
                100,
                |k: int| stream_term(SEED, (100 * b + k) as nat),
            ),
{
    // Use a deterministic seed for reproducibility
    let mut rng = Xorshift64::new(SEED);

    let mut blocks: Vec<Block> = Vec::with_capacity(NUM_BLOCKS);
    let mut current_doc_id: u64 = 0;

    for block_index in 0..NUM_BLOCKS
        invariant
            blocks@.len() == block_index,
            (rng@, current_doc_id) == stream_state(SEED, (100 * block_index) as nat),
            current_doc_id <= 500 * block_index,
            forall|b: int|
                0 <= b < block_index ==> (#[trigger] blocks@[b])@ == Seq::new(
                    100,
                    |k: int| stream_term(SEED, (100 * b + k) as nat),
                ),
    {
        let mut terms: Vec<FullTerm> = Vec::with_capacity(ENTRIES_PER_BLOCK);
        let ghost first = 100 * block_index;

        for entry_index in 0..ENTRIES_PER_BLOCK
            invariant
                0 <= block_index < 10_000,
                first == 100 * block_index,
                (rng@, current_doc_id) == stream_state(SEED, (first + entry_index) as nat),
                current_doc_id <= 5 * (first + entry_index),
                terms@ =~= Seq::new(
                    entry_index as nat,
                    |k: int| stream_term(SEED, (first + k) as nat),
                ),
        {
            let term = next_term(&mut rng, current_doc_id);
            current_doc_id = term.doc_id;
            terms.push(term);
        }

        blocks.push(Block { full_terms: terms });
    }

    blocks
}

} // verus!
