//! Fixed-length blocks of audio samples, the atomic unit of transport,
//! effects processing and mixing.
//!
//! The library carries each single-precision sample as its 32-bit
//! little-endian bit pattern and never interprets it numerically; numeric
//! signal work (gain, distortion, filtering, mixing arithmetic) happens
//! outside the library, at the audio boundary.

use vstd::prelude::*;

use crate::TX_BUFFER_SIZE;

verus! {

/// Mask that clears the sign bit of a sample word: a sample is audible
/// silence exactly when all remaining bits are zero, which holds of the bit
/// patterns of positive and of negative floating zero alike.
pub const SAMPLE_MAGNITUDE_MASK: u32 = 0x7fff_ffff;

/// Whether a sample word is the bit pattern of a zero sample
/// (positive or negative floating zero).
pub open spec fn silent_word(w: u32) -> bool {
    w & SAMPLE_MAGNITUDE_MASK == 0
}

/// Whether a whole sequence of sample words is silence.
pub open spec fn silent_seq(s: Seq<u32>) -> bool {
    forall|i: int| 0 <= i < s.len() ==> silent_word(#[trigger] s[i])
}

/// One block of exactly `TX_BUFFER_SIZE` samples.
#[derive(Debug)]
pub struct SampleBlock {
    words: Vec<u32>,
}

impl View for SampleBlock {
    type V = Seq<u32>;

    closed spec fn view(&self) -> Seq<u32> {
        self.words@
    }
}

impl SampleBlock {
    /// A well-formed block holds exactly one block's worth of samples;
    /// partial blocks are never formed.
    pub open spec fn wf(&self) -> bool {
        self@.len() == TX_BUFFER_SIZE
    }

    /// The all-zero (silent) block.
    pub fn zero() -> (r: Self)
        ensures
            r.wf(),
            r@ == Seq::new(TX_BUFFER_SIZE as nat, |i: int| 0u32),
            silent_seq(r@),
    {
        let mut words: Vec<u32> = Vec::with_capacity(TX_BUFFER_SIZE);
        let mut i: usize = 0;
        while i < TX_BUFFER_SIZE
            invariant
                i <= TX_BUFFER_SIZE,
                words@.len() == i,
                forall|j: int| 0 <= j < i ==> words@[j] == 0u32,
            decreases TX_BUFFER_SIZE - i,
        {
            words.push(0u32);
            i = i + 1;
        }
        let r = SampleBlock { words };
        assert(r@ =~= Seq::new(TX_BUFFER_SIZE as nat, |i: int| 0u32));
        assert(0u32 & SAMPLE_MAGNITUDE_MASK == 0) by (bit_vector);
        r
    }

    /// Builds a block from exactly one block's worth of samples; anything of
    /// another length is rejected.
    pub fn from_words(words: Vec<u32>) -> (r: Option<Self>)
        ensures
            words@.len() == TX_BUFFER_SIZE ==> (r matches Some(b) && b@ == words@ && b.wf()),
            words@.len() != TX_BUFFER_SIZE ==> r is None,
    {
        if words.len() == TX_BUFFER_SIZE {
            Some(SampleBlock { words })
        } else {
            None
        }
    }

    /// Builds a block from samples already known to be exactly one block's
    /// worth, as the session's chunking produces them.
    pub(crate) fn from_exact(words: Vec<u32>) -> (r: Self)
        requires
            words@.len() == TX_BUFFER_SIZE,
        ensures
            r@ == words@,
            r.wf(),
    {
        SampleBlock { words }
    }

    /// The samples of the block, oldest first.
    pub fn as_words(&self) -> (r: &Vec<u32>)
        ensures
            r@ == self@,
    {
        &self.words
    }

    /// An exact copy of the block.
    pub fn duplicate(&self) -> (r: Self)
        ensures
            r@ == self@,
    {
        let mut words: Vec<u32> = Vec::with_capacity(self.words.len());
        let mut i: usize = 0;
        while i < self.words.len()
            invariant
                i <= self.words@.len(),
                words@ == self.words@.take(i as int),
            decreases self.words@.len() - i,
        {
            words.push(self.words[i]);
            assert(words@ =~= self.words@.take(i + 1));
            i = i + 1;
        }
        assert(words@ =~= self.words@);
        SampleBlock { words }
    }

    /// Whether every sample of the block is a zero sample; the relay skips
    /// broadcasting such a block.
    pub fn is_silent(&self) -> (r: bool)
        ensures
            r == silent_seq(self@),
    {
        let mut i: usize = 0;
        while i < self.words.len()
            invariant
                i <= self.words@.len(),
                forall|j: int| 0 <= j < i ==> silent_word(#[trigger] self.words@[j]),
            decreases self.words@.len() - i,
        {
            if self.words[i] & SAMPLE_MAGNITUDE_MASK != 0 {
                return false;
            }
            i = i + 1;
        }
        true
    }
}

} // verus!
