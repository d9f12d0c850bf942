//! Word-aligned shader bytecode, pipeline stages and the shader capability.

use crate::error::ShaderError;
use crate::util::{bytes_to_words, cast_slice, word_of, words_to_bytes};
use vstd::prelude::*;

verus! {

/// One stage of the graphics or compute pipeline.
#[derive(PartialEq, Eq, Structural, PartialOrd, Ord, Clone, Copy, Debug, Hash)]
pub enum Stage {
    Vertex,
    /// Tessellation control.
    Hull,
    /// Tessellation evaluation.
    Domain,
    Geometry,
    Fragment,
    Compute,
}

/// The visibility bit of a stage.
pub open spec fn stage_bit(s: Stage) -> u32 {
    match s {
        Stage::Vertex => 0x1,
        Stage::Hull => 0x2,
        Stage::Domain => 0x4,
        Stage::Geometry => 0x8,
        Stage::Fragment => 0x10,
        Stage::Compute => 0x20,
    }
}

impl Stage {
    /// The visibility bit of this stage.
    pub fn flag(self) -> (r: u32)
        ensures
            r == stage_bit(self),
    {
        match self {
            Stage::Vertex => 0x1,
            Stage::Hull => 0x2,
            Stage::Domain => 0x4,
            Stage::Geometry => 0x8,
            Stage::Fragment => 0x10,
            Stage::Compute => 0x20,
        }
    }
}

/// Copies a slice of words into a new vector.
pub fn copy_words(words: &[u32]) -> (r: Vec<u32>)
    ensures
        r@ == words@,
{
    let mut out: Vec<u32> = Vec::new();
    let mut i: usize = 0;
    while i < words.len()
        invariant
            i <= words@.len(),
            out@ == words@.subrange(0, i as int),
        decreases words@.len() - i,
    {
        out.push(words[i]);
        i = i + 1;
    }
    assert(out@ =~= words@);
    out
}

/// Non-empty bytecode held as 32-bit words, with a byte form whose length fits
/// in memory.
#[derive(Debug, PartialEq, Eq, PartialOrd, Ord, Hash)]
pub struct BytecodeBuffer {
    words: Vec<u32>,
}

impl View for BytecodeBuffer {
    type V = Seq<u32>;

    closed spec fn view(&self) -> Seq<u32> {
        self.words@
    }
}

impl Clone for BytecodeBuffer {
    fn clone(&self) -> (r: BytecodeBuffer)
        ensures
            r@ == self@,
    {
        proof {
            use_type_invariant(self);
        }
        BytecodeBuffer { words: copy_words(self.words.as_slice()) }
    }
}

impl BytecodeBuffer {
    #[verifier::type_invariant]
    spec fn inv(&self) -> bool {
        0 < self.words@.len() && 4 * self.words@.len() <= usize::MAX
    }

    /// Takes the words as they are; fails on an empty sequence.
    pub fn from_words(words: Vec<u32>) -> (r: Result<BytecodeBuffer, ShaderError>)
        requires
            4 * words@.len() <= usize::MAX,
        ensures
            words@.len() == 0 <==> r is Err,
            r is Err ==> r == Err::<BytecodeBuffer, ShaderError>(ShaderError::InvalidBytecode),
            r matches Ok(b) ==> b@ == words@,
    {
        if words.len() == 0 {
            Err(ShaderError::InvalidBytecode)
        } else {
            Ok(BytecodeBuffer { words })
        }
    }

    /// Reads each run of four bytes as one little-endian word; fails when the
    /// bytes are empty or their count is not a multiple of four.
    pub fn from_bytes(bytes: &[u8]) -> (r: Result<BytecodeBuffer, ShaderError>)
        ensures
            (bytes@.len() == 0 || bytes@.len() % 4 != 0) <==> r is Err,
            r is Err ==> r == Err::<BytecodeBuffer, ShaderError>(ShaderError::InvalidBytecode),
            r matches Ok(b) ==> b@ == bytes_to_words(bytes@),
    {
        let len = bytes.len();
        if len == 0 || len % 4 != 0 {
            return Err(ShaderError::InvalidBytecode);
        }
        let n = len / 4;
        let mut words: Vec<u32> = Vec::new();
        let mut i: usize = 0;
        while i < n
            invariant
                n == bytes@.len() / 4,
                bytes@.len() % 4 == 0,
                i <= n,
                4 * n == bytes@.len(),
                bytes@.len() == len,
                words@ == bytes_to_words(bytes@).subrange(0, i as int),
            decreases n - i,
        {
            assert(4 * i + 3 < bytes@.len()) by (nonlinear_arith)
                requires
                    i < n,
                    4 * n == bytes@.len(),
            ;
            let k = 4 * i;
            let w = (bytes[k] as u32) | ((bytes[k + 1] as u32) << 8u32) | ((bytes[k + 2] as u32)
                << 16u32) | ((bytes[k + 3] as u32) << 24u32);
            assert(w == word_of(bytes@[4 * i], bytes@[4 * i + 1], bytes@[4 * i + 2], bytes@[4 * i + 3]));
            words.push(w);
            i = i + 1;
            assert(words@ =~= bytes_to_words(bytes@).subrange(0, i as int));
        }
        assert(words@ =~= bytes_to_words(bytes@));
        Ok(BytecodeBuffer { words })
    }

    /// The bytecode as bytes, least significant byte of each word first; four
    /// bytes per word.
    pub fn as_bytes(&self) -> (r: Vec<u8>)
        ensures
            r@ == words_to_bytes(self@),
            r@.len() == 4 * self@.len(),
    {
        proof {
            use_type_invariant(self);
        }
        cast_slice(self.words.as_slice())
    }

    /// The bytecode as words.
    pub fn as_words(&self) -> (r: &[u32])
        ensures
            r@ == self@,
            0 < r@.len(),
            4 * r@.len() <= usize::MAX,
    {
        proof {
            use_type_invariant(self);
        }
        self.words.as_slice()
    }
}

} // verus!
