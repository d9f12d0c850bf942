//! The shader capability and its bytecode-backed implementation.

use crate::bytecode::{copy_words, BytecodeBuffer, Stage};
use crate::error::ShaderError;
use vstd::prelude::*;

verus! {

/// A source of one stage's shader: its bytecode (which may fail to come),
/// its entry point and its stage.
pub trait Shader {
    /// Why the bytecode could not be had.
    type Error;

    /// The bytecode, or why it could not be had.
    spec fn spirv_spec(&self) -> Result<Seq<u32>, Self::Error>;

    /// The name of the entry point.
    spec fn entry_spec(&self) -> Seq<char>;

    /// The stage.
    spec fn stage_spec(&self) -> Stage;

    /// Produces the bytecode as words.
    fn spirv(&self) -> (r: Result<Vec<u32>, Self::Error>)
        ensures
            match r {
                Ok(words) => self.spirv_spec() == Ok::<Seq<u32>, Self::Error>(words@),
                Err(e) => self.spirv_spec() == Err::<Seq<u32>, Self::Error>(e),
            },
    ;

    /// Produces the name of the entry point.
    fn entry(&self) -> (r: &str)
        ensures
            r@ == self.entry_spec(),
    ;

    /// Produces the stage.
    fn stage(&self) -> (r: Stage)
        ensures
            r == self.stage_spec(),
    ;
}

/// Bytecode for one stage together with its entry point; compared and
/// ordered by bytecode, stage and entry point.
#[derive(Clone, Debug, PartialEq, Eq, PartialOrd, Ord, Hash)]
pub struct SpirvShader {
    spirv: BytecodeBuffer,
    stage: Stage,
    entry: String,
}

impl SpirvShader {
    /// The bytecode words.
    pub closed spec fn words(&self) -> Seq<u32> {
        self.spirv@
    }

    /// The name of the entry point.
    pub closed spec fn entry_name(&self) -> Seq<char> {
        self.entry@
    }

    /// The stage.
    pub closed spec fn stage_of(&self) -> Stage {
        self.stage
    }

    /// A shader from bytecode words; fails on empty bytecode.
    pub fn new(spirv: Vec<u32>, stage: Stage, entrypoint: &str) -> (r: Result<
        SpirvShader,
        ShaderError,
    >)
        requires
            4 * spirv@.len() <= usize::MAX,
        ensures
            spirv@.len() == 0 <==> r is Err,
            r is Err ==> r == Err::<SpirvShader, ShaderError>(ShaderError::InvalidBytecode),
            r matches Ok(s) ==> s.words() == spirv@ && s.stage_of() == stage && s.entry_name()
                == entrypoint@,
    {
        let spirv = BytecodeBuffer::from_words(spirv)?;
        Ok(SpirvShader { spirv, stage, entry: entrypoint.to_owned() })
    }

    /// A shader from bytecode stored as bytes, each run of four read as one
    /// little-endian word; fails when the bytes are empty or their count is
    /// not a multiple of four.
    pub fn from_bytes(spirv: &[u8], stage: Stage, entrypoint: &str) -> (r: Result<
        SpirvShader,
        ShaderError,
    >)
        ensures
            (spirv@.len() == 0 || spirv@.len() % 4 != 0) <==> r is Err,
            r is Err ==> r == Err::<SpirvShader, ShaderError>(ShaderError::InvalidBytecode),
            r matches Ok(s) ==> s.words() == crate::util::bytes_to_words(spirv@) && s.stage_of()
                == stage && s.entry_name() == entrypoint@,
    {
        let spirv = BytecodeBuffer::from_bytes(spirv)?;
        Ok(SpirvShader { spirv, stage, entry: entrypoint.to_owned() })
    }

    /// The bytecode.
    pub fn bytecode(&self) -> (r: &BytecodeBuffer)
        ensures
            r@ == self.words(),
    {
        &self.spirv
    }
}

impl Shader for SpirvShader {
    type Error = ShaderError;

    open spec fn spirv_spec(&self) -> Result<Seq<u32>, ShaderError> {
        Ok(self.words())
    }

    open spec fn entry_spec(&self) -> Seq<char> {
        self.entry_name()
    }

    open spec fn stage_spec(&self) -> Stage {
        self.stage_of()
    }

    fn spirv(&self) -> (r: Result<Vec<u32>, ShaderError>) {
        Ok(copy_words(self.spirv.as_words()))
    }

    fn entry(&self) -> (r: &str) {
        self.entry.as_str()
    }

    fn stage(&self) -> (r: Stage) {
        self.stage
    }
}

} // verus!
