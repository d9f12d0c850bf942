//! The errors of shader-set construction and use.

use vstd::prelude::*;

verus! {

/// What can go wrong while building, loading, using or reflecting a shader set.
#[derive(PartialEq, Eq, Structural, Clone, Copy, Debug)]
pub enum ShaderError {
    /// Bytecode that is empty, or bytes whose count is not a multiple of four.
    InvalidBytecode,
    /// A builder with neither a vertex nor a compute shader.
    MissingRequiredStage,
    /// Reflection asked of a builder with neither a vertex nor a compute shader.
    NoVertexOrComputeProvided,
    /// Two stages disagree on a descriptor binding or a push-constant range.
    ReflectionConflict,
    /// Reflections that are not exactly one for each stage given to the builder.
    ReflectionStageMismatch,
    /// The device refused to create a module from the bytecode.
    BackendCompileFailure,
    /// An entry point asked of a stage whose module is not loaded.
    StageNotLoaded,
    /// A module compiled for a stage that was already loaded or disposed.
    DoubleCompile,
    /// Graphics stages asked of a set without a vertex stage.
    MissingVertexShader,
}

} // verus!
