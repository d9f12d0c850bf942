//! Shader-set construction for a graphics pipeline: word-aligned bytecode,
//! a staged builder, per-stage module lifecycle and merged reflection.

use vstd::prelude::*;

pub mod util;
pub mod error;
pub mod device;
pub mod bytecode;
pub mod shader;
pub mod storage;
pub mod shader_set;
pub mod reflect;
