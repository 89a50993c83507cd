use vstd::prelude::*;

use crate::collector::ShaderFile;

verus! {

/// The pipeline stage a shader runs in.
#[derive(Clone, Copy, Debug, PartialEq, Eq, Structural)]
pub enum ShaderStage {
    Vertex,
    Fragment,
    Compute,
}

/// A discovered shader unit whose file name passed the `name.stage.in`
/// check, with the source text read at discovery.
#[derive(Debug)]
pub struct ShaderToCompile {
    /// Path relative to the shader root.
    pub relative_path: String,
    pub name: String,
    pub stage: ShaderStage,
    pub source: String,
}

impl ShaderToCompile {
    /// A shader unit from a checked file and the source text read from it.
    pub fn from_file(file: ShaderFile, source: String) -> (r: ShaderToCompile)
        ensures
            r.relative_path@ == file.relative_path@,
            r.name@ == file.name@,
            r.stage == file.stage,
            r.source@ == source@,
    {
        ShaderToCompile {
            relative_path: file.relative_path,
            name: file.name,
            stage: file.stage,
            source,
        }
    }
}

} // verus!
