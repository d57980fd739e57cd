use vstd::prelude::*;

verus! {

/// Description of the shader program used to draw voxels: the source
/// paths of its vertex and fragment stages. Compiling the program and
/// uploading uniforms belong to the render boundary; the library only
/// carries the description.
#[allow(non_camel_case_types)]
#[allow(non_snake_case)]
pub struct voxelShader {
    pub vsPath: String,
    pub fsPath: String,
}

impl voxelShader {
    #[allow(non_snake_case)]
    pub fn new(vsPath: &str, fsPath: &str) -> (s: voxelShader)
        ensures
            s.vsPath@ == vsPath@,
            s.fsPath@ == fsPath@,
    {
        voxelShader { vsPath: vsPath.to_owned(), fsPath: fsPath.to_owned() }
    }
}

} // verus!
