use vstd::prelude::*;

verus! {

/// The closed catalog of voxel types. `Air` is the universal empty
/// sentinel: it is never rendered, and a face whose neighbor resolves to
/// `Air` is exposed. Every other value is a solid, opaque block drawn
/// with a single texture layer.
#[derive(Copy, Clone, PartialEq, Eq, Structural, Debug)]
pub enum BlockId {
    Air,
    Dirt,
    Grass,
}

impl BlockId {
    /// Texture-array layer carried on every vertex of a face, selecting
    /// the block's texture in the shader. `Air` keeps a distinct sentinel
    /// value that no solid block uses; it never reaches a vertex buffer
    /// because air blocks emit no faces.
    pub open spec fn spec_layer(self) -> u8 {
        match self {
            BlockId::Dirt => 0,
            BlockId::Grass => 1,
            BlockId::Air => 3,
        }
    }

    #[verifier::when_used_as_spec(spec_layer)]
    pub fn layer(self) -> (r: u8)
        ensures
            r == self.spec_layer(),
    {
        match self {
            BlockId::Dirt => 0,
            BlockId::Grass => 1,
            BlockId::Air => 3,
        }
    }

    /// Every block other than the `Air` sentinel is solid and occludes
    /// the faces of its neighbors.
    pub open spec fn is_solid(self) -> bool {
        self != BlockId::Air
    }
}

} // verus!
