use vstd::prelude::*;

verus! {

/// What the rasterizer knows of a covered cell when it asks for its color.
#[derive(Clone, Copy, Debug, PartialEq, Eq)]
pub struct Fragment {
    pub x: usize,
    pub y: usize,
    pub depth: i64,
    pub color: u8,
}

/// A pure function from a fragment to the color of its cell.
pub trait Shader {
    spec fn shade_spec(&self, f: Fragment) -> u8;

    fn shade(&self, f: Fragment) -> (r: u8)
        ensures
            r == self.shade_spec(f),
    ;
}

/// Hands the mesh's color through unchanged.
pub fn default_shader(f: Fragment) -> (r: u8)
    ensures
        r == f.color,
{
    f.color
}

/// The shader that `default_shader` implements.
#[derive(Clone, Copy, Debug, PartialEq, Eq)]
pub struct DefaultShader;

impl Shader for DefaultShader {
    open spec fn shade_spec(&self, f: Fragment) -> u8 {
        f.color
    }

    fn shade(&self, f: Fragment) -> (r: u8) {
        default_shader(f)
    }
}

} // verus!
