//! Per-surface reflectance parameters.

use vstd::prelude::*;
use crate::fx::SCALE;
use crate::color::{Color, color_valid};

verus! {

#[derive(Clone, Copy, Debug, PartialEq, Eq, Structural)]
pub struct Material {
    /// The surface's base color.
    pub color: Color,
    /// How much of the traced reflection is mixed in, zero to one.
    pub reflectivity: i64,
    /// How strongly reflections are perturbed, zero to one.
    pub reflection_noise: i64,
    /// The specular exponent, at least one.
    pub specularity: u32,
}

/// The parameter ranges every material keeps: color channels and the two
/// mixing factors in `[0, 1]`, a positive specular exponent.
pub open spec fn material_wf(m: Material) -> bool {
    &&& color_valid(m.color)
    &&& 0 <= m.reflectivity <= SCALE
    &&& 0 <= m.reflection_noise <= SCALE
    &&& m.specularity >= 1
}

impl Material {
    pub fn new(color: Color, reflectivity: i64, reflection_noise: i64, specularity: u32) -> (m:
        Self)
        requires
            color_valid(color),
            0 <= reflectivity <= SCALE,
            0 <= reflection_noise <= SCALE,
            specularity >= 1,
        ensures
            m == (Material { color, reflectivity, reflection_noise, specularity }),
            material_wf(m),
    {
        Material { color, reflectivity, reflection_noise, specularity }
    }
}

} // verus!
