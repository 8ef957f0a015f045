//! A surface binds one geometry to one material.

use vstd::prelude::*;
use crate::geometry::{Geometry, geometry_wf};
use crate::material::{Material, material_wf};

verus! {

#[derive(Clone, Copy, Debug, PartialEq, Eq, Structural)]
pub struct Surface {
    pub geometry: Geometry,
    pub material: Material,
}

/// Both halves of a surface keep their own ranges.
pub open spec fn surface_wf(s: Surface) -> bool {
    geometry_wf(s.geometry) && material_wf(s.material)
}

impl Surface {
    pub fn new(geometry: Geometry, material: Material) -> (s: Self)
        requires
            geometry_wf(geometry),
            material_wf(material),
        ensures
            s == (Surface { geometry, material }),
            surface_wf(s),
    {
        Surface { geometry, material }
    }
}

} // verus!
