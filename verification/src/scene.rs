//! The scene: surfaces, lights, an ambient coefficient and the camera, built
//! once and read-only while rendering.

use vstd::prelude::*;
use crate::fx::SCALE;
use crate::light::{Light, light_wf};
use crate::surface::{Surface, surface_wf};
use crate::camera::{Camera, camera_wf};

verus! {

pub struct Scene {
    pub surfaces: Vec<Surface>,
    pub lights: Vec<Light>,
    pub ambient_coefficient: i64,
    pub camera: Camera,
}

/// Every surface and light keeps its ranges, the light count stays bounded so
/// shading sums fit, the ambient coefficient is zero to one, and the camera
/// is well formed.
pub open spec fn scene_wf(s: Scene) -> bool {
    &&& forall|i: int| 0 <= i < s.surfaces@.len() ==> #[trigger] surface_wf(s.surfaces@[i])
    &&& forall|i: int| 0 <= i < s.lights@.len() ==> #[trigger] light_wf(s.lights@[i])
    &&& s.lights@.len() <= 1024
    &&& 0 <= s.ambient_coefficient <= SCALE
    &&& camera_wf(s.camera)
}

impl Scene {
    /// An empty scene around a camera, with the given ambient coefficient.
    pub fn new(camera: Camera, ambient_coefficient: i64) -> (s: Self)
        requires
            camera_wf(camera),
            0 <= ambient_coefficient <= SCALE,
        ensures
            s.surfaces@ =~= Seq::<Surface>::empty(),
            s.lights@ =~= Seq::<Light>::empty(),
            s.ambient_coefficient == ambient_coefficient,
            s.camera == camera,
            scene_wf(s),
    {
        Scene { surfaces: Vec::new(), lights: Vec::new(), ambient_coefficient, camera }
    }

    /// Appends one light.
    pub fn add_light(&mut self, light: Light)
        requires
            scene_wf(*old(self)),
            light_wf(light),
            old(self).lights@.len() < 1024,
        ensures
            final(self).lights@ == old(self).lights@.push(light),
            final(self).surfaces@ == old(self).surfaces@,
            final(self).ambient_coefficient == old(self).ambient_coefficient,
            final(self).camera == old(self).camera,
            scene_wf(*final(self)),
    {
        self.lights.push(light);
    }

    /// Appends each of the given lights, in order.
    pub fn add_lights(&mut self, lights: Vec<Light>)
        requires
            scene_wf(*old(self)),
            forall|i: int| 0 <= i < lights@.len() ==> #[trigger] light_wf(lights@[i]),
            old(self).lights@.len() + lights@.len() <= 1024,
        ensures
            final(self).lights@ == old(self).lights@ + lights@,
            final(self).surfaces@ == old(self).surfaces@,
            final(self).ambient_coefficient == old(self).ambient_coefficient,
            final(self).camera == old(self).camera,
            scene_wf(*final(self)),
    {
        let n = lights.len();
        let mut k: usize = 0;
        while k < n
            invariant
                n == lights@.len(),
                0 <= k <= n,
                scene_wf(*self),
                forall|i: int| 0 <= i < lights@.len() ==> #[trigger] light_wf(lights@[i]),
                self.lights@ == old(self).lights@ + lights@.subrange(0, k as int),
                self.lights@.len() <= 1024 - n + k,
                self.surfaces@ == old(self).surfaces@,
                self.ambient_coefficient == old(self).ambient_coefficient,
                self.camera == old(self).camera,
            decreases n - k,
        {
            self.lights.push(lights[k]);
            k = k + 1;
            proof {
                assert(lights@.subrange(0, k as int) =~= lights@.subrange(0, k - 1).push(
                    lights@[k - 1],
                ));
            }
        }
        proof {
            assert(lights@.subrange(0, n as int) =~= lights@);
        }
    }

    /// Appends one surface.
    pub fn add_surface(&mut self, surface: Surface)
        requires
            scene_wf(*old(self)),
            surface_wf(surface),
        ensures
            final(self).surfaces@ == old(self).surfaces@.push(surface),
            final(self).lights@ == old(self).lights@,
            final(self).ambient_coefficient == old(self).ambient_coefficient,
            final(self).camera == old(self).camera,
            scene_wf(*final(self)),
    {
        self.surfaces.push(surface);
    }

    /// Appends each of the given surfaces, in order.
    pub fn add_surfaces(&mut self, surfaces: Vec<Surface>)
        requires
            scene_wf(*old(self)),
            forall|i: int| 0 <= i < surfaces@.len() ==> #[trigger] surface_wf(surfaces@[i]),
        ensures
            final(self).surfaces@ == old(self).surfaces@ + surfaces@,
            final(self).lights@ == old(self).lights@,
            final(self).ambient_coefficient == old(self).ambient_coefficient,
            final(self).camera == old(self).camera,
            scene_wf(*final(self)),
    {
        let n = surfaces.len();
        let mut k: usize = 0;
        while k < n
            invariant
                n == surfaces@.len(),
                0 <= k <= n,
                scene_wf(*self),
                forall|i: int| 0 <= i < surfaces@.len() ==> #[trigger] surface_wf(surfaces@[i]),
                self.surfaces@ == old(self).surfaces@ + surfaces@.subrange(0, k as int),
                self.lights@ == old(self).lights@,
                self.ambient_coefficient == old(self).ambient_coefficient,
                self.camera == old(self).camera,
            decreases n - k,
        {
            self.surfaces.push(surfaces[k]);
            k = k + 1;
            proof {
                assert(surfaces@.subrange(0, k as int) =~= surfaces@.subrange(0, k - 1).push(
                    surfaces@[k - 1],
                ));
            }
        }
        proof {
            assert(surfaces@.subrange(0, n as int) =~= surfaces@);
        }
    }
}

} // verus!
