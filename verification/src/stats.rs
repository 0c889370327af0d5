//! Counters of rendering work, and the version of the library.

use vstd::prelude::*;

verus! {

/// What a renderer has done since the counters were last reset.
pub struct RenderStats {
    pub triangles_rendered: u64,
    pub draw_calls: u64,
    pub vertices_processed: u64,
    pub textures_bound: u64,
}

impl RenderStats {
    /// Counters that all stand at zero.
    pub fn new() -> (s: Self)
        ensures
            s.triangles_rendered == 0,
            s.draw_calls == 0,
            s.vertices_processed == 0,
            s.textures_bound == 0,
    {
        Self { triangles_rendered: 0, draw_calls: 0, vertices_processed: 0, textures_bound: 0 }
    }

    /// Sets every counter back to zero.
    pub fn reset(&mut self)
        ensures
            final(self).triangles_rendered == 0,
            final(self).draw_calls == 0,
            final(self).vertices_processed == 0,
            final(self).textures_bound == 0,
    {
        self.triangles_rendered = 0;
        self.draw_calls = 0;
        self.vertices_processed = 0;
        self.textures_bound = 0;
    }
}

/// The version of this library.
pub fn get_version() -> (v: &'static str)
    ensures
        v@ == "0.1.0"@,
{
    "0.1.0"
}

} // verus!
