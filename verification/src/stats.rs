use vstd::prelude::*;

verus! {

/// Counters of the work done while rendering.
#[derive(Debug, Clone)]
pub struct RenderStats {
    pub rays_cast: usize,
    pub bounding_box_tests: usize,
    pub sphere_tests: usize,
    pub moving_sphere_tests: usize,
    pub triangle_tests: usize,
    pub pixels: usize,
}

impl RenderStats {
    /// All counters at zero.
    pub open spec fn zero() -> RenderStats {
        RenderStats {
            rays_cast: 0,
            bounding_box_tests: 0,
            sphere_tests: 0,
            moving_sphere_tests: 0,
            triangle_tests: 0,
            pixels: 0,
        }
    }

    /// Whether adding `other` to `self` field by field stays within `usize`.
    pub open spec fn can_add(self, other: RenderStats) -> bool {
        &&& self.rays_cast + other.rays_cast <= usize::MAX
        &&& self.bounding_box_tests + other.bounding_box_tests <= usize::MAX
        &&& self.sphere_tests + other.sphere_tests <= usize::MAX
        &&& self.moving_sphere_tests + other.moving_sphere_tests <= usize::MAX
        &&& self.triangle_tests + other.triangle_tests <= usize::MAX
        &&& self.pixels + other.pixels <= usize::MAX
    }

    /// The field-by-field sum of two sets of counters.
    pub open spec fn sum(self, other: RenderStats) -> RenderStats {
        RenderStats {
            rays_cast: (self.rays_cast + other.rays_cast) as usize,
            bounding_box_tests: (self.bounding_box_tests + other.bounding_box_tests) as usize,
            sphere_tests: (self.sphere_tests + other.sphere_tests) as usize,
            moving_sphere_tests: (self.moving_sphere_tests + other.moving_sphere_tests) as usize,
            triangle_tests: (self.triangle_tests + other.triangle_tests) as usize,
            pixels: (self.pixels + other.pixels) as usize,
        }
    }

    pub fn new() -> (s: Self)
        ensures
            s == RenderStats::zero(),
    {
        Self {
            rays_cast: 0,
            bounding_box_tests: 0,
            sphere_tests: 0,
            moving_sphere_tests: 0,
            triangle_tests: 0,
            pixels: 0,
        }
    }
}

impl Default for RenderStats {
    fn default() -> (s: Self)
        ensures
            s == RenderStats::zero(),
    {
        Self::new()
    }
}

/// Adding counters that are all zero changes nothing.
pub proof fn lemma_add_zero_stats(s: RenderStats)
    ensures
        s.can_add(RenderStats::zero()),
        s.sum(RenderStats::zero()) == s,
{
}

/// Counters gathered in two batches give the same total whichever batch is added first,
/// as long as neither order overflows.
pub proof fn lemma_add_stats_in_any_order(s: RenderStats, a: RenderStats, b: RenderStats)
    requires
        s.can_add(a),
        s.sum(a).can_add(b),
    ensures
        s.can_add(b),
        s.sum(b).can_add(a),
        s.sum(a).sum(b) == s.sum(b).sum(a),
{
}

/// Something that counts the events of a render, one at a time.
pub trait RenderStatsCollector {
    /// The counters held so far.
    spec fn collected(&self) -> RenderStats;

    fn count_ray_cast(&mut self)
        requires
            old(self).collected().rays_cast < usize::MAX,
        ensures
            final(self).collected() == (RenderStats {
                rays_cast: (old(self).collected().rays_cast + 1) as usize,
                ..old(self).collected()
            }),
    ;

    fn count_bounding_box_test(&mut self)
        requires
            old(self).collected().bounding_box_tests < usize::MAX,
        ensures
            final(self).collected() == (RenderStats {
                bounding_box_tests: (old(self).collected().bounding_box_tests + 1) as usize,
                ..old(self).collected()
            }),
    ;

    fn count_sphere_test(&mut self)
        requires
            old(self).collected().sphere_tests < usize::MAX,
        ensures
            final(self).collected() == (RenderStats {
                sphere_tests: (old(self).collected().sphere_tests + 1) as usize,
                ..old(self).collected()
            }),
    ;

    fn count_moving_sphere_test(&mut self)
        requires
            old(self).collected().moving_sphere_tests < usize::MAX,
        ensures
            final(self).collected() == (RenderStats {
                moving_sphere_tests: (old(self).collected().moving_sphere_tests + 1) as usize,
                ..old(self).collected()
            }),
    ;

    fn count_triangle_test(&mut self)
        requires
            old(self).collected().triangle_tests < usize::MAX,
        ensures
            final(self).collected() == (RenderStats {
                triangle_tests: (old(self).collected().triangle_tests + 1) as usize,
                ..old(self).collected()
            }),
    ;

    fn count_pixel(&mut self)
        requires
            old(self).collected().pixels < usize::MAX,
        ensures
            final(self).collected() == (RenderStats {
                pixels: (old(self).collected().pixels + 1) as usize,
                ..old(self).collected()
            }),
    ;
}

/// Something whose counters can be read out.
pub trait RenderStatsSource {
    spec fn source_stats(&self) -> RenderStats;

    fn get_stats(&self) -> (s: RenderStats)
        ensures
            s == self.source_stats(),
    ;
}

/// Something that can take in counters gathered elsewhere.
pub trait RenderStatsAccumulator {
    spec fn accumulated(&self) -> RenderStats;

    fn add_stats(&mut self, stats: RenderStats)
        requires
            old(self).accumulated().can_add(stats),
        ensures
            final(self).accumulated() == old(self).accumulated().sum(stats),
    ;
}

/// The collector used while tracing: a plain set of counters.
pub struct TracingStats(RenderStats);

impl TracingStats {
    /// The counters held.
    pub closed spec fn view_stats(&self) -> RenderStats {
        self.0
    }

    pub fn new() -> (s: Self)
        ensures
            s.view_stats() == RenderStats::zero(),
    {
        Self(RenderStats::new())
    }

    fn get_stats_mut(&mut self) -> (r: &mut RenderStats)
        ensures
            *r == old(self).view_stats(),
            final(self).view_stats() == *final(r),
    {
        &mut self.0
    }
}

impl Default for TracingStats {
    fn default() -> (s: Self)
        ensures
            s.view_stats() == RenderStats::zero(),
    {
        Self::new()
    }
}

impl RenderStatsCollector for TracingStats {
    open spec fn collected(&self) -> RenderStats {
        self.view_stats()
    }

    fn count_ray_cast(&mut self) {
        let s = self.get_stats_mut();
        s.rays_cast = s.rays_cast + 1;
    }

    fn count_bounding_box_test(&mut self) {
        let s = self.get_stats_mut();
        s.bounding_box_tests = s.bounding_box_tests + 1;
    }

    fn count_sphere_test(&mut self) {
        let s = self.get_stats_mut();
        s.sphere_tests = s.sphere_tests + 1;
    }

    fn count_moving_sphere_test(&mut self) {
        let s = self.get_stats_mut();
        s.moving_sphere_tests = s.moving_sphere_tests + 1;
    }

    fn count_triangle_test(&mut self) {
        let s = self.get_stats_mut();
        s.triangle_tests = s.triangle_tests + 1;
    }

    fn count_pixel(&mut self) {
        let s = self.get_stats_mut();
        s.pixels = s.pixels + 1;
    }
}

impl RenderStatsAccumulator for TracingStats {
    open spec fn accumulated(&self) -> RenderStats {
        self.view_stats()
    }

    fn add_stats(&mut self, stats: RenderStats) {
        let render_stats = self.get_stats_mut();
        *render_stats = RenderStats {
            rays_cast: render_stats.rays_cast + stats.rays_cast,
            bounding_box_tests: render_stats.bounding_box_tests + stats.bounding_box_tests,
            sphere_tests: render_stats.sphere_tests + stats.sphere_tests,
            moving_sphere_tests: render_stats.moving_sphere_tests + stats.moving_sphere_tests,
            triangle_tests: render_stats.triangle_tests + stats.triangle_tests,
            pixels: render_stats.pixels + stats.pixels,
        };
    }
}

impl RenderStatsSource for TracingStats {
    open spec fn source_stats(&self) -> RenderStats {
        self.view_stats()
    }

    fn get_stats(&self) -> (s: RenderStats) {
        RenderStats {
            rays_cast: self.0.rays_cast,
            bounding_box_tests: self.0.bounding_box_tests,
            sphere_tests: self.0.sphere_tests,
            moving_sphere_tests: self.0.moving_sphere_tests,
            triangle_tests: self.0.triangle_tests,
            pixels: self.0.pixels,
        }
    }
}

impl From<TracingStats> for RenderStats {
    fn from(s: TracingStats) -> (r: RenderStats) {
        s.0
    }
}

impl vstd::std_specs::convert::FromSpecImpl<TracingStats> for RenderStats {
    open spec fn obeys_from_spec() -> bool {
        true
    }

    open spec fn from_spec(s: TracingStats) -> RenderStats {
        s.view_stats()
    }
}

} // verus!
