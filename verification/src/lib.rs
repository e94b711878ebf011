pub mod stats;

pub use stats::{
    RenderStats, RenderStatsAccumulator, RenderStatsCollector, RenderStatsSource, TracingStats,
};
pub mod pixel;

pub use pixel::{Pixel, RgbaPixel};
pub mod surface;
pub mod shapes;
pub mod utils;
pub mod volume;
pub mod skinnable;
pub mod sphere;
pub mod transform;
pub mod sky;
pub mod texture;
pub mod textures;
