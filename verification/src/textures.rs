pub mod checker_texture;
pub mod solid_texture;
pub mod texture;

pub use checker_texture::{checker_texture, CheckerTexture};
pub use solid_texture::{solid_texture, SolidTexture};
pub use texture::Texture;
