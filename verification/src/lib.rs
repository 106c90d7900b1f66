//! The verified core of a shader-driven-rectangle environment: content
//! hashing of shader sources, user slot names, the registry of shaders,
//! textures, buffers and placed shads with their uniforms and painter's
//! order, the byte layout of uniform blocks, readback repacking, and the
//! command-line choice between a window and a headless screenshot.

pub mod bytes;
pub mod cli;
pub mod hash;
pub mod laws;
pub mod readback;
pub mod scene;
pub mod slot;

pub use cli::{screenshot_request, warmup_updates};
pub use hash::content_hash;
pub use readback::{padded_row_bytes, rgba_from_padded_bgra};
pub use scene::{Shad, ShadEnv, ShadError, UniformValue, Uniforms};
pub use slot::parse_slot;
