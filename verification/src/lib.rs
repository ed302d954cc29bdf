//! Verified core of an offline ray tracer: the tile scheduler, the shape
//! of the bounding volume hierarchy, the output buffers and encoders, and
//! the integer tables behind the procedural noise.

pub mod buckets;
pub mod bvh;
pub mod error;
pub mod framebuffer;
pub mod grid;
pub mod image_output;
pub mod perlin;
pub mod ppm;
pub mod rows;
pub mod settings;
pub mod texture;

pub use buckets::{create_buckets, Bucket, BucketStrategy};
pub use bvh::{Axis, BvhTree};
pub use error::Error;
pub use framebuffer::FrameBuffer;
pub use image_output::ImageOutput;
pub use perlin::Permutations;
pub use ppm::PpmOutput;
pub use settings::{OutputFormat, OutputSettings};
pub use texture::ImageTexture;
