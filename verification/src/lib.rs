//! Decision logic of a multi-model image upscaler.

pub mod attention;
pub mod browser;
pub mod cli;
pub mod device;
pub mod download;
pub mod grid;
pub mod images;
pub mod latent;
pub mod layout;
pub mod manifest;
pub mod model;
pub mod noise;
pub mod pixels;
pub mod resize;
pub mod scheduler;
pub mod session;
pub mod stitch;
pub mod text;
pub mod tiling;
pub mod transfer;
pub mod unet;
pub mod vae;
pub mod weights;
pub mod whole;
