//! Decisions behind a video thumbnail mosaic: which frames to sample and when to
//! resample a black one, which files of a directory are videos, how the prober's
//! duration text reads, and the exact caption and filter text handed to the media tool.

pub mod caption;
pub mod escape;
pub mod fonts;
pub mod probe;
pub mod sampler;
pub mod videos;
