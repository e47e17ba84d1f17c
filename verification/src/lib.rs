//! Finds candidate cover art for music files: several unreliable providers are
//! queried concurrently, their results are funnelled through one bounded
//! channel with backpressure, and the decoded images are clustered into
//! groups of visual near-duplicates ranked by a per-source weight policy.
//!
//! The crate holds the verified core: the weight policy, the candidate data
//! model, the completion accounting of the fan-out, the producer protocol of
//! the bounded channel, and the perceptual clustering engine. Network access,
//! the scheduler and the user interface are thin shells around it.

pub mod channel;
pub mod cluster;
pub mod compare;
pub mod imageio;
pub mod img_group;
pub mod laws;
pub mod img;
pub mod parser;
pub mod queue;
pub mod shared;
pub mod song;
pub mod source;
pub mod tags;
pub mod text;

pub use source::Source;
