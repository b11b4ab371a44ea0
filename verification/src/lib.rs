//! Frame sequencing and compositing for slideshow videos.
//!
//! A pool of still images and the length of an audio track are turned into an
//! ordered list of frame jobs, and each job into the pixels of one frame.
//! Reading and storing files, running the probe and the encoder, and handing
//! the jobs to workers is left to the program around the library.
//!
//! The modules follow the course of a run:
//!
//! - `tools` reads what the probe and the encoder report back, `timing`
//!   fixes how many frames a track needs, and `plan` puts a video together;
//! - `shuffle`, `reuse_queue` and `selection` hand out images from the pool,
//!   and `schedule` builds the jobs;
//! - `geometry`, `raster` and `compositor` make the frame of a job, and
//!   `naming` says where it is stored;
//! - `stats` sums a run up, and `pipeline` says what is done next;
//! - `pages` serves the tool that fills the image pool from documents.

pub mod compositor;
pub mod error;
pub mod geometry;
pub mod naming;
pub mod pages;
pub mod pipeline;
pub mod plan;
pub mod raster;
pub mod reuse_queue;
pub mod schedule;
pub mod selection;
pub mod shuffle;
pub mod stats;
pub mod timing;
pub mod tools;
