//! Core of a one-line status reporter.
//!
//! The crate holds the verified heart of a periodic sampler: staleness-aware
//! value sources (rate limiting, time-decayed averaging), byte-buffer
//! processors that decode small kernel-exposed text files, and the ring state
//! machine that decides which bound file items need a fresh read each tick and
//! demultiplexes read completions back to their processors. The platform
//! plumbing around it (opening files, the kernel completion queue, the timer,
//! rendering) lives outside and talks to this crate through plain values.

pub mod clock;
pub mod decode;
pub mod fixed;
pub mod meminfo;
pub mod power;
pub mod read;
pub mod ring;
pub mod scale;
pub mod source;
pub mod spec;
pub mod tick;
