//! Locates a reference image ("needle") or an exact pixel color inside a
//! larger pixel buffer ("haystack", typically a screen capture).
//!
//! The similarity metric is the sum of squared per-channel differences over a
//! window; the root-mean-square error reported to callers is
//! `sqrt(ssd / samples)`, a monotonic function of that sum, so the search is
//! carried out entirely in exact integer arithmetic.

pub mod buffer;
pub mod capture;
pub mod matcher;
