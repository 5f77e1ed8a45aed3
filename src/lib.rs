//! Read classification and breakpoint assembly for transposable-element
//! insertion calling from short-read alignments.
pub mod aggregate;
pub mod classify;
pub mod numeric;
pub mod pipeline;
pub mod split_filter;
pub mod steps;
pub mod text;
