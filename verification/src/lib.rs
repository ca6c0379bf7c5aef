//! A bibliography renderer: author profiles and publication records go in,
//! a year-grouped, citation-styled listing comes out.
pub mod arrange;
pub mod citation;
pub mod document;
pub mod model;
pub mod numfmt;
pub mod registry;
