//! Merging of GPS track collections, aggregate statistics over them, and the
//! pure logic behind a two-phase upload-then-merge web workflow: fragment keys
//! derived from uploaded names, trigger validation, and the merge pipeline.


pub mod convert;
pub mod fragments;
pub mod gpx_link;
pub mod laws;
pub mod loader;
pub mod merge;
pub mod model;
pub mod stats;
pub mod web;
