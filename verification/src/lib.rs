use vstd::prelude::*;

pub mod capture;
pub mod collections;
pub mod domain;
pub mod error;
pub mod exiftool;
pub mod files;
pub mod gpx;
pub mod matching;
pub mod paths;
pub mod payload;
pub mod photo;
pub mod project;
pub mod report;
pub mod state;
pub mod tasks;
pub mod text;
pub mod timeline;
pub mod webview2;
pub mod workflow;
pub mod write_job;
pub mod write_plan;

verus! {

} // verus!
