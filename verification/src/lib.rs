//! Verified core of the forge module toolkit: frontmatter handling, path and
//! name transforms, drift classification, provenance helpers and the pure
//! decision logic behind the dashboard and terminal views.

pub mod text;
pub mod frontmatter;
pub mod scan;
pub mod view;
pub mod paths;
pub mod provider;
pub mod order;
pub mod digest;
pub mod drift;
pub mod assemble;
pub mod result;
pub mod transform;
pub mod dashboard;
pub mod web;
pub mod pages;
pub mod vcs;
pub mod provenance;
pub mod tui;
pub mod dotforge;
pub mod deploy;
pub mod sidecar;
pub mod refs;
pub mod lines;
pub mod report;
pub mod nav;
pub mod catalog;
