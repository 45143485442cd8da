//! An incremental static site generator, as a library of decisions.
//!
//! A site is a tree of Markdown documents and templates. A build signs every
//! document and the template set, renders the documents whose signature is
//! not the one of the last build, and commits the new signatures. A
//! development loop watches the tree, rebuilds when something changed, and
//! serves the result.
//!
//! This crate decides; it does not touch the disk, the network or the clock.
//! Its callers read, render with their template engine, write, wait and
//! serve, and ask the crate at every step what to do next:
//! [`cache`] for signatures and staleness, [`orchestrator`] for a build pass,
//! [`devserver`] for the watcher's filter, the loop and the server's paths,
//! [`content`], [`routing`], [`taxonomy`], [`templates`] and [`render`] for
//! what a page is made of and where it goes.

pub mod cache;
pub mod cli;
pub mod config;
pub mod content;
pub mod devserver;
pub mod orchestrator;
pub mod order;
pub mod paginate;
pub mod paths;
pub mod render;
pub mod routing;
pub mod taxonomy;
pub mod templates;
pub mod text;
