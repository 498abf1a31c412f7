//! Core engine of an interactive tool-using agent loop.
//!
//! The crate verifies the pure heart of the loop: the directive parser that
//! extracts tool invocations from assistant text, the search/replace patch
//! engine, the command result envelope, the web search pipeline, the tool
//! registry, and the turn state machine. All text is modelled as bytes.

pub mod command;
pub mod control;
pub mod directive;
pub mod numfmt;
pub mod order;
pub mod patch;
pub mod registry;
pub mod report;
pub mod stream;
pub mod text;
pub mod web;
