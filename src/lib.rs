//! Categorised, paginated command reference and the navigation session
//! that walks through it.
//!
//! - [`catalog`] groups a registry's commands by category and renders one
//!   page of text per category.
//! - [`pager`] renders a page with its controls, decodes control events and
//!   holds the session's state machine.
//! - [`detail`] renders the detail view of a single command.
//! - [`text`] renders and parses the page indices that controls carry.
pub mod catalog;
pub mod detail;
pub mod pager;
pub mod text;
