//! Nested GitHub issue viewer: the verified logic of the viewer.
pub mod app;
pub mod auth;
pub mod filter;
pub mod github;
pub mod i18n;
pub mod md;
pub mod model;
pub mod sync;
pub mod text;
pub mod timefmt;
pub mod token;
pub mod tree;
