//! A terminal markdown editor for blog posts and project pages: a line
//! buffer with a cursor, frontmatter handling, key decoding and the
//! screen state machine that ties them together.
pub mod text;
pub mod editor;
pub mod json;
pub mod key;
pub mod models;
pub mod app;
pub mod storage;
pub mod ui;
pub mod screen;
