//! Turns a tree of CTF write-ups (one folder per event, a `meta.toml`
//! descriptor and one Markdown file per challenge) into pages with front
//! matter for a static-site generator.
//!
//! Everything here is pure: reading the input tree and writing the output
//! tree is left to the caller, which hands in plain values.
pub mod text;
pub mod front_matter;
pub mod links;
pub mod headings;
pub mod assets;
pub mod event;
