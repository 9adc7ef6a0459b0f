//! A blog engine's core. Documents with a front-matter header are framed,
//! their headers checked and their bodies rendered into posts; the posts are
//! held in an in-memory store with an index by slug, by tag, by series and by
//! month; and a coordinator decides when a freshly built store takes the
//! place of the published one.

pub mod data;
pub mod db;
pub mod error;
pub mod http;
pub mod index;
pub mod laws;
pub mod order;
pub mod refresh;
pub mod repo_utils;
pub mod slugs;
pub mod text;
pub mod transform;
