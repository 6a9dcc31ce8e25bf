//! A small "ask me anything" site's core: anonymous questions, one answer per question from a
//! single administrator, moderation by hiding, a paginated newest-first timeline of answered
//! questions, keyword search, and the pieces of text that the site shows or sends.

pub mod aggregate;
pub mod clock;
pub mod entity;
pub mod guard;
pub mod model;
pub mod notify;
pub mod text;
pub mod text2image;
pub mod usecase;
pub mod utils;
