//! Tag resolution against a user-curated vocabulary, and merging of resolved
//! tags into the structured metadata block at the head of a document.

pub mod distance;
pub mod merge;
pub mod resolver;
pub mod tagset;
pub mod text;
pub mod vocab;
pub mod yaml;
