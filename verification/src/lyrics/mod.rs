//! Lyrics: the document model and the LRC reader and writer.
pub mod model;
pub mod lrc;
pub mod pipeline;
