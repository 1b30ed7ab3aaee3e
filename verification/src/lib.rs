//! Lyrics, tag and source-plugin logic of the Lyrico music tagger.
pub mod text;
pub mod pattern;
pub mod lyrics;
pub mod json;
pub mod paths;
pub mod clock;
pub mod plugins;
pub mod codec;
pub mod models;
pub mod batch;
pub mod audio;
pub mod database;
pub mod library;
