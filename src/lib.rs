//! Backend logic of a desktop music player: synchronized-lyric decoding,
//! tag-field mapping for extracted audio metadata, the metadata cache, and
//! the decisions of the local audio-streaming responder.
pub mod text;
pub mod lyrics;
pub mod tags;
pub mod cache;
pub mod stream;
