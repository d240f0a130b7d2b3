//! Push-to-talk dictation: a recording is transcribed, the text is cleaned of
//! filler words, pasted and kept in a history.

pub mod audio;
pub mod cleaning;
pub mod fillers;
pub mod indicator;
pub mod paste;
pub mod search;
pub mod state;
pub mod text;
pub mod transcription;
pub mod unicode;
pub mod worker;

pub use cleaning::clean_text_locally;
pub use fillers::parse_filler_words;
