//! Conversion of Music Macro Language (MML) text into Standard MIDI File bytes.
//!
//! - `mml`: character classes, the shape `MML@part,part,part;` and the tokenizer.
//! - `scan`: the performance state machine that turns tokens into timed events.
//! - `track_event`: the event kinds and their byte encodings.
//! - `track_builder`, `mf2tt2mf`: the three tracks of a score.
//! - `yks_converter`: delta times, running status, chunks and the file header.
//! - `byte_buffer`, `text`: bytes and text helpers.

pub mod byte_buffer;
pub mod errors;
pub mod mf2tt2mf;
pub mod mml;
pub mod scan;
pub mod text;
pub mod track_builder;
pub mod track_event;
pub mod yks_converter;

pub use byte_buffer::ByteBuffer;
pub use errors::ConversionError;
pub use yks_converter::YksConverter;
