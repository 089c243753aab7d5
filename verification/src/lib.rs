//! Reader for the on-disk project format of a hardware groovebox sampler.
//!
//! A project is a directory holding a `settings` file, an opaque samples
//! blob, and a set of pattern and track files, all sharing one binary
//! tag-length-value vocabulary: varint length prefixes, single-byte tags,
//! little-endian fixed-width fields.  This crate decodes fully
//! materialised byte buffers into a structured `Project`; it does no I/O
//! itself, and every decoder is specified against a mathematical model of
//! the wire format.

pub mod error;
pub mod reader;
pub mod settings;
pub mod step;
pub mod track;
pub mod pattern;
pub mod project;

pub use error::ErrorKind;
pub use error::ParseError;
pub use pattern::Pattern;
pub use pattern::TrackFile;
pub use project::PatternFile;
pub use project::Project;
pub use project::Samples;
pub use reader::Reader;
pub use settings::CCMapping;
pub use settings::Settings;

pub use step::MidiChannel;
pub use step::MidiStep;
pub use step::Step;
pub use step::TrackStep;
pub use track::Track;
pub use track::TrackAttrs;
pub use track::TrackSpeed;
