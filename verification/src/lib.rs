//! A verified decoder and correlation engine for positioning-receiver text
//! sentences. One ASCII line at a time is framed and checksum-checked,
//! decoded into a typed record, and folded into a long-lived aggregate fix
//! state; a visibility report split over several physical sentences is merged
//! part by part, and an optional navigation gate withholds a fix until a
//! caller-chosen set of sentence types has reported for one time instant.
pub mod types;
pub mod text;
pub mod classify;
pub mod sentences;
pub mod scan;
pub mod engine;

pub use classify::NmeaSentence;
pub use engine::GateConfig;
pub use engine::Nmea;
pub use sentences::parse_gst;
pub use sentences::GgaData;
pub use sentences::GllData;
pub use sentences::GsaData;
pub use sentences::GstData;
pub use sentences::GsvData;
pub use sentences::RmcData;
pub use sentences::VtgData;
pub use types::Coordinate;
pub use types::Date;
pub use types::Decimal;
pub use types::Error;
pub use types::FixType;
pub use types::FramingErrorKind;
pub use types::GnssType;
pub use types::Satellite;
pub use types::SentenceType;
pub use types::Time;
