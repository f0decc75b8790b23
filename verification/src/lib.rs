//! Verified core of the Marrow runtime: codecs, text and number helpers,
//! input parsers, range stepping, and saved-path classification.

pub mod strbuf;
pub mod numeral;
pub mod csv;
pub mod host;
pub mod session;
pub mod direction;
pub mod range;
pub mod math;
pub mod text;
pub mod preview;
pub mod digest;
pub mod json;
pub mod output;
pub mod surface;
pub mod clock;
pub mod hex;
pub mod percent;
pub mod temporal;
pub mod schema;
pub mod matrix;
pub mod sequence;
pub mod calendar;
pub mod identity;
