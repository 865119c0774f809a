//! A streaming parser for DICOM Part-10 byte streams.
//!
//! The bytes of a file are decoded into a sequence of events (elements,
//! values, sequences, items, pixel-data fragments) that are handed to a
//! [`handler::Handler`] in stream order.  Every function carries a contract
//! over a mathematical model of the byte stream.

pub mod attribute;
pub mod encoding;
pub mod error;
pub mod handler;
pub mod meta_information;
pub mod p10;
pub mod parser;
pub mod prefix;
pub mod tag;
pub mod vr;
