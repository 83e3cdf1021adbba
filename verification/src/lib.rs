//! A library for describing and manipulating bitstreams: 2-D planes of
//! individually addressable boolean bits, as found in fuse/configuration maps
//! of programmable hardware.
//!
//! Named, typed properties (booleans, fixed-width unsigned integers, and
//! enumerated bit-pattern variants) are located within the plane by
//! accessors, organised into parameterized hierarchies, and read or written
//! either as typed values or as human-readable text.

pub mod bit_access;
pub mod codec;
pub mod strconv;
pub mod pattern;
pub mod dsl;
pub mod property;
pub mod hierarchy;
pub mod human_text;
pub mod textfile;
pub mod spreadsheet;
pub mod roundtrip;
