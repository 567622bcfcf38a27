//! Codec and keyframe optimizer for MDLX binary model files.
//!
//! A model file is a magic tag followed by tagged chunks. The crate decodes
//! such a file into a [`model::MDLXModel`], thins out the keyframes of its
//! bone and helper animations, and encodes the model again:
//!
//! - [`primitives`] reads and writes scalars, names and byte runs;
//! - [`codec`] says what a record of the format is, and handles lists of
//!   records;
//! - [`animation`] holds keyframes and animated properties;
//! - [`header`], [`sequence`], [`texture`], [`geoset`], [`node`] and
//!   [`opaque`] hold the chunks;
//! - [`model`] holds the model as a whole, with the decoder and the encoder
//!   of files;
//! - [`roundtrip`] says that files survive decoding and encoding;
//! - [`traits`] and [`optimizer`] thin out keyframes, and [`reduction`] says
//!   what holds of that.
//!
//! The byte layout is described mathematically, and every function is proved
//! to do what the description says. The proofs rest on what five functions
//! of [`primitives`] say of the `scroll` crate, which does the reading and
//! writing of bytes; these five are believed, not proved.
//!
//! Floating-point quantities of the format are carried as their IEEE-754
//! single-precision bit patterns (`u32`), so that files survive a round trip
//! bit for bit. The one place that needs the numbers behind the bits, the
//! comparison of values in the optimizer, takes the comparison as a function.

pub mod animation;
pub mod codec;
pub mod error;
pub mod geoset;
pub mod header;
pub mod model;
pub mod node;
pub mod opaque;
pub mod optimizer;
pub mod primitives;
pub mod reduction;
pub mod roundtrip;
pub mod sequence;
pub mod tags;
pub mod texture;
pub mod traits;
