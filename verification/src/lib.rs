//! Reading and patching the data tables of a first-generation cartridge image.
//!
//! The image is a flat byte buffer. Every table sits at a fixed place in one
//! of its banks, or behind a little-endian pointer at such a place. Each read
//! decodes a record into a plain value; each write produces a [`patch::Patch`]
//! that replaces exactly the bytes the record occupies.

pub mod bytes;
pub mod cry;
pub mod db;
pub mod encounters;
pub mod error;
pub mod evolution_laws;
pub mod evolutions;
pub mod graphics;
pub mod hash;
pub mod header;
pub mod icons;
pub mod ids;
pub mod img;
pub mod img_laws;
pub mod laws;
pub mod machines;
pub mod map;
pub mod names;
pub mod parties;
pub mod party_laws;
pub mod patch;
pub mod pic;
pub mod pic_encode;
pub mod pic_laws;
pub mod pics;
pub mod player_names;
pub mod pokedex;
pub mod requests;
pub mod sav;
pub mod stats;
pub mod string;
pub mod tables;
pub mod types;
