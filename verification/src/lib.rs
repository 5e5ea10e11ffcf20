//! Codecs for the data files of a legacy city-simulation game: an indexed
//! binary record container, a back-reference compression scheme, the game's
//! packed 16-bit pixel formats, and a length-prefixed string-table format.
pub mod bytes;
pub mod dbpf;
pub mod error;
pub mod hexdump;
pub mod image;
pub mod ixf;
pub mod pak;
pub mod refpack;
