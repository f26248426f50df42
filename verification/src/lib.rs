//! Audio metadata reading and writing.
//!
//! Musikr is an audio metadata reading/writing library. The ID3v2 format is the one
//! currently supported.

pub mod io;
pub mod string;
pub mod id3v2;
pub mod raw;
pub mod err;
