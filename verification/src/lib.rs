//! Core of a pitch-spectrum audio analyzer.
//!
//! The library holds the logic of the analyzer: the RIFF/WAVE container
//! codec, the playback timeline with its drift-corrected scheduling
//! arithmetic, the partitioning of the 97-band oscillator table across
//! workers, and the scientific-pitch-notation labels. Everything here is
//! verified; file and terminal I/O, threads and the floating-point
//! oscillator updates live in the surrounding application.

pub mod display;
pub mod errors;
pub mod keyhit;
pub mod resonance;
pub mod timeline;
pub mod wav;
