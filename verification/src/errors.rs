//! Error values of the library.
//!
//! Each subsystem reports failures through a small struct that carries a
//! message. Warnings share the shape of errors but mark conditions the
//! caller may ignore.

use vstd::prelude::*;

verus! {

/// Error of the RIFF/WAVE codec: a malformed or unsupported container.
#[derive(Debug, Clone)]
pub struct WavFileError {
    pub message: String,
}

impl WavFileError {
    pub fn new(err_str: &str) -> (e: WavFileError)
        ensures
            e.message@ == err_str@,
    {
        WavFileError { message: err_str.to_string() }
    }

    /// The message carried by this error.
    pub fn message(&self) -> (s: String)
        ensures
            s@ == self.message@,
    {
        self.message.as_str().to_string()
    }
}

/// Error of the resonance bank and its worker pool.
#[derive(Debug, Clone)]
pub struct ResonanceError {
    pub message: String,
}

impl ResonanceError {
    pub fn new(err_str: &str) -> (e: ResonanceError)
        ensures
            e.message@ == err_str@,
    {
        ResonanceError { message: err_str.to_string() }
    }

    /// The message carried by this error.
    pub fn message(&self) -> (s: String)
        ensures
            s@ == self.message@,
    {
        self.message.as_str().to_string()
    }
}

/// Warning of the resonance bank: a condition the caller may ignore.
#[derive(Debug, Clone)]
pub struct ResonanceWarning {
    pub message: String,
}

impl ResonanceWarning {
    pub fn new(err_str: &str) -> (e: ResonanceWarning)
        ensures
            e.message@ == err_str@,
    {
        ResonanceWarning { message: err_str.to_string() }
    }

    /// The message carried by this warning.
    pub fn message(&self) -> (s: String)
        ensures
            s@ == self.message@,
    {
        self.message.as_str().to_string()
    }
}

/// Error of the application's coordination layer: timeline, key input and
/// display wiring.
#[derive(Debug, Clone)]
pub struct ResonanceParrotError {
    pub message: String,
}

impl ResonanceParrotError {
    pub fn new(err_str: &str) -> (e: ResonanceParrotError)
        ensures
            e.message@ == err_str@,
    {
        ResonanceParrotError { message: err_str.to_string() }
    }

    /// The message carried by this error.
    pub fn message(&self) -> (s: String)
        ensures
            s@ == self.message@,
    {
        self.message.as_str().to_string()
    }
}

/// Warning of the coordination layer: a condition the caller may ignore.
#[derive(Debug, Clone)]
pub struct ResonanceParrotWarning {
    pub message: String,
}

impl ResonanceParrotWarning {
    pub fn new(err_str: &str) -> (e: ResonanceParrotWarning)
        ensures
            e.message@ == err_str@,
    {
        ResonanceParrotWarning { message: err_str.to_string() }
    }

    /// The message carried by this warning.
    pub fn message(&self) -> (s: String)
        ensures
            s@ == self.message@,
    {
        self.message.as_str().to_string()
    }
}

} // verus!
