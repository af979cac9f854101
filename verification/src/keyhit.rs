//! Key-input plumbing shared with the keyboard poller.
//!
//! The poller thread itself reads raw console bytes and lives with the
//! application; the library holds the state it keeps and the request
//! values the orchestrator sends back to it.

use vstd::prelude::*;

verus! {

/// The keyboard poller's state: the characters read so far.
pub struct KeyHitInput {
    pub input_vec: Vec<char>,
}

impl KeyHitInput {
    pub fn new() -> (k: KeyHitInput)
        ensures
            k.input_vec@ == Seq::<char>::empty(),
    {
        KeyHitInput { input_vec: Vec::new() }
    }
}

/// What the orchestrator answers after each key: keep polling, or exit.
#[derive(Clone, Copy, PartialEq, Eq, Structural, Debug)]
pub enum KeyHitRequest {
    Continue,
    Exit,
}

} // verus!
