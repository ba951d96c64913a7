//! Errors of the extension substrate.

use vstd::prelude::*;

verus! {

/// Everything that can go wrong while building or running an extension.
#[derive(Debug)]
pub enum Error {
    /// A declaration names neither a wasm binding nor a script, or both,
    /// or uses a reserved parameter or environment name.
    BadDeclaration,
    /// A shell parameter has neither a caller argument nor a default.
    MissingParam(String),
    /// The subprocess exited with a failure or could not be spawned;
    /// carries the command text and the diagnostic output.
    ShellFailed(String, String),
    /// The wasm module could not be read, validated or instantiated.
    WasmLoad(String),
    /// The guest trapped or returned an out-of-bounds descriptor.
    WasmTrap,
    /// A value could not be framed as JSON, or an output could not be
    /// decoded from JSON or UTF-8.
    MarshalError,
    /// The guest reported an exception of its own.
    GuestError(String),
    /// The manifest did not parse into declarations.
    BadManifest,
    /// A file could not be read; carries the path.
    IOError(String),
}

} // verus!
