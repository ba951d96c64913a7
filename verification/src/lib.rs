//! Extension execution substrate for a Jinja2-style template composer.
//!
//! Templates may be extended with user-defined functions and filters whose
//! bodies are either shell scripts or exported WebAssembly functions.  This
//! crate holds the verified core of that substrate: the dynamic value type
//! and its JSON codec, the shell placeholder substitution and interpreter
//! selection, the wasm call protocol (input framing, return descriptors,
//! output decoding), the dispatcher that turns declarations into executable
//! backends, and the manifest model.
//!
//! Process management, file access and the template engine itself live in
//! the surrounding (unverified) application, which drives them with the
//! decisions computed here.

use vstd::prelude::*;

pub mod ast;
pub mod codec;
pub mod command;
pub mod decode;
pub mod encode;
pub mod error;
pub mod filter;
pub mod function;
pub mod manifest;
pub mod plugin;
pub mod roundtrip;
pub mod shell_plugin;
pub mod text;
pub mod value;
pub mod wasm_example;
pub mod wasm_plugin;

pub use codec::from_json;
pub use codec::value_to_str;
pub use codec::to_json;
pub use error::Error;
pub use value::Value;

verus! {

} // verus!
