//! The command-line surface as plain data: which operation to run and with
//! what inputs.  Argument parsing itself is left to the host program, which
//! hands over one of these values.

use vstd::prelude::*;

verus! {

/// A full invocation: one command.
pub struct Cli {
    pub command: Command,
}

/// The four operations on a container file.
pub enum Command {
    /// Encode a message into a file.
    Encode(EncodeArgs),
    /// Decode a message from a file.
    Decode(DecodeArgs),
    /// Remove a message from a file.
    Remove(RemoveArgs),
    /// Print the chunks of a file.
    Print(PrintArgs),
}

/// Inputs of the encode operation.
pub struct EncodeArgs {
    pub input: String,
    pub chunk_type: String,
    pub message: String,
    pub output: Option<String>,
}

/// Inputs of the decode operation.
pub struct DecodeArgs {
    pub input: String,
    pub chunk_type: String,
}

/// Inputs of the remove operation.
pub struct RemoveArgs {
    pub input: String,
    pub chunk_type: String,
}

/// Inputs of the print operation.
pub struct PrintArgs {
    pub input: String,
}

} // verus!
