//! Compile-time evaluation of a block of code: the block is built and run as a
//! standalone helper program with the dependencies of the enclosing build, and the
//! text it prints is turned back into an expression for the call site.
//!
//! The library holds the logic of that pipeline: rebuilding the compiler arguments,
//! merging the dependency declarations, writing the helper program, the stage
//! machine that orders building, running and cleanup, and splicing the result.
//! Performing the file system and process work is left to the caller, which feeds
//! each outcome back as an event.

pub mod text;
pub mod args;
pub mod deps;
pub mod synth;
pub mod syntax;
pub mod pipeline;

