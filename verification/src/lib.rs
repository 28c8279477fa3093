//! Supervision core for long-lived assistant-CLI subprocesses.
//!
//! The crate models the three parts of the orchestrator that carry real
//! logic: the session / stdin-channel registries with their lifecycle
//! guarantees, the structured control protocol spoken over the child's
//! standard streams, and the heuristic decoder that reconstructs project
//! paths from their lossily encoded directory names.  Everything that is
//! plain I/O glue (spawning, piping, event delivery) lives outside the
//! library and drives these verified pieces.

pub mod chars;
pub mod decode;
pub mod frontmatter;
pub mod jsontext;
pub mod inbound;
pub mod launcher;
pub mod mediator;
pub mod process;
pub mod protocol;
pub mod relay;
pub mod textproc;
