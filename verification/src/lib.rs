//! Privilege-separated, fail-closed confirmation dialogs.
//!
//! A privileged daemon that is about to perform a sensitive action (run a
//! command as root, let a process open an outbound connection) builds a
//! [`config::DialogConfig`] describing the action, encodes it as a single
//! command-line token, and hands it to an unprivileged interactive surface.
//! The surface decodes the descriptor, asks the user, and reports its answer
//! back through its process exit status alone.
//!
//! This crate is the verified core of that protocol: the descriptor data
//! model and its projections, the binary and base64 codecs that carry the
//! descriptor across the privilege boundary, the exit-code contract, the
//! environment allow-list, and the timeout-driven confirmation state machine.
//! Process spawning, credential dropping and the on-screen rendering live
//! outside this crate; they hand plain values in and take plain values back.

pub mod base64;
pub mod codec;
pub mod config;
pub mod exit;
pub mod machine;
pub mod spawn;
pub mod text;
