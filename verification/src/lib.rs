//! A snapshot-style process inspector core: verified parsing of the
//! kernel-exposed per-process text sources (the positional `stat` line, the
//! labeled `status` block, the null-separated `cmdline` blob and the global
//! CPU-frequency listing) and the metrics derived from them.
//!
//! All parsing works over byte slices; reading the files, command-line flags
//! and table rendering are left to the unverified shell around this crate.

pub mod clock;
pub mod cmdline;
pub mod record;
pub mod stat;
pub mod status;
pub mod text;
pub mod usage;
