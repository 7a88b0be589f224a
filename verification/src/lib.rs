//! The decisions of a TLS notarization service.
//!
//! A prover fetches something over TLS together with a notary, who signs what the prover commits to
//! without seeing it. What comes out is a presentation that anyone can check later, offline. This
//! library holds what both sides and the offline verifier decide and compute; sockets, cryptography and
//! output are its caller's.
pub mod digits;
pub mod disclosure;
pub mod errors;
pub mod frame;
pub mod http;
pub mod notarize;
pub mod notary;
pub mod plan;
pub mod presentation;
pub mod reopen;
pub mod report;
pub mod runs;
pub mod session;
pub mod text;
pub mod urls;
pub mod verification;
pub mod ws_io;
