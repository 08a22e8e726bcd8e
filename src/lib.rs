//! The test-execution engine of a headless Bluetooth Profile Tuning Suite
//! runner, as verified logic: the parsers for the suite's log payloads
//! (TTCN-3 values, AT responses, prompt descriptions, addresses), the
//! decoding of log records into events, the selection of test cases and
//! the parameters of a run, the decisions of a run and of a batch, and the
//! filter that reads JSON with comments.
//!
//! Processes, files, pseudo-terminals and the asynchronous plumbing that
//! carry these decisions out live in the program around the library.

pub mod at;
pub mod bd_addr;
pub mod ets;
pub mod hci;
pub mod jsonc;
pub mod log;
pub mod logger;
pub mod mmi;
pub mod params;
pub mod picsx;
pub mod pixitx;
pub mod profile;
pub mod pts;
pub mod runner;
pub mod session;
pub mod text;
pub mod ttcn;
pub mod wine;
