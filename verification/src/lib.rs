//! The navigation and synchronization engine of a terminal task manager
//! over a line-oriented plaintext task file.
//!
//! The library holds everything with invariants worth proving: the record
//! parser and serializer (`record`, `date`, `toks`, `text`), the load
//! ordering (`load`), the whole-file mutation primitives (`mutate`), the
//! grouping index (`grouping`), the two-axis navigation state machine with
//! its monitor column and live-preview sub-machine (`nav`, `preview`), the
//! debounced file-watch reconciler and keyboard dispatcher (`watch`), the
//! editor RPC frame codec (`rpc`), and the record-store tool parameters
//! (`mcp`). Reading files, sockets and the terminal is left to the program
//! around it, which receives every action as a plain value.
pub mod date;
pub mod grouping;
pub mod load;
pub mod mcp;
pub mod mutate;
pub mod nav;
pub mod preview;
pub mod record;
pub mod roundtrip;
pub mod rpc;
pub mod text;
pub mod toks;
pub mod ui_support;
pub mod watch;
