//! The logic of a peer-to-peer terminal chat.
//!
//! Each module states what it does over plain values: the state of the chat is an
//! [`app::AppState`], its view is an `AppView`, and every step is a function from one view to the
//! next, with what has to be done outside as its result. Sockets, threads, files, clocks and the
//! terminal stand around the library.
//!
//! - [`app`]: the state, its logs, its peers and its limits.
//! - [`net`], [`discovery`]: addresses, dialling, finding peers.
//! - [`worker`]: the work on a connection.
//! - [`protocol`], [`wire`]: chat frames and the encoding below them.
//! - [`files`]: file transfer.
//! - [`rendezvous`]: the rendezvous server and its client.
//! - [`commands`]: the command line, the start, the commands of the user.
//! - [`tui`]: the input line and what is shown.
//! - [`ffi`]: the decisions around native calls.
//! - [`promises`]: what all this is for.
//! - [`text`], [`util`], [`constants`]: what the others share.
pub mod app;
pub mod commands;
pub mod constants;
pub mod discovery;
pub mod ffi;
pub mod files;
pub mod net;
pub mod promises;
pub mod protocol;
pub mod rendezvous;
pub mod text;
pub mod tui;
pub mod util;
pub mod wire;
pub mod worker;
