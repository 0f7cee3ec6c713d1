//! What the chat promises, said over the fields of its state and over plain values.
//!
//! The other modules say what each step does. Here stands what the steps are for, in other words
//! than theirs: what a result has to satisfy, and how results relate to each other.
//!
//! - [`people`]: who is dialled, who is told what, who stays in the list.
//! - [`links`]: the life of a connection.
//! - [`transfers`]: offered files and their way.
//! - [`rooms`]: the rendezvous server and its clients.
//! - [`shell`]: the command line and the commands.
//! - [`screen`]: what is typed and shown.
//! - [`letters`]: text, numbers and bytes.
pub mod letters;
pub mod links;
pub mod people;
pub mod rooms;
pub mod screen;
pub mod shell;
pub mod transfers;
