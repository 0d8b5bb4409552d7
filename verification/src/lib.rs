//! The client side of the `org.nix.derivation-builder` Varlink interface, and the
//! decisions of the build task that uses it.
//!
//! * [`client`]: the three calls of the interface, and what their replies come to;
//! * [`wire`]: messages on a byte stream, each ended by a zero byte;
//! * [`json`] and [`value`]: documents, and their text;
//! * [`derivation`]: derivations as documents, in the spelling of the interface;
//! * [`store_path`]: paths in the store;
//! * [`error`]: what can go wrong in a call;
//! * [`task`]: where the outputs of a build task go, and which may be submitted;
//! * [`submission`]: the submission of the outputs, step by step;
//! * [`path`]: paths in the file system;
//! * [`text`]: text helpers.
//!
//! Nothing here reads or writes a file or a socket.

pub mod client;
pub mod derivation;
pub mod error;
pub mod json;
pub mod path;
pub mod store_path;
pub mod submission;
pub mod task;
pub mod text;
pub mod value;
pub mod wire;
