//! A streaming `multipart/related` codec for DICOMweb, with its contracts.
//!
//! The decoder takes the bytes of a message as they arrive and hands out
//! its parts one after the other; the encoder writes parts into a message.
//! Every function states what it does over values: byte sequences, and the
//! parts that a message holds.
//!
//! - [`payload`] is the byte window that the decoder reads from.
//! - [`safety`] is the guard that lets one reader at a time at the window.
//! - [`grammar`] and [`header`] say what the reading steps take from the
//!   window; [`session`] says what the decoder answers to each request.
//! - [`server`] is the decoder itself, [`builder`] the encoder.
//! - [`message`] says what a whole message holds; [`collect`] reads a whole
//!   message, and [`stream`] shows why the chunks it arrives in do not
//!   matter.
//! - [`laws`] holds what is true of encoder and decoder together.
//! - [`qido`], [`stow`] and [`wado`] hold what the DICOMweb endpoints
//!   decide.
//! - [`trusted`] holds the calls into other crates.

pub mod builder;
pub mod bytes;
pub mod collect;
pub mod error;
pub mod grammar;
pub mod header;
pub mod laws;
pub mod message;
pub mod payload;
pub mod qido;
pub mod safety;
pub mod server;
pub mod session;
pub mod stow;
pub mod stream;
pub mod trusted;
pub mod wado;

pub use builder::MultipartWriter;
pub use qido::{QidoInstanceQuery, QidoSeriesQuery, QidoStudyQuery};
pub use server::{MultipartRelated, Object};
