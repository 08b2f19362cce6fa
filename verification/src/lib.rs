//! A minimal HTTP/1.1 server framework: the request and response model, the
//! request parser, longest-prefix routing, response rendering and the
//! decisions of a keep-alive connection, each with a verified contract.
//!
//! The library never touches a socket. It works on the bytes that were read
//! and gives back the bytes to write; whoever owns the stream does the
//! reading and the writing.

pub mod api;
pub mod app;
pub mod connection;
pub mod error;
pub mod file;
pub mod http;
pub mod json;
pub mod number;
pub mod random;
pub mod read;
pub mod round_trip;
pub mod status;
pub mod string_map;
pub mod text;
