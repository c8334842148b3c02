//! An HTTP/1.1 client core over a raw byte stream: a round-robin pool of
//! connection slots, byte-exact request heads, a response-head parser and the
//! state machines that complete or stream a response body.
pub mod errors;
pub mod traits;
pub mod config;
pub mod pool;
pub mod bytes;
pub mod request;
pub mod head;
pub mod response;
pub mod exchange;
pub mod connection;
pub mod chars;
