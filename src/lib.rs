//! Discovery of cast receivers on the local network, and the step sequences
//! that connect to one and have it speak a message.
pub mod address;
pub mod discovery;
pub mod error;
mod outside;
pub mod record;
pub mod session;
pub mod speech;
