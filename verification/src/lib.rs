//! A JSON-RPC 2.0 library whose behaviour is stated in contracts and proved.
pub mod client;
pub mod client_laws;
pub mod error;
pub mod integration;
pub mod integration_laws;
pub mod json;
pub mod json_laws;
pub mod numeral;
pub mod object;
pub mod protocol;
pub mod protocol_laws;
pub mod reading_laws;
pub mod server;
pub mod server_laws;
pub mod span;
pub mod transport;
pub mod transport_laws;
pub mod value_laws;
