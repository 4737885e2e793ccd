//! Verified core of a proving service for ZoKrates programs: request data
//! regrouping, decoding of compressed hex payloads, Ethereum ABI argument
//! assembly from proof JSON, and the request-handling decisions.

pub mod abi;
pub mod compute_witness;
pub mod generate_proof;
pub mod service;
pub mod text;
pub mod utils;
