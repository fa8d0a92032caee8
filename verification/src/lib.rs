//! Verified core of the ODX desktop tool: the MDD reader, the UDS service
//! model derived from it, UDS frame text handling and the diagnostic workspace.
pub mod error;
pub mod text;
pub mod flatbuf;
pub mod protobuf;
pub mod uds;
pub mod decode;
pub mod service;
pub mod mdd;
pub mod builder;
pub mod frames;
pub mod doip;
pub mod workspace;
pub mod dtc;
