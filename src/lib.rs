//! Contract metadata for WASM smart contracts: a typed registry of the
//! contract's types, their TypeScript projection, and the encoding of call
//! arguments and decoding of returned values.
pub mod analyze;
pub mod call;
pub mod cli;
pub mod codec;
pub mod config;
pub mod decode;
pub mod emit;
pub mod format;
pub mod json;
pub mod metadata;
pub mod paths;
pub mod registry;
pub mod resolver;
pub mod rpc;
pub mod text;
pub mod wire;
