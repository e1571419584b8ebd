//! GenVM executor core: the ABI constants shared with contracts, the calldata
//! wire format, page-based contract storage, memory and fee accounting,
//! runner identifiers and the small text formats the runtime understands.

pub mod consts;
pub mod text;
pub mod calldata;
pub mod host;
pub mod storage;
pub mod memlimiter;
pub mod runners;
pub mod runner;
pub mod fees;
pub mod vm;
pub mod string_templater;
pub mod vfs;
pub mod gl_call;
pub mod actions;
pub mod contract_code;
pub mod sdk_types;
pub mod node_iface;
pub mod caching;
pub mod config;
pub mod rt;
pub mod genvm_runner;
pub mod host_protocol;
pub mod result_buffer;
