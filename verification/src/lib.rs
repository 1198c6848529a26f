//! Verified core of a browser front end for RWKV language models.
//!
//! The GPU work (building a model, running inference, moving recurrent state
//! between the device and the host) is done by `web_rwkv`; the modules here
//! hold the decisions around it: which layers get which quantisation, which
//! vocabulary entry a sampler picks, which cached prompt prefix a request can
//! resume from, and which backed state belongs to which state id.
pub mod cache;
pub mod infer;
pub mod loader;
pub mod model;
pub mod rank;
pub mod sampler;
pub mod session;
pub mod state;
