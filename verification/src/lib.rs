//! A minimal Cloudflare Tunnel client: the parts that decide and compute.

pub mod answer_laws;
pub mod base64_text;
pub mod buffers;
pub mod capnp_params;
pub mod capnp_rpc;
pub mod config;
pub mod control;
pub mod edge;
pub mod error_laws;
pub mod h2_stream;
pub mod headers;
pub mod ingress;
pub mod layout;
pub mod message_laws;
pub mod origin;
pub mod protocol;
pub mod proxy;
pub mod reconnect;
pub mod register_laws;
pub mod request_laws;
pub mod rpc;
pub mod rule_laws;
pub mod segment;
pub mod text;
pub mod text_laws;
pub mod tunnel;
pub mod urls;
pub mod words;
