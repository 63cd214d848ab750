//! A verified core for an intercepting proxy that sits between an editor
//! client and a wrapped language-analysis server speaking length-prefixed
//! JSON-RPC over byte streams.
//!
//! The library holds the message framing codec, the JSON value model with
//! its serializer and parser, the message model, the method-keyed hook
//! pipeline with its correlation table and session state, and the concrete
//! hook behaviours.  Process supervision and the byte pumps that feed the
//! codec live outside the library and hand it plain byte buffers.

pub mod args;
pub mod bytes_util;
pub mod json;
pub mod json_ser;
pub mod json_parse;
pub mod json_round_trip;
pub mod json_parse_exec;
pub mod message;
pub mod codec;
pub mod state;
pub mod correlate;
pub mod outside;
pub mod token;
pub mod workspace;
pub mod notification;
pub mod errors;
pub mod hooks;
pub mod proxy;
pub mod transport;
