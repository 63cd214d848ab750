//! The hook behind the server-originated refresh requests: the client
//! does not accept params on them, so the params are stripped before
//! forwarding.

use vstd::prelude::*;

verus! {

use crate::message::{Message, MessageData, id_clone};
use crate::json::bytes_clone;
use crate::hooks::HookOutcome;

/// The message with its params removed.
pub open spec fn spec_strip_params(m: MessageData) -> MessageData
    recommends
        m is Request,
{
    match m {
        MessageData::Request { id, method, params } => MessageData::Request {
            id,
            method,
            params: None,
        },
        _ => m,
    }
}

/// Strips the params from the requests it is registered for.
#[derive(Debug, PartialEq, Eq)]
pub struct RemoveParams;

impl RemoveParams {
    /// A fresh hook.
    pub fn new() -> (r: Self) {
        RemoveParams
    }

    /// Forwards the request with its params removed; no extras.
    pub fn on_request(&self, request: &Message) -> (r: HookOutcome)
        requires
            request@ is Request,
        ensures
            r@.primary == Some(spec_strip_params(request@)),
            r@.extras.len() == 0,
    {
        match request {
            Message::Request { id, method, params } => {
                let out = HookOutcome {
                    primary: Some(
                        Message::Request {
                            id: id_clone(id),
                            method: bytes_clone(method),
                            params: None,
                        },
                    ),
                    extras: Vec::new(),
                };
                proof {
                    crate::hooks::lemma_extras_view_index(out.extras@);
                }
                out
            },
            _ => vstd::pervasive::unreached(),
        }
    }
}

impl Default for RemoveParams {
    /// A fresh hook.
    fn default() -> (r: Self) {
        RemoveParams
    }
}

} // verus!
