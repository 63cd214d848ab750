//! The hook behind the client's close notification: it clears the
//! tracked document, but only when the closed one is the tracked one,
//! so a stale close racing a newer open changes nothing.

use vstd::prelude::*;

verus! {

use crate::message::{Message, message_clone};
use crate::state::{SessionState, close_transition};
use crate::hooks::{HookOutcome, msg_uri, message_uri};

/// Clears the tracked document when it is closed.
#[derive(Debug, PartialEq, Eq)]
pub struct DocumentDidCloseHook;

impl DocumentDidCloseHook {
    /// A fresh hook.
    pub fn new() -> (r: Self) {
        DocumentDidCloseHook
    }

    /// Forwards the notification unchanged; when it names a document,
    /// the session state takes the close transition for it.
    pub fn on_notification(&self, notification: &Message, state: &mut SessionState) -> (r:
        HookOutcome)
        requires
            notification@ is Notification,
        ensures
            r@.primary == Some(notification@),
            r@.extras.len() == 0,
            final(state).opened() == (match msg_uri(notification@) {
                Some(u) => close_transition(old(state).opened(), u),
                None => old(state).opened(),
            }),
    {
        match message_uri(notification) {
            Some(uri) => {
                state.did_close(&uri);
            },
            None => {},
        }
        let out = HookOutcome { primary: Some(message_clone(notification)), extras: Vec::new() };
        proof {
            crate::hooks::lemma_extras_view_index(out.extras@);
        }
        out
    }
}

} // verus!
