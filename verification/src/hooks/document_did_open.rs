//! The hook behind the client's open notification: it records the
//! document as the tracked one and asks the server for diagnostics on
//! it right away.

use vstd::prelude::*;

verus! {

use crate::message::{Message, Direction, message_clone};
use crate::state::{SessionState, open_transition};
use crate::hooks::{
    HookOutcome, SyntheticIds, msg_uri, message_uri, diagnostic_request, make_diagnostic_request,
};

/// Tracks the opened document and pulls diagnostics for it.
#[derive(Debug, PartialEq, Eq)]
pub struct DocumentDidOpenHook;

impl DocumentDidOpenHook {
    /// A fresh hook.
    pub fn new() -> (r: Self) {
        DocumentDidOpenHook
    }

    /// Forwards the notification unchanged.  When it names a document,
    /// that document becomes the tracked one and one pull-diagnostic
    /// request for it, under a fresh reserved identifier, goes toward
    /// the server; otherwise nothing changes.
    pub fn on_notification(
        &self,
        notification: &Message,
        state: &mut SessionState,
        ids: &mut SyntheticIds,
    ) -> (r: HookOutcome)
        requires
            notification@ is Notification,
        ensures
            r@.primary == Some(notification@),
            (match msg_uri(notification@) {
                Some(u) => {
                    &&& final(state).opened() == open_transition(old(state).opened(), u)
                    &&& r@.extras == seq![
                        (Direction::ToServer, diagnostic_request(u, old(ids).next as int)),
                    ]
                    &&& final(ids).next == if old(ids).next < i64::MAX {
                        old(ids).next + 1
                    } else {
                        old(ids).next as int
                    }
                },
                None => {
                    &&& final(state).opened() == old(state).opened()
                    &&& r@.extras.len() == 0
                    &&& final(ids).next == old(ids).next
                },
            }),
    {
        match message_uri(notification) {
            Some(uri) => {
                state.did_open(&uri);
                let id = ids.fresh();
                let idnum = match id {
                    crate::message::MsgId::Int(n) => n,
                    _ => vstd::pervasive::unreached(),
                };
                let req = make_diagnostic_request(&uri, idnum);
                let mut extras: Vec<(Direction, Message)> = Vec::new();
                extras.push((Direction::ToServer, req));
                let out = HookOutcome { primary: Some(message_clone(notification)), extras };
                proof {
                    crate::hooks::lemma_extras_view_index(out.extras@);
                    assert(out@.extras =~= seq![
                        (
                            Direction::ToServer,
                            diagnostic_request(msg_uri(notification@)->0, old(ids).next as int),
                        ),
                    ]);
                }
                out
            },
            None => {
                let out = HookOutcome {
                    primary: Some(message_clone(notification)),
                    extras: Vec::new(),
                };
                proof {
                    crate::hooks::lemma_extras_view_index(out.extras@);
                }
                out
            },
        }
    }
}

} // verus!
