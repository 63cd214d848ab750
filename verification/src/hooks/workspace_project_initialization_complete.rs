//! The hook behind the server's project-initialization-complete
//! notification: once the server is ready, it pulls diagnostics for
//! the tracked document, if one is open, and keeps the signal away
//! from the client; with nothing open it forwards the signal
//! unchanged.

use vstd::prelude::*;

verus! {

use crate::message::{Message, Direction, message_clone};
use crate::state::SessionState;
use crate::hooks::{HookOutcome, SyntheticIds, diagnostic_request, make_diagnostic_request};

/// Pulls diagnostics for the tracked document when the server is
/// ready.
#[derive(Debug, PartialEq, Eq)]
pub struct WorkspaceProjectInitializationComplete;

impl WorkspaceProjectInitializationComplete {
    /// A fresh hook.
    pub fn new() -> (r: Self) {
        WorkspaceProjectInitializationComplete
    }

    /// With a tracked document: the notification is suppressed and one
    /// pull-diagnostic request for that document, under a fresh
    /// reserved identifier, goes toward the server.  Without one: the
    /// notification is forwarded unchanged with no extras.
    pub fn on_notification(
        &self,
        notification: &Message,
        state: &SessionState,
        ids: &mut SyntheticIds,
    ) -> (r: HookOutcome)
        requires
            notification@ is Notification,
        ensures
            (match state.opened() {
                Some(u) => {
                    &&& r@.primary is None
                    &&& r@.extras == seq![
                        (Direction::ToServer, diagnostic_request(u, old(ids).next as int)),
                    ]
                    &&& final(ids).next == if old(ids).next < i64::MAX {
                        old(ids).next + 1
                    } else {
                        old(ids).next as int
                    }
                },
                None => {
                    &&& r@.primary == Some(notification@)
                    &&& r@.extras.len() == 0
                    &&& final(ids).next == old(ids).next
                },
            }),
    {
        match &state.opened_document {
            Some(uri) => {
                let id = ids.fresh();
                let idnum = match id {
                    crate::message::MsgId::Int(n) => n,
                    _ => vstd::pervasive::unreached(),
                };
                let req = make_diagnostic_request(uri, idnum);
                let mut extras: Vec<(Direction, Message)> = Vec::new();
                extras.push((Direction::ToServer, req));
                let out = HookOutcome { primary: None, extras };
                proof {
                    crate::hooks::lemma_extras_view_index(out.extras@);
                    assert(out@.extras =~= seq![
                        (
                            Direction::ToServer,
                            diagnostic_request(state.opened()->0, old(ids).next as int),
                        ),
                    ]);
                }
                out
            },
            None => {
                let out = HookOutcome {
                    primary: Some(message_clone(notification)),
                    extras: Vec::new(),
                };
                proof {
                    crate::hooks::lemma_extras_view_index(out.extras@);
                }
                out
            },
        }
    }
}

} // verus!
