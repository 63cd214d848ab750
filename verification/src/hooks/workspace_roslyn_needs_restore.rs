//! The hook behind the server's restore-needed notification: it
//! answers with a restore request carrying a fresh random token under
//! a fresh reserved identifier, and keeps the notification away from
//! the client.

use vstd::prelude::*;

verus! {

use crate::json::{Json, JsonData, json_clone, obj_remove, pairs_view, lemma_pairs_view_index,
    lemma_obj_remove_push};
use crate::message::{Message, MessageData, MsgId, IdData, Direction};
use crate::bytes_util::str_bytes;
use crate::token::{is_restore_token, generate_restore_token};
use crate::hooks::{HookOutcome, SyntheticIds, key_partial_result_token, method_restore,
    params_of};

/// The restore request's params: the notification's params object with
/// the partial-result token set to the given value.  Params that are
/// not an object pass through untouched, and absent params become an
/// object holding only the token.
pub open spec fn restore_params(p: Option<JsonData>, token: Seq<u8>) -> JsonData {
    match p {
        Some(v) => match v {
            JsonData::Obj(ps) => JsonData::Obj(
                obj_remove(ps, key_partial_result_token()).push(
                    (key_partial_result_token(), JsonData::Str(token)),
                ),
            ),
            _ => v,
        },
        None => JsonData::Obj(seq![(key_partial_result_token(), JsonData::Str(token))]),
    }
}

/// The restore request for a notification's params.
pub open spec fn restore_request(p: Option<JsonData>, token: Seq<u8>, id: int) -> MessageData {
    MessageData::Request {
        id: IdData::Int(id),
        method: method_restore(),
        params: Some(restore_params(p, token)),
    }
}

/// Answers a restore-needed signal with a restore request.
#[derive(Debug, PartialEq, Eq)]
pub struct WorkspaceRoslynNeedsRestore;

impl WorkspaceRoslynNeedsRestore {
    /// A fresh hook.
    pub fn new() -> (r: Self) {
        WorkspaceRoslynNeedsRestore
    }

    /// Suppresses the notification and sends one restore request
    /// toward the server, under a fresh reserved identifier, with a
    /// fresh token in the params.
    pub fn on_notification(&self, notification: &Message, ids: &mut SyntheticIds) -> (r:
        HookOutcome)
        requires
            notification@ is Notification,
        ensures
            r@.primary is None,
            exists|token: Seq<u8>|
                is_restore_token(token) && r@.extras == seq![
                    (
                        Direction::ToServer,
                        restore_request(params_of(notification@), token, old(ids).next as int),
                    ),
                ],
            final(ids).next == if old(ids).next < i64::MAX {
                old(ids).next + 1
            } else {
                old(ids).next as int
            },
    {
        let token = generate_restore_token();
        let ghost gtoken = token@;
        let params = match notification {
            Message::Notification { method, params } => params,
            _ => vstd::pervasive::unreached(),
        };
        let new_params: Json = match params {
            Some(p) => match p {
                Json::Obj(ps) => {
                    // keep every member but the token, then set the token
                    let key = str_bytes("partialResultToken");
                    let mut kept: Vec<(Vec<u8>, Json)> = Vec::new();
                    let mut i: usize = 0;
                    proof {
                        lemma_pairs_view_index(ps@);
                        assert(obj_remove(pairs_view(ps@).take(0), key_partial_result_token())
                            =~= pairs_view(kept@));
                        assert(pairs_view(kept@) =~= Seq::<(Seq<u8>, JsonData)>::empty());
                    }
                    while i < ps.len()
                        invariant
                            i <= ps@.len(),
                            key@ == key_partial_result_token(),
                            pairs_view(ps@).len() == ps@.len(),
                            forall|k: int| 0 <= k < ps@.len() ==> #[trigger] pairs_view(
                                ps@,
                            )[k] == (ps@[k].0@, crate::json::json_view(ps@[k].1)),
                            pairs_view(kept@) == obj_remove(
                                pairs_view(ps@).take(i as int),
                                key_partial_result_token(),
                            ),
                        decreases ps@.len() - i,
                    {
                        proof {
                            assert(pairs_view(ps@).take(i + 1) =~= pairs_view(ps@).take(
                                i as int,
                            ).push(pairs_view(ps@)[i as int]));
                            lemma_obj_remove_push(
                                pairs_view(ps@).take(i as int),
                                pairs_view(ps@)[i as int],
                                key_partial_result_token(),
                            );
                        }
                        if !crate::bytes_util::bytes_eq(&ps[i].0, &key) {
                            let ghost kpre = kept@;
                            kept.push(
                                (crate::json::bytes_clone(&ps[i].0), json_clone(&ps[i].1)),
                            );
                            proof {
                                lemma_pairs_view_index(kpre);
                                lemma_pairs_view_index(kept@);
                                assert(pairs_view(kept@) =~= pairs_view(kpre).push(
                                    pairs_view(ps@)[i as int],
                                ));
                            }
                        }
                        i += 1;
                    }
                    proof {
                        assert(pairs_view(ps@).take(ps@.len() as int) =~= pairs_view(ps@));
                    }
                    let ghost kpre = kept@;
                    kept.push((key, Json::Str(token)));
                    proof {
                        lemma_pairs_view_index(kpre);
                        lemma_pairs_view_index(kept@);
                        assert(pairs_view(kept@) =~= pairs_view(kpre).push(
                            (key_partial_result_token(), JsonData::Str(gtoken)),
                        ));
                    }
                    Json::Obj(kept)
                },
                _ => json_clone(p),
            },
            None => {
                let mut ps2: Vec<(Vec<u8>, Json)> = Vec::new();
                ps2.push((str_bytes("partialResultToken"), Json::Str(token)));
                proof {
                    lemma_pairs_view_index(ps2@);
                    assert(pairs_view(ps2@) =~= seq![
                        (key_partial_result_token(), JsonData::Str(gtoken)),
                    ]);
                }
                Json::Obj(ps2)
            },
        };
        let id = ids.fresh();
        let idnum = match id {
            MsgId::Int(n) => n,
            _ => vstd::pervasive::unreached(),
        };
        let req = Message::Request {
            id: MsgId::Int(idnum),
            method: str_bytes("workspace/_roslyn_restore"),
            params: Some(new_params),
        };
        let mut extras: Vec<(Direction, Message)> = Vec::new();
        extras.push((Direction::ToServer, req));
        let out = HookOutcome { primary: None, extras };
        proof {
            crate::hooks::lemma_extras_view_index(out.extras@);
            assert(out@.extras =~= seq![
                (
                    Direction::ToServer,
                    restore_request(params_of(notification@), gtoken, old(ids).next as int),
                ),
            ]);
            assert(is_restore_token(gtoken));
        }
        out
    }
}

impl Default for WorkspaceRoslynNeedsRestore {
    /// A fresh hook.
    fn default() -> (r: Self) {
        WorkspaceRoslynNeedsRestore
    }
}

} // verus!
