//! The concrete hook behaviours, and what they share: the outcome a
//! hook hands back, the counter that numbers proxy-synthesized
//! requests, and the names and parameter keys the hooks read and
//! write.

pub mod document_did_close;
pub mod document_did_open;
pub mod initialize;
pub mod remove_params;
pub mod workspace_project_initialization_complete;
pub mod workspace_roslyn_needs_restore;

pub use document_did_close::DocumentDidCloseHook;
pub use document_did_open::DocumentDidOpenHook;
pub use initialize::InitializeHook;
pub use remove_params::RemoveParams;
pub use workspace_project_initialization_complete::WorkspaceProjectInitializationComplete;
pub use workspace_roslyn_needs_restore::WorkspaceRoslynNeedsRestore;

use vstd::prelude::*;

verus! {

use vstd::utf8::encode_utf8;
use crate::bytes_util::str_bytes;
use crate::json::{Json, JsonData, spec_obj_get};
use crate::message::{Message, MessageData, MsgId, IdData, Direction};

/// What a hook hands back: the message to forward on the pump's own
/// direction, if any, and the extra messages to send after it, each
/// with its direction.
#[derive(Debug, PartialEq, Eq)]
pub struct HookOutcome {
    pub primary: Option<Message>,
    pub extras: Vec<(Direction, Message)>,
}

/// The model of a hook outcome.
pub struct HookOutcomeData {
    pub primary: Option<MessageData>,
    pub extras: Seq<(Direction, MessageData)>,
}

/// The models of an extras vector.
pub open spec fn extras_view(es: Seq<(Direction, Message)>) -> Seq<(Direction, MessageData)>
    decreases es,
{
    if es.len() == 0 {
        Seq::empty()
    } else {
        seq![(es[0].0, es[0].1@)] + extras_view(es.subrange(1, es.len() as int))
    }
}

/// Element `i` of a viewed extras vector is the view of element `i`.
pub proof fn lemma_extras_view_index(es: Seq<(Direction, Message)>)
    ensures
        extras_view(es).len() == es.len(),
        forall|i: int| 0 <= i < es.len() ==> #[trigger] extras_view(es)[i] == (
            es[i].0,
            es[i].1@,
        ),
    decreases es.len(),
{
    if es.len() > 0 {
        lemma_extras_view_index(es.subrange(1, es.len() as int));
    }
}

impl View for HookOutcome {
    type V = HookOutcomeData;

    open spec fn view(&self) -> HookOutcomeData {
        HookOutcomeData {
            primary: match self.primary {
                Some(ref m) => Some(m@),
                None => None,
            },
            extras: extras_view(self.extras@),
        }
    }
}

/// The base of the identifier range reserved for proxy-synthesized
/// requests, far above any identifier an editor hands out.
pub const SYNTHETIC_ID_BASE: i64 = 0x4000000000000000;

/// The counter that numbers proxy-synthesized requests: one reserved,
/// disjoint identifier sub-space, never issued to the client, so the
/// correlation table can tell the proxy's own requests apart.
#[derive(Debug, PartialEq, Eq)]
pub struct SyntheticIds {
    pub next: i64,
}

impl SyntheticIds {
    /// A fresh counter at the base of the reserved range.
    pub fn new() -> (s: Self)
        ensures
            s.next == SYNTHETIC_ID_BASE,
    {
        SyntheticIds { next: SYNTHETIC_ID_BASE }
    }

    /// The next reserved identifier.  The counter grows until the end
    /// of its range, which a session never reaches.
    pub fn fresh(&mut self) -> (r: MsgId)
        ensures
            r@ == IdData::Int(old(self).next as int),
            final(self).next == if old(self).next < i64::MAX {
                old(self).next + 1
            } else {
                old(self).next as int
            },
    {
        let id = MsgId::Int(self.next);
        if self.next < i64::MAX {
            self.next = self.next + 1;
        }
        id
    }
}

/// The bytes of the pull-diagnostic request's method name.
pub open spec fn method_diagnostic() -> Seq<u8> {
    encode_utf8("textDocument/diagnostic"@)
}

/// The bytes of the restore request's method name.
pub open spec fn method_restore() -> Seq<u8> {
    encode_utf8("workspace/_roslyn_restore"@)
}

/// The bytes of the solution-open notification's method name.
pub open spec fn method_solution_open() -> Seq<u8> {
    encode_utf8("solution/open"@)
}

/// The bytes of the project-open notification's method name.
pub open spec fn method_project_open() -> Seq<u8> {
    encode_utf8("project/open"@)
}

/// The bytes of the parameter key `textDocument`.
pub open spec fn key_text_document() -> Seq<u8> {
    encode_utf8("textDocument"@)
}

/// The bytes of the parameter key `uri`.
pub open spec fn key_uri() -> Seq<u8> {
    encode_utf8("uri"@)
}

/// The bytes of the parameter key `rootUri`.
pub open spec fn key_root_uri() -> Seq<u8> {
    encode_utf8("rootUri"@)
}

/// The bytes of the parameter key `partialResultToken`.
pub open spec fn key_partial_result_token() -> Seq<u8> {
    encode_utf8("partialResultToken"@)
}

/// The params a message carries, if any.
pub open spec fn params_of(m: MessageData) -> Option<JsonData> {
    match m {
        MessageData::Request { id, method, params } => params,
        MessageData::Notification { method, params } => params,
        MessageData::Response { id, body } => None,
    }
}

/// The document URI in a message's params, at `textDocument.uri`.
pub open spec fn msg_uri(m: MessageData) -> Option<Seq<u8>> {
    match params_of(m) {
        Some(p) => match p {
            JsonData::Obj(ps) => match spec_obj_get(ps, key_text_document()) {
                Some(td) => match td {
                    JsonData::Obj(tps) => match spec_obj_get(tps, key_uri()) {
                        Some(u) => match u {
                            JsonData::Str(ub) => Some(ub),
                            _ => None,
                        },
                        None => None,
                    },
                    _ => None,
                },
                None => None,
            },
            _ => None,
        },
        None => None,
    }
}

/// The root URI in a request's params, at `rootUri`.
pub open spec fn root_uri_of(m: MessageData) -> Option<Seq<u8>> {
    match params_of(m) {
        Some(p) => match p {
            JsonData::Obj(ps) => match spec_obj_get(ps, key_root_uri()) {
                Some(u) => match u {
                    JsonData::Str(ub) => Some(ub),
                    _ => None,
                },
                None => None,
            },
            _ => None,
        },
        None => None,
    }
}

/// The document URI in a message's params.
pub fn message_uri(m: &Message) -> (r: Option<Vec<u8>>)
    ensures
        (match r {
            Some(u) => msg_uri(m@) == Some(u@),
            None => msg_uri(m@) is None,
        }),
{
    let params = match m {
        Message::Request { id, method, params } => params,
        Message::Notification { method, params } => params,
        Message::Response { id, body } => {
            return None;
        },
    };
    let p = match params {
        Some(p) => p,
        None => {
            return None;
        },
    };
    let td = match p.get(&str_bytes("textDocument")) {
        Some(td) => td,
        None => {
            return None;
        },
    };
    match td.get(&str_bytes("uri")) {
        Some(u) => match u {
            Json::Str(ub) => Some(crate::json::bytes_clone(ub)),
            _ => None,
        },
        None => None,
    }
}

/// The root URI in a request's params.
pub fn message_root_uri(m: &Message) -> (r: Option<Vec<u8>>)
    ensures
        (match r {
            Some(u) => root_uri_of(m@) == Some(u@),
            None => root_uri_of(m@) is None,
        }),
{
    let params = match m {
        Message::Request { id, method, params } => params,
        Message::Notification { method, params } => params,
        Message::Response { id, body } => {
            return None;
        },
    };
    let p = match params {
        Some(p) => p,
        None => {
            return None;
        },
    };
    match p.get(&str_bytes("rootUri")) {
        Some(u) => match u {
            Json::Str(ub) => Some(crate::json::bytes_clone(ub)),
            _ => None,
        },
        None => None,
    }
}

/// The pull-diagnostic request a hook synthesizes for a document.
pub open spec fn diagnostic_request(uri: Seq<u8>, id: int) -> MessageData {
    MessageData::Request {
        id: IdData::Int(id),
        method: method_diagnostic(),
        params: Some(
            JsonData::Obj(
                seq![
                    (
                        key_text_document(),
                        JsonData::Obj(seq![(key_uri(), JsonData::Str(uri))]),
                    ),
                ],
            ),
        ),
    }
}

/// Builds the pull-diagnostic request for a document.
pub fn make_diagnostic_request(uri: &Vec<u8>, id: i64) -> (r: Message)
    ensures
        r@ == diagnostic_request(uri@, id as int),
{
    let mut inner: Vec<(Vec<u8>, Json)> = Vec::new();
    inner.push((str_bytes("uri"), Json::Str(crate::json::bytes_clone(uri))));
    let ghost innerv = inner@;
    let mut outer: Vec<(Vec<u8>, Json)> = Vec::new();
    outer.push((str_bytes("textDocument"), Json::Obj(inner)));
    let ghost outerv = outer@;
    let r = Message::Request {
        id: MsgId::Int(id),
        method: str_bytes("textDocument/diagnostic"),
        params: Some(Json::Obj(outer)),
    };
    proof {
        crate::json::lemma_pairs_view_index(innerv);
        crate::json::lemma_pairs_view_index(outerv);
        assert(crate::json::pairs_view(innerv) =~= seq![(key_uri(), JsonData::Str(uri@))]);
        assert(crate::json::pairs_view(outerv) =~= seq![
            (key_text_document(), JsonData::Obj(crate::json::pairs_view(innerv))),
        ]);
    }
    r
}


} // verus!
