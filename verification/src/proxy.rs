//! The method-keyed hook pipeline.  A proxy holds one hook registry
//! per traffic direction, the correlation table, the session state and
//! the synthetic-identifier counter, and dispatches each message: a
//! request or notification runs through the hooks registered under its
//! method, in registration order, each receiving the current primary
//! message and adding its extras; a response consumes its correlation
//! entry and passes through.

use vstd::prelude::*;

verus! {

use vstd::utf8::encode_utf8;
use crate::bytes_util::bytes_eq;
use crate::json::bytes_clone;
use crate::message::{Message, MessageData, IdData, Direction, id_clone};
use crate::state::{SessionState, close_transition};
use crate::correlate::{CorrelationTable, EntryData, table_lookup};
use crate::errors::ProxyError;
use crate::token::is_restore_token;
use crate::hooks::{
    HookOutcome, SyntheticIds, msg_uri, params_of, diagnostic_request, lemma_extras_view_index,
    extras_view,
};
use crate::hooks::initialize::{
    InitializeHook, InitializeAction, open_solution_notification, open_projects_notification,
};
use crate::hooks::document_did_open::DocumentDidOpenHook;
use crate::hooks::document_did_close::DocumentDidCloseHook;
use crate::hooks::remove_params::{RemoveParams, spec_strip_params};
use crate::hooks::workspace_project_initialization_complete::WorkspaceProjectInitializationComplete;
use crate::hooks::workspace_roslyn_needs_restore::{WorkspaceRoslynNeedsRestore, restore_request};
use crate::notification::{projects_view, discovered_uris};
use crate::workspace::Candidate;

/// One of the six hook behaviours.
#[derive(Debug)]
pub enum HookKind {
    Initialize(InitializeHook),
    DidOpen(DocumentDidOpenHook),
    DidClose(DocumentDidCloseHook),
    ProjectInitializationComplete(WorkspaceProjectInitializationComplete),
    NeedsRestore(WorkspaceRoslynNeedsRestore),
    StripParams(RemoveParams),
}

/// The model of a hook behaviour, carrying its configuration.
pub enum HookKindData {
    Initialize { solution: Option<Seq<char>>, projects: Option<Seq<String>> },
    DidOpen,
    DidClose,
    ProjectInitializationComplete,
    NeedsRestore,
    StripParams,
}

impl View for HookKind {
    type V = HookKindData;

    open spec fn view(&self) -> HookKindData {
        match *self {
            HookKind::Initialize(ref h) => HookKindData::Initialize {
                solution: h.spec_solution(),
                projects: h.spec_projects(),
            },
            HookKind::DidOpen(_) => HookKindData::DidOpen,
            HookKind::DidClose(_) => HookKindData::DidClose,
            HookKind::ProjectInitializationComplete(_) =>
                HookKindData::ProjectInitializationComplete,
            HookKind::NeedsRestore(_) => HookKindData::NeedsRestore,
            HookKind::StripParams(_) => HookKindData::StripParams,
        }
    }
}

/// A registered hook: the exact method name it fires on, and its
/// behaviour.
#[derive(Debug)]
pub struct Hook {
    pub method: Vec<u8>,
    pub kind: HookKind,
}

impl Hook {
    /// A hook registered under a method name.
    pub fn new(method: Vec<u8>, kind: HookKind) -> (r: Hook)
        ensures
            r.method@ == method@,
            r.kind@ == kind@,
    {
        Hook { method, kind }
    }
}

/// The models of a hook registry.
pub open spec fn hooks_view(hs: Seq<Hook>) -> Seq<(Seq<u8>, HookKindData)>
    decreases hs,
{
    if hs.len() == 0 {
        Seq::empty()
    } else {
        seq![(hs[0].method@, hs[0].kind@)] + hooks_view(hs.subrange(1, hs.len() as int))
    }
}

/// Entry `i` of a viewed registry is the view of entry `i`.
pub proof fn lemma_hooks_view_index(hs: Seq<Hook>)
    ensures
        hooks_view(hs).len() == hs.len(),
        forall|i: int| 0 <= i < hs.len() ==> #[trigger] hooks_view(hs)[i] == (
            hs[i].method@,
            hs[i].kind@,
        ),
    decreases hs.len(),
{
    if hs.len() > 0 {
        lemma_hooks_view_index(hs.subrange(1, hs.len() as int));
    }
}


/// The model of an optional primary message.
pub open spec fn opt_msg_view(p: Option<Message>) -> Option<MessageData> {
    match p {
        Some(m) => Some(m@),
        None => None,
    }
}

/// The pipeline's running state while hooks fire: the current primary
/// message, the extras gathered so far, the tracked document, and the
/// synthetic-identifier counter.
pub struct PipeState {
    pub primary: Option<MessageData>,
    pub extras: Seq<(Direction, MessageData)>,
    pub opened: Option<Seq<u8>>,
    pub next: int,
}

/// The counter after handing one identifier out.
pub open spec fn inc_id(n: int) -> int {
    if n < i64::MAX as int {
        n + 1
    } else {
        n
    }
}

/// What one hook does to the pipeline state, given the current primary
/// `p` and, for the restore hook, the token it draws.
pub open spec fn hook_step(k: HookKindData, p: MessageData, cur: PipeState, token: Seq<u8>)
    -> PipeState {
    match k {
        HookKindData::StripParams => {
            if p is Request {
                PipeState { primary: Some(spec_strip_params(p)), ..cur }
            } else {
                cur
            }
        },
        HookKindData::DidOpen => {
            if p is Notification {
                match msg_uri(p) {
                    Some(u) => PipeState {
                        primary: Some(p),
                        extras: cur.extras + seq![
                            (Direction::ToServer, diagnostic_request(u, cur.next)),
                        ],
                        opened: Some(u),
                        next: inc_id(cur.next),
                    },
                    None => cur,
                }
            } else {
                cur
            }
        },
        HookKindData::DidClose => {
            if p is Notification {
                match msg_uri(p) {
                    Some(u) => PipeState { opened: close_transition(cur.opened, u), ..cur },
                    None => cur,
                }
            } else {
                cur
            }
        },
        HookKindData::ProjectInitializationComplete => {
            if p is Notification {
                match cur.opened {
                    Some(u) => PipeState {
                        primary: None,
                        extras: cur.extras + seq![
                            (Direction::ToServer, diagnostic_request(u, cur.next)),
                        ],
                        opened: cur.opened,
                        next: inc_id(cur.next),
                    },
                    None => cur,
                }
            } else {
                cur
            }
        },
        HookKindData::NeedsRestore => {
            if p is Notification {
                PipeState {
                    primary: None,
                    extras: cur.extras + seq![
                        (Direction::ToServer, restore_request(params_of(p), token, cur.next)),
                    ],
                    opened: cur.opened,
                    next: inc_id(cur.next),
                }
            } else {
                cur
            }
        },
        HookKindData::Initialize { solution, projects } => {
            if p is Request {
                match solution {
                    Some(s) => PipeState {
                        extras: cur.extras + seq![
                            (Direction::ToServer, open_solution_notification(encode_utf8(s))),
                        ],
                        ..cur
                    },
                    None => match projects {
                        Some(ps) => PipeState {
                            extras: cur.extras + seq![
                                (
                                    Direction::ToServer,
                                    open_projects_notification(projects_view(ps)),
                                ),
                            ],
                            ..cur
                        },
                        None => cur,
                    },
                }
            } else {
                cur
            }
        },
    }
}

/// How the pipeline relates a starting state to a finished one: hooks
/// fire in registration order from place `j` on, each one registered
/// under the dispatched method and firing only while a primary is
/// still there, the restore hook with some well-shaped token.
pub open spec fn hooks_relate(
    ks: Seq<(Seq<u8>, HookKindData)>,
    j: int,
    method: Seq<u8>,
    cur: PipeState,
    fin: PipeState,
) -> bool
    decreases ks.len() - j when 0 <= j <= ks.len()
{
    if j >= ks.len() {
        fin == cur
    } else if ks[j].0 == method && cur.primary is Some {
        exists|token: Seq<u8>|
            is_restore_token(token) && hooks_relate(
                ks,
                j + 1,
                method,
                hook_step(ks[j].1, cur.primary->0, cur, token),
                fin,
            )
    } else {
        hooks_relate(ks, j + 1, method, cur, fin)
    }
}

/// The method name a request or notification carries.
pub open spec fn method_of(m: MessageData) -> Seq<u8> {
    match m {
        MessageData::Request { id, method, params } => method,
        MessageData::Notification { method, params } => method,
        MessageData::Response { id, body } => Seq::empty(),
    }
}


/// What an interrupted dispatch guarantees: the message was a request
/// or notification whose method has an initialize hook registered with
/// no explicit solution and no explicit projects — only that hook
/// hands work out or fails — and the correlation table holds exactly
/// the incoming request, tracked as client traffic, nothing else new.
pub open spec fn discovery_interrupted(
    ks: Seq<(Seq<u8>, HookKindData)>,
    m0: MessageData,
    corr0: Seq<EntryData>,
    corr1: Seq<EntryData>,
) -> bool {
    &&& !(m0 is Response)
    &&& (exists|j: int|
        0 <= j < ks.len() && #[trigger] ks[j] == (
            method_of(m0),
            HookKindData::Initialize { solution: None, projects: None },
        ))
    &&& (forall|id: IdData|
        table_lookup(corr1, id) == (match m0 {
            MessageData::Request { id: rid, method: rmeth, params: _ } => if id == rid {
                Some((rmeth, false))
            } else {
                table_lookup(corr0, id)
            },
            _ => table_lookup(corr0, id),
        }))
}

/// What dispatch hands back.
pub enum DispatchResult {
    Done { primary: Option<Message>, extras: Vec<(Direction, Message)> },
    NeedScan { root: String },
    NoRoot,
}

/// Viewing distributes over concatenating extras vectors.
proof fn lemma_extras_view_concat(a: Seq<(Direction, Message)>, b: Seq<(Direction, Message)>)
    ensures
        extras_view(a + b) == extras_view(a) + extras_view(b),
{
    lemma_extras_view_index(a + b);
    lemma_extras_view_index(a);
    lemma_extras_view_index(b);
    assert(extras_view(a + b) =~= extras_view(a) + extras_view(b));
}

/// Runs a message through a hook registry, reading and writing the
/// session state and the counter.  The result relates to the input as
/// `hooks_relate` says, unless the initialize hook must fall back to
/// discovery: then the needed walk, or the missing root, is reported
/// instead.
fn dispatch_hooks(
    hooks: &Vec<Hook>,
    state: &mut SessionState,
    ids: &mut SyntheticIds,
    msg: Message,
) -> (r: DispatchResult)
    requires
        msg@ is Request || msg@ is Notification,
    ensures
        final(ids).next >= old(ids).next,
        (match r {
            DispatchResult::Done { primary, extras } => hooks_relate(
                hooks_view(hooks@),
                0,
                method_of(msg@),
                PipeState {
                    primary: Some(msg@),
                    extras: Seq::empty(),
                    opened: old(state).opened(),
                    next: old(ids).next as int,
                },
                PipeState {
                    primary: opt_msg_view(primary),
                    extras: extras_view(extras@),
                    opened: final(state).opened(),
                    next: final(ids).next as int,
                },
            ),
            _ => exists|j: int|
                0 <= j < hooks_view(hooks@).len() && #[trigger] hooks_view(hooks@)[j] == (
                    method_of(msg@),
                    HookKindData::Initialize { solution: None, projects: None },
                ),
        }),
{
    proof {
        lemma_hooks_view_index(hooks@);
    }
    let ghost ks = hooks_view(hooks@);
    let method: Vec<u8> = match &msg {
        Message::Request { id, method, params } => bytes_clone(method),
        Message::Notification { method, params } => bytes_clone(method),
        Message::Response { id, body } => vstd::pervasive::unreached(),
    };
    let ghost gmethod = method_of(msg@);
    let ghost init = PipeState {
        primary: Some(msg@),
        extras: Seq::empty(),
        opened: state.opened(),
        next: ids.next as int,
    };
    let mut primary: Option<Message> = Some(msg);
    let mut extras: Vec<(Direction, Message)> = Vec::new();
    proof {
        lemma_extras_view_index(extras@);
    }
    let mut j: usize = 0;
    while j < hooks.len()
        invariant
            j <= hooks@.len(),
            ks == hooks_view(hooks@),
            ks.len() == hooks@.len(),
            forall|i: int| 0 <= i < hooks@.len() ==> #[trigger] ks[i] == (
                hooks@[i].method@,
                hooks@[i].kind@,
            ),
            method@ == gmethod,
            gmethod == method_of(msg@),
            ids.next >= old(ids).next,
            forall|fin: PipeState|
                hooks_relate(
                    ks,
                    j as int,
                    gmethod,
                    (PipeState {
                        primary: opt_msg_view(primary),
                        extras: extras_view(extras@),
                        opened: state.opened(),
                        next: ids.next as int,
                    }),
                    fin,
                ) ==> #[trigger] hooks_relate(ks, 0, gmethod, init, fin),
        decreases hooks@.len() - j,
    {
        let ghost cur = PipeState {
            primary: opt_msg_view(primary),
            extras: extras_view(extras@),
            opened: state.opened(),
            next: ids.next as int,
        };
        let fires = match &primary {
            Some(_) => bytes_eq(&hooks[j].method, &method),
            None => false,
        };
        if fires {
            let p: &Message = match &primary {
                Some(m) => m,
                None => vstd::pervasive::unreached(),
            };
            let ghost pv = p@;
            let mut step_primary: Option<Message> = None;
            let mut step_extras: Vec<(Direction, Message)> = Vec::new();
            let mut applied = true;
            let ghost mut gtoken: Seq<u8> = crate::token::spec_sample_token();
            match &hooks[j].kind {
                HookKind::Initialize(h) => {
                    let is_request = match p {
                        Message::Request { .. } => true,
                        _ => false,
                    };
                    if is_request {
                        match h.on_request(p) {
                            InitializeAction::Open(o) => {
                                step_primary = o.primary;
                                step_extras = o.extras;
                            },
                            InitializeAction::NeedScan { root } => {
                                proof {
                                    assert(ks[j as int] == (
                                        hooks@[j as int].method@,
                                        hooks@[j as int].kind@,
                                    ));
                                    assert(hooks@[j as int].method@ == gmethod);
                                    assert(h.spec_solution() is None);
                                    assert(h.spec_projects() is None);
                                    assert(hooks@[j as int].kind@
                                        == HookKindData::Initialize {
                                        solution: None,
                                        projects: None,
                                    });
                                    assert(hooks_view(hooks@)[j as int] == (
                                        gmethod,
                                        HookKindData::Initialize {
                                            solution: None,
                                            projects: None,
                                        },
                                    ));
                                }
                                return DispatchResult::NeedScan { root };
                            },
                            InitializeAction::NoRoot => {
                                proof {
                                    assert(ks[j as int] == (
                                        hooks@[j as int].method@,
                                        hooks@[j as int].kind@,
                                    ));
                                    assert(hooks_view(hooks@)[j as int] == (
                                        gmethod,
                                        HookKindData::Initialize {
                                            solution: None,
                                            projects: None,
                                        },
                                    ));
                                }
                                return DispatchResult::NoRoot;
                            },
                        }
                    } else {
                        applied = false;
                    }
                },
                HookKind::DidOpen(h) => {
                    let is_notification = match p {
                        Message::Notification { .. } => true,
                        _ => false,
                    };
                    if is_notification {
                        let o = h.on_notification(p, state, ids);
                        step_primary = o.primary;
                        step_extras = o.extras;
                    } else {
                        applied = false;
                    }
                },
                HookKind::DidClose(h) => {
                    let is_notification = match p {
                        Message::Notification { .. } => true,
                        _ => false,
                    };
                    if is_notification {
                        let o = h.on_notification(p, state);
                        step_primary = o.primary;
                        step_extras = o.extras;
                    } else {
                        applied = false;
                    }
                },
                HookKind::ProjectInitializationComplete(h) => {
                    let is_notification = match p {
                        Message::Notification { .. } => true,
                        _ => false,
                    };
                    if is_notification {
                        let o = h.on_notification(p, state, ids);
                        step_primary = o.primary;
                        step_extras = o.extras;
                    } else {
                        applied = false;
                    }
                },
                HookKind::NeedsRestore(h) => {
                    let is_notification = match p {
                        Message::Notification { .. } => true,
                        _ => false,
                    };
                    if is_notification {
                        let o = h.on_notification(p, ids);
                        proof {
                            gtoken = choose|t: Seq<u8>|
                                is_restore_token(t) && extras_view(o.extras@) == seq![
                                    (
                                        Direction::ToServer,
                                        restore_request(params_of(pv), t, cur.next),
                                    ),
                                ];
                        }
                        step_primary = o.primary;
                        step_extras = o.extras;
                    } else {
                        applied = false;
                    }
                },
                HookKind::StripParams(h) => {
                    let is_request = match p {
                        Message::Request { .. } => true,
                        _ => false,
                    };
                    if is_request {
                        let o = h.on_request(p);
                        step_primary = o.primary;
                        step_extras = o.extras;
                    } else {
                        applied = false;
                    }
                },
            }
            if applied {
                let ghost stepped = hook_step(ks[j as int].1, pv, cur, gtoken);
                primary = step_primary;
                let ghost epre = extras@;
                let ghost sev = step_extras@;
                extras.append(&mut step_extras);
                proof {
                    lemma_extras_view_concat(epre, sev);
                    assert(extras@ == epre + sev);
                    assert(extras_view(extras@) =~= stepped.extras);
                    assert(PipeState {
                        primary: opt_msg_view(primary),
                        extras: extras_view(extras@),
                        opened: state.opened(),
                        next: ids.next as int,
                    } == stepped);
                    assert forall|fin: PipeState|
                        hooks_relate(ks, j + 1, gmethod, stepped, fin) implies #[trigger]
                    hooks_relate(ks, 0, gmethod, init, fin) by {
                        assert(hooks_relate(ks, j as int, gmethod, cur, fin)) by {
                            assert(is_restore_token(gtoken)) by {
                                crate::token::lemma_sample_token();
                            }
                        }
                    }
                }
            } else {
                proof {
                    assert forall|fin: PipeState|
                        hooks_relate(ks, j + 1, gmethod, cur, fin) implies #[trigger]
                    hooks_relate(ks, 0, gmethod, init, fin) by {
                        assert(hooks_relate(ks, j as int, gmethod, cur, fin)) by {
                            crate::token::lemma_sample_token();
                            assert(hook_step(ks[j as int].1, pv, cur,
                                crate::token::spec_sample_token()) == cur);
                        }
                    }
                }
            }
        } else {
            proof {
                assert forall|fin: PipeState|
                    hooks_relate(ks, j + 1, gmethod, cur, fin) implies #[trigger] hooks_relate(
                    ks,
                    0,
                    gmethod,
                    init,
                    fin,
                ) by {
                    if ks[j as int].0 == gmethod && cur.primary is Some {
                        crate::token::lemma_sample_token();
                        assert(hook_step(ks[j as int].1, cur.primary->0, cur,
                            crate::token::spec_sample_token()) == cur);
                    }
                }
            }
        }
        j += 1;
    }
    proof {
        let fincur = PipeState {
            primary: opt_msg_view(primary),
            extras: extras_view(extras@),
            opened: state.opened(),
            next: ids.next as int,
        };
        assert(hooks_relate(ks, ks.len() as int, gmethod, fincur, fincur));
    }
    DispatchResult::Done { primary, extras }
}

/// The requests among a batch of extras, each with its identifier and
/// method name, in emission order.
pub open spec fn extras_requests(es: Seq<(Direction, MessageData)>) -> Seq<(IdData, Seq<u8>)>
    decreases es.len(),
{
    if es.len() == 0 {
        Seq::empty()
    } else {
        let rest = extras_requests(es.skip(1));
        match es[0].1 {
            MessageData::Request { id, method, params } => seq![(id, method)] + rest,
            _ => rest,
        }
    }
}

/// The method the latest tracked request with this identifier carries,
/// among a batch of inserts where later ones win.
pub open spec fn sy_lookup(ins: Seq<(IdData, Seq<u8>)>, id: IdData) -> Option<Seq<u8>>
    decreases ins.len(),
{
    if ins.len() == 0 {
        None
    } else if ins.last().0 == id {
        Some(ins.last().1)
    } else {
        sy_lookup(ins.drop_last(), id)
    }
}

/// Collecting requests distributes over appending one extra.
proof fn lemma_extras_requests_push(es: Seq<(Direction, MessageData)>, x: (Direction, MessageData))
    ensures
        extras_requests(es.push(x)) == (match x.1 {
            MessageData::Request { id, method, params } => extras_requests(es).push((id, method)),
            _ => extras_requests(es),
        }),
    decreases es.len(),
{
    if es.len() == 0 {
        assert(es.push(x)[0] == x);
        assert(es.push(x).skip(1).len() == 0);
        assert(extras_requests(es.push(x).skip(1)) == Seq::<(IdData, Seq<u8>)>::empty());
        match x.1 {
            MessageData::Request { id, method, params } => {
                assert(extras_requests(es.push(x)) =~= extras_requests(es).push((id, method)));
            },
            _ => {},
        }
    } else {
        assert(es.push(x)[0] == es[0]);
        assert(es.push(x).skip(1) =~= es.skip(1).push(x));
        lemma_extras_requests_push(es.skip(1), x);
        match x.1 {
            MessageData::Request { id, method, params } => {
                assert(extras_requests(es.push(x)) =~= extras_requests(es).push((id, method)));
            },
            _ => {},
        }
    }
}

/// A later insert wins a lookup of its identifier and hides nothing
/// else.
proof fn lemma_sy_lookup_push(ins: Seq<(IdData, Seq<u8>)>, p: (IdData, Seq<u8>), id: IdData)
    ensures
        sy_lookup(ins.push(p), id) == (if p.0 == id {
            Some(p.1)
        } else {
            sy_lookup(ins, id)
        }),
{
    assert(ins.push(p).last() == p);
    assert(ins.push(p).drop_last() =~= ins);
}

/// What processing one message yields: a finished outcome, or the
/// filesystem walk initialization needs first.
#[derive(Debug, PartialEq, Eq)]
pub enum ProcessOutcome {
    Done(HookOutcome),
    NeedsWorkspaceScan { root: String },
}

/// Processes one message against a registry: a response consumes its
/// correlation entry and passes through; a request is tracked and then
/// run through the hooks, as is a notification, and every request the
/// hooks synthesize is tracked under the proxy's own mark.
fn process_core(
    hooks: &Vec<Hook>,
    correlation: &mut CorrelationTable,
    state: &mut SessionState,
    ids: &mut SyntheticIds,
    msg: Message,
) -> (r: Result<ProcessOutcome, ProxyError>)
    ensures
        (match r {
            Ok(out) => match out {
                ProcessOutcome::Done(o) => {
                    if msg@ is Response {
                        &&& o@.primary == Some(msg@)
                        &&& o@.extras.len() == 0
                        &&& final(state).opened() == old(state).opened()
                        &&& final(ids).next == old(ids).next
                        &&& table_lookup(final(correlation)@, msg@->Response_id) is None
                        &&& (forall|other: IdData|
                            other != msg@->Response_id ==> table_lookup(
                                final(correlation)@,
                                other,
                            ) == table_lookup(old(correlation)@, other))
                    } else {
                        &&& hooks_relate(
                            hooks_view(hooks@),
                            0,
                            method_of(msg@),
                            (PipeState {
                                primary: Some(msg@),
                                extras: Seq::empty(),
                                opened: old(state).opened(),
                                next: old(ids).next as int,
                            }),
                            (PipeState {
                                primary: o@.primary,
                                extras: o@.extras,
                                opened: final(state).opened(),
                                next: final(ids).next as int,
                            }),
                        )
                        &&& (forall|id: IdData|
                            table_lookup(final(correlation)@, id) == (match sy_lookup(
                                extras_requests(o@.extras),
                                id,
                            ) {
                                Some(m) => Some((m, true)),
                                None => match msg@ {
                                    MessageData::Request { id: rid, method: rmeth, params: _ } =>
                                        if id == rid {
                                            Some((rmeth, false))
                                        } else {
                                            table_lookup(old(correlation)@, id)
                                        },
                                    _ => table_lookup(old(correlation)@, id),
                                },
                            }))
                    }
                },
                ProcessOutcome::NeedsWorkspaceScan { .. } => discovery_interrupted(
                    hooks_view(hooks@),
                    msg@,
                    old(correlation)@,
                    final(correlation)@,
                ),
            },
            Err(e) => e == ProxyError::ConfigurationError && discovery_interrupted(
                hooks_view(hooks@),
                msg@,
                old(correlation)@,
                final(correlation)@,
            ),
        }),
{
    match &msg {
        Message::Response { id, body } => {
            let rid = id_clone(id);
            let _consumed = correlation.remove(&rid);
            let out = HookOutcome { primary: Some(msg), extras: Vec::new() };
            proof {
                lemma_extras_view_index(out.extras@);
            }
            return Ok(ProcessOutcome::Done(out));
        },
        Message::Request { id, method, params } => {
            let rid = id_clone(id);
            let rmethod = bytes_clone(method);
            correlation.insert(&rid, &rmethod, false);
        },
        Message::Notification { method, params } => {},
    }
    let ghost base = correlation@;
    let ghost m0 = msg@;
    let d = dispatch_hooks(hooks, state, ids, msg);
    match d {
        DispatchResult::Done { primary, extras } => {
            // track the synthesized requests
            let ghost ev = extras_view(extras@);
            proof {
                lemma_extras_view_index(extras@);
                assert(ev.take(0).len() == 0);
                assert(extras_requests(ev.take(0)).len() == 0);
            }
            let mut n: usize = 0;
            while n < extras.len()
                invariant
                    n <= extras@.len(),
                    ev == extras_view(extras@),
                    ev.len() == extras@.len(),
                    forall|k: int| 0 <= k < extras@.len() ==> #[trigger] ev[k] == (
                        extras@[k].0,
                        extras@[k].1@,
                    ),
                    forall|id: IdData|
                        table_lookup(correlation@, id) == (match sy_lookup(
                            extras_requests(ev.take(n as int)),
                            id,
                        ) {
                            Some(m) => Some((m, true)),
                            None => table_lookup(base, id),
                        }),
                decreases extras@.len() - n,
            {
                proof {
                    assert(ev.take(n + 1) =~= ev.take(n as int).push(ev[n as int]));
                    lemma_extras_requests_push(ev.take(n as int), ev[n as int]);
                }
                match &extras[n].1 {
                    Message::Request { id, method, params } => {
                        let rid = id_clone(id);
                        let rmethod = bytes_clone(method);
                        correlation.insert(&rid, &rmethod, true);
                        proof {
                            assert forall|id2: IdData|
                                table_lookup(correlation@, id2) == (match sy_lookup(
                                    extras_requests(ev.take(n + 1)),
                                    id2,
                                ) {
                                    Some(m) => Some((m, true)),
                                    None => table_lookup(base, id2),
                                }) by {
                                lemma_sy_lookup_push(
                                    extras_requests(ev.take(n as int)),
                                    (rid@, rmethod@),
                                    id2,
                                );
                            }
                        }
                    },
                    _ => {},
                }
                n += 1;
            }
            proof {
                assert(ev.take(ev.len() as int) =~= ev);
            }
            let out = HookOutcome { primary, extras };
            Ok(ProcessOutcome::Done(out))
        },
        DispatchResult::NeedScan { root } => Ok(ProcessOutcome::NeedsWorkspaceScan { root }),
        DispatchResult::NoRoot => Err(ProxyError::ConfigurationError),
    }
}

/// The proxy: the hook registries for the two directions of traffic,
/// the correlation table, the session state, and the counter for the
/// proxy's own request identifiers.
#[derive(Debug)]
pub struct LspProxy {
    request_hooks: Vec<Hook>,
    response_hooks: Vec<Hook>,
    correlation: CorrelationTable,
    state: SessionState,
    ids: SyntheticIds,
}

impl LspProxy {
    /// The model of the client-origin registry.
    pub closed spec fn req_hooks(&self) -> Seq<(Seq<u8>, HookKindData)> {
        hooks_view(self.request_hooks@)
    }

    /// The model of the server-origin registry.
    pub closed spec fn resp_hooks(&self) -> Seq<(Seq<u8>, HookKindData)> {
        hooks_view(self.response_hooks@)
    }

    /// The model of the correlation table.
    pub closed spec fn corr(&self) -> Seq<EntryData> {
        self.correlation@
    }

    /// The model of the tracked document.
    pub closed spec fn opened(&self) -> Option<Seq<u8>> {
        self.state.opened()
    }

    /// The synthetic-identifier counter.
    pub closed spec fn next_id(&self) -> int {
        self.ids.next as int
    }

    /// A fresh proxy: no hooks, nothing tracked, no document open, the
    /// counter at the base of its reserved range.
    pub fn new() -> (r: Self)
        ensures
            r.req_hooks().len() == 0,
            r.resp_hooks().len() == 0,
            r.corr().len() == 0,
            r.opened() is None,
            r.next_id() == crate::hooks::SYNTHETIC_ID_BASE as int,
    {
        let r = LspProxy {
            request_hooks: Vec::new(),
            response_hooks: Vec::new(),
            correlation: CorrelationTable::new(),
            state: SessionState::new(),
            ids: SyntheticIds::new(),
        };
        proof {
            lemma_hooks_view_index(r.request_hooks@);
            lemma_hooks_view_index(r.response_hooks@);
        }
        r
    }

    /// Registers a hook for client-origin traffic, after those already
    /// registered.
    pub fn add_request_hook(&mut self, hook: Hook)
        ensures
            final(self).req_hooks() == old(self).req_hooks().push((hook.method@, hook.kind@)),
            final(self).resp_hooks() == old(self).resp_hooks(),
            final(self).corr() == old(self).corr(),
            final(self).opened() == old(self).opened(),
            final(self).next_id() == old(self).next_id(),
    {
        let ghost pre = self.request_hooks@;
        let ghost hv = (hook.method@, hook.kind@);
        self.request_hooks.push(hook);
        proof {
            lemma_hooks_view_index(pre);
            lemma_hooks_view_index(self.request_hooks@);
            assert(hooks_view(self.request_hooks@) =~= hooks_view(pre).push(hv));
        }
    }

    /// Registers a hook for server-origin traffic, after those already
    /// registered.
    pub fn add_response_hook(&mut self, hook: Hook)
        ensures
            final(self).resp_hooks() == old(self).resp_hooks().push((hook.method@, hook.kind@)),
            final(self).req_hooks() == old(self).req_hooks(),
            final(self).corr() == old(self).corr(),
            final(self).opened() == old(self).opened(),
            final(self).next_id() == old(self).next_id(),
    {
        let ghost pre = self.response_hooks@;
        let ghost hv = (hook.method@, hook.kind@);
        self.response_hooks.push(hook);
        proof {
            lemma_hooks_view_index(pre);
            lemma_hooks_view_index(self.response_hooks@);
            assert(hooks_view(self.response_hooks@) =~= hooks_view(pre).push(hv));
        }
    }

    /// Processes one client-origin message through the client-origin
    /// registry, tracking requests and consuming response
    /// correlations.  Only an initialize hook with nothing configured
    /// can interrupt the dispatch, to hand a filesystem walk out or to
    /// fail; every other message finishes with a composed outcome.
    pub fn process_request(&mut self, msg: Message) -> (r: Result<ProcessOutcome, ProxyError>)
        ensures
            final(self).req_hooks() == old(self).req_hooks(),
            final(self).resp_hooks() == old(self).resp_hooks(),
            (match r {
                Ok(out) => match out {
                    ProcessOutcome::Done(o) => process_done_post(
                        old(self).req_hooks(),
                        msg@,
                        o@,
                        old(self).opened(),
                        final(self).opened(),
                        old(self).next_id(),
                        final(self).next_id(),
                        old(self).corr(),
                        final(self).corr(),
                    ),
                    ProcessOutcome::NeedsWorkspaceScan { .. } => discovery_interrupted(
                        old(self).req_hooks(),
                        msg@,
                        old(self).corr(),
                        final(self).corr(),
                    ),
                },
                Err(e) => e == ProxyError::ConfigurationError && discovery_interrupted(
                    old(self).req_hooks(),
                    msg@,
                    old(self).corr(),
                    final(self).corr(),
                ),
            }),
    {
        process_core(&self.request_hooks, &mut self.correlation, &mut self.state, &mut self.ids,
            msg)
    }

    /// Processes one server-origin message through the server-origin
    /// registry, tracking requests and consuming response
    /// correlations.  Only an initialize hook with nothing configured
    /// can interrupt the dispatch, to hand a filesystem walk out or to
    /// fail; every other message finishes with a composed outcome.
    pub fn process_response(&mut self, msg: Message) -> (r: Result<ProcessOutcome, ProxyError>)
        ensures
            final(self).req_hooks() == old(self).req_hooks(),
            final(self).resp_hooks() == old(self).resp_hooks(),
            (match r {
                Ok(out) => match out {
                    ProcessOutcome::Done(o) => process_done_post(
                        old(self).resp_hooks(),
                        msg@,
                        o@,
                        old(self).opened(),
                        final(self).opened(),
                        old(self).next_id(),
                        final(self).next_id(),
                        old(self).corr(),
                        final(self).corr(),
                    ),
                    ProcessOutcome::NeedsWorkspaceScan { .. } => discovery_interrupted(
                        old(self).resp_hooks(),
                        msg@,
                        old(self).corr(),
                        final(self).corr(),
                    ),
                },
                Err(e) => e == ProxyError::ConfigurationError && discovery_interrupted(
                    old(self).resp_hooks(),
                    msg@,
                    old(self).corr(),
                    final(self).corr(),
                ),
            }),
    {
        process_core(&self.response_hooks, &mut self.correlation, &mut self.state, &mut self.ids,
            msg)
    }

    /// Finishes an initialize dispatch that needed discovery, with
    /// what the walk found: the first registered initialize hook
    /// resolves it, announcing the best discovered solution, else the
    /// discovered projects, else failing; without an initialize hook
    /// the resolution fails.
    pub fn complete_initialize(
        &mut self,
        request: &Message,
        solutions: &Vec<Candidate>,
        projects: &Vec<Candidate>,
    ) -> (r: Result<HookOutcome, ProxyError>)
        requires
            request@ is Request,
        ensures
            final(self).req_hooks() == old(self).req_hooks(),
            final(self).resp_hooks() == old(self).resp_hooks(),
            final(self).corr() == old(self).corr(),
            final(self).opened() == old(self).opened(),
            final(self).next_id() == old(self).next_id(),
            (exists|j: int|
                0 <= j < old(self).req_hooks().len() && (#[trigger] old(
                    self,
                ).req_hooks()[j]).1 is Initialize) ==> (match r {
                Ok(o) => {
                    &&& o@.primary == Some(request@)
                    &&& (if discovered_uris(solutions@).len() > 0 {
                        o@.extras == seq![
                            (
                                Direction::ToServer,
                                open_solution_notification(discovered_uris(solutions@)[0]),
                            ),
                        ]
                    } else {
                        discovered_uris(projects@).len() > 0 && o@.extras == seq![
                            (
                                Direction::ToServer,
                                open_projects_notification(discovered_uris(projects@)),
                            ),
                        ]
                    })
                },
                Err(e) => e == ProxyError::ConfigurationError && discovered_uris(
                    solutions@,
                ).len() == 0 && discovered_uris(projects@).len() == 0,
            }),
            !(exists|j: int|
                0 <= j < old(self).req_hooks().len() && (#[trigger] old(
                    self,
                ).req_hooks()[j]).1 is Initialize) ==> (r matches Err(e) && e
                == ProxyError::ConfigurationError),
    {
        proof {
            lemma_hooks_view_index(self.request_hooks@);
        }
        let ghost ks = hooks_view(self.request_hooks@);
        let mut j: usize = 0;
        while j < self.request_hooks.len()
            invariant
                j <= self.request_hooks@.len(),
                request@ is Request,
                ks == hooks_view(self.request_hooks@),
                ks.len() == self.request_hooks@.len(),
                forall|i: int| 0 <= i < self.request_hooks@.len() ==> #[trigger] ks[i] == (
                    self.request_hooks@[i].method@,
                    self.request_hooks@[i].kind@,
                ),
                forall|k: int| 0 <= k < j ==> !((#[trigger] ks[k]).1 is Initialize),
            decreases self.request_hooks@.len() - j,
        {
            match &self.request_hooks[j].kind {
                HookKind::Initialize(h) => {
                    proof {
                        assert((ks[j as int]).1 is Initialize);
                    }
                    return h.complete_with_scan(request, solutions, projects);
                },
                _ => {
                    proof {
                        assert(!((ks[j as int]).1 is Initialize));
                    }
                },
            }
            j += 1;
        }
        Err(ProxyError::ConfigurationError)
    }
}

/// What a finished dispatch guarantees: the outcome relates to the
/// input as the registry's hooks say, and the correlation table tracks
/// the incoming request and every synthesized one.
pub open spec fn process_done_post(
    ks: Seq<(Seq<u8>, HookKindData)>,
    m0: MessageData,
    o: crate::hooks::HookOutcomeData,
    opened0: Option<Seq<u8>>,
    opened1: Option<Seq<u8>>,
    next0: int,
    next1: int,
    corr0: Seq<EntryData>,
    corr1: Seq<EntryData>,
) -> bool {
    if m0 is Response {
        &&& o.primary == Some(m0)
        &&& o.extras.len() == 0
        &&& opened1 == opened0
        &&& next1 == next0
        &&& table_lookup(corr1, m0->Response_id) is None
        &&& (forall|other: IdData|
            other != m0->Response_id ==> table_lookup(corr1, other) == table_lookup(
                corr0,
                other,
            ))
    } else {
        &&& hooks_relate(
            ks,
            0,
            method_of(m0),
            (PipeState {
                primary: Some(m0),
                extras: Seq::empty(),
                opened: opened0,
                next: next0,
            }),
            (PipeState { primary: o.primary, extras: o.extras, opened: opened1, next: next1 }),
        )
        &&& (forall|id: IdData|
            table_lookup(corr1, id) == (match sy_lookup(extras_requests(o.extras), id) {
                Some(m) => Some((m, true)),
                None => match m0 {
                    MessageData::Request { id: rid, method: rmeth, params: _ } => if id == rid {
                        Some((rmeth, false))
                    } else {
                        table_lookup(corr0, id)
                    },
                    _ => table_lookup(corr0, id),
                },
            }))
    }
}

impl Default for LspProxy {
    /// A fresh proxy.
    fn default() -> (r: Self) {
        LspProxy::new()
    }
}


} // verus!
