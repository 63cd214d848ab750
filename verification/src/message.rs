//! The three JSON-RPC message shapes, their mathematical model, and the
//! mapping between messages and JSON objects.
//!
//! An identifier is an integer or a string and is treated as an opaque
//! equality-comparable key.  A message carries its method name and string
//! identifier as raw UTF-8 bytes.

use vstd::prelude::*;

verus! {

use crate::json::{
    Json, JsonData, json_view, json_wf, json_clone, bytes_clone, spec_obj_get, pairs_view,
    lemma_pairs_view_index,
};

/// A request identifier: an integer or a string.
#[derive(Debug, PartialEq, Eq)]
pub enum MsgId {
    Int(i64),
    Text(Vec<u8>),
}

/// The model of an identifier.
pub enum IdData {
    Int(int),
    Text(Seq<u8>),
}

impl View for MsgId {
    type V = IdData;

    open spec fn view(&self) -> IdData {
        match *self {
            MsgId::Int(i) => IdData::Int(i as int),
            MsgId::Text(ref t) => IdData::Text(t@),
        }
    }
}

/// The payload of a response: a result on success, an error object on
/// failure.
#[derive(Debug, PartialEq, Eq)]
pub enum ResponseBody {
    Success(Json),
    Failure(Json),
}

/// The model of a response payload.
pub enum RespData {
    Success(JsonData),
    Failure(JsonData),
}

impl View for ResponseBody {
    type V = RespData;

    open spec fn view(&self) -> RespData {
        match *self {
            ResponseBody::Success(ref j) => RespData::Success(j@),
            ResponseBody::Failure(ref j) => RespData::Failure(j@),
        }
    }
}

/// One protocol message.
#[derive(Debug, PartialEq, Eq)]
pub enum Message {
    Request { id: MsgId, method: Vec<u8>, params: Option<Json> },
    Notification { method: Vec<u8>, params: Option<Json> },
    Response { id: MsgId, body: ResponseBody },
}

/// The model of a message.
pub enum MessageData {
    Request { id: IdData, method: Seq<u8>, params: Option<JsonData> },
    Notification { method: Seq<u8>, params: Option<JsonData> },
    Response { id: IdData, body: RespData },
}

/// The model of an optional params value.
pub open spec fn opt_view(p: Option<Json>) -> Option<JsonData> {
    match p {
        Some(j) => Some(json_view(j)),
        None => None,
    }
}

impl View for Message {
    type V = MessageData;

    open spec fn view(&self) -> MessageData {
        match *self {
            Message::Request { ref id, ref method, ref params } => MessageData::Request {
                id: id@,
                method: method@,
                params: opt_view(*params),
            },
            Message::Notification { ref method, ref params } => MessageData::Notification {
                method: method@,
                params: opt_view(*params),
            },
            Message::Response { ref id, ref body } => MessageData::Response {
                id: id@,
                body: body@,
            },
        }
    }
}


/// Which stream an outbound message belongs to.
#[derive(Debug, PartialEq, Eq, Clone, Copy, Structural)]
pub enum Direction {
    ToClient,
    ToServer,
}

/// The bytes of the member name `jsonrpc`.
pub open spec fn key_jsonrpc() -> Seq<u8> {
    seq![0x6au8, 0x73, 0x6f, 0x6e, 0x72, 0x70, 0x63]
}

/// The bytes of the member name `id`.
pub open spec fn key_id() -> Seq<u8> {
    seq![0x69u8, 0x64]
}

/// The bytes of the member name `method`.
pub open spec fn key_method() -> Seq<u8> {
    seq![0x6du8, 0x65, 0x74, 0x68, 0x6f, 0x64]
}

/// The bytes of the member name `params`.
pub open spec fn key_params() -> Seq<u8> {
    seq![0x70u8, 0x61, 0x72, 0x61, 0x6d, 0x73]
}

/// The bytes of the member name `result`.
pub open spec fn key_result() -> Seq<u8> {
    seq![0x72u8, 0x65, 0x73, 0x75, 0x6c, 0x74]
}

/// The bytes of the member name `error`.
pub open spec fn key_error() -> Seq<u8> {
    seq![0x65u8, 0x72, 0x72, 0x6f, 0x72]
}

/// The bytes of the protocol version string `2.0`.
pub open spec fn version_bytes() -> Seq<u8> {
    seq![0x32u8, 0x2e, 0x30]
}

/// The JSON form of an identifier.
pub open spec fn id_json(id: IdData) -> JsonData {
    match id {
        IdData::Int(i) => JsonData::Int(i),
        IdData::Text(t) => JsonData::Str(t),
    }
}

/// The identifier a JSON value stands for, if any.
pub open spec fn json_id_of(j: JsonData) -> Option<IdData> {
    match j {
        JsonData::Int(i) => Some(IdData::Int(i)),
        JsonData::Str(t) => Some(IdData::Text(t)),
        _ => None,
    }
}

/// The trailing params member, present only when the message has params.
pub open spec fn params_members(p: Option<JsonData>) -> Seq<(Seq<u8>, JsonData)> {
    match p {
        Some(v) => seq![(key_params(), v)],
        None => Seq::empty(),
    }
}

/// The canonical JSON object of a message.
pub open spec fn msg_json(m: MessageData) -> JsonData {
    match m {
        MessageData::Request { id, method, params } => JsonData::Obj(
            seq![
                (key_jsonrpc(), JsonData::Str(version_bytes())),
                (key_id(), id_json(id)),
                (key_method(), JsonData::Str(method)),
            ] + params_members(params),
        ),
        MessageData::Notification { method, params } => JsonData::Obj(
            seq![
                (key_jsonrpc(), JsonData::Str(version_bytes())),
                (key_method(), JsonData::Str(method)),
            ] + params_members(params),
        ),
        MessageData::Response { id, body } => JsonData::Obj(
            match body {
                RespData::Success(v) => seq![
                    (key_jsonrpc(), JsonData::Str(version_bytes())),
                    (key_id(), id_json(id)),
                    (key_result(), v),
                ],
                RespData::Failure(v) => seq![
                    (key_jsonrpc(), JsonData::Str(version_bytes())),
                    (key_id(), id_json(id)),
                    (key_error(), v),
                ],
            },
        ),
    }
}

/// The message a parsed JSON body stands for.  An object with a string
/// `method` member is a request when it carries an `id`, else a
/// notification; an object without `method` but with an `id` and a
/// `result` or `error` member is a response.  Anything else is not a
/// message.
pub open spec fn json_to_msg(j: JsonData) -> Option<MessageData> {
    match j {
        JsonData::Obj(ps) => {
            let mv = spec_obj_get(ps, key_method());
            let idv = spec_obj_get(ps, key_id());
            match mv {
                Some(mj) => match mj {
                    JsonData::Str(mb) => {
                        let params = spec_obj_get(ps, key_params());
                        match idv {
                            Some(idj) => match json_id_of(idj) {
                                Some(id) => Some(
                                    MessageData::Request { id, method: mb, params },
                                ),
                                None => None,
                            },
                            None => Some(MessageData::Notification { method: mb, params }),
                        }
                    },
                    _ => None,
                },
                None => match idv {
                    Some(idj) => match json_id_of(idj) {
                        Some(id) => match spec_obj_get(ps, key_result()) {
                            Some(rv) => Some(
                                MessageData::Response { id, body: RespData::Success(rv) },
                            ),
                            None => match spec_obj_get(ps, key_error()) {
                                Some(ev) => Some(
                                    MessageData::Response { id, body: RespData::Failure(ev) },
                                ),
                                None => None,
                            },
                        },
                        None => None,
                    },
                    None => None,
                },
            }
        },
        _ => None,
    }
}

/// Well-formedness of a message model: its identifier and every number
/// in its params fit the executable model.
pub open spec fn msg_wf(m: MessageData) -> bool {
    match m {
        MessageData::Request { id, method, params } => id_wf(id) && opt_wf(params),
        MessageData::Notification { method, params } => opt_wf(params),
        MessageData::Response { id, body } => id_wf(id) && match body {
            RespData::Success(v) => json_wf(v),
            RespData::Failure(v) => json_wf(v),
        },
    }
}

/// Well-formedness of an identifier model.
pub open spec fn id_wf(id: IdData) -> bool {
    match id {
        IdData::Int(i) => i64::MIN as int <= i <= i64::MAX as int,
        IdData::Text(_) => true,
    }
}

/// Well-formedness of an optional params model.
pub open spec fn opt_wf(p: Option<JsonData>) -> bool {
    match p {
        Some(v) => json_wf(v),
        None => true,
    }
}

/// The canonical JSON object of a well-formed message is well-formed.
pub proof fn lemma_msg_json_wf(m: MessageData)
    requires
        msg_wf(m),
    ensures
        json_wf(msg_json(m)),
{
    let ps = msg_json(m)->Obj_0;
    crate::json::lemma_pairs_wf_index(ps);
    assert forall|k: int| 0 <= k < ps.len() implies json_wf(#[trigger] ps[k].1) by {
        match m {
            MessageData::Request { id, method, params } => {
                match params {
                    Some(p) => {
                        assert(ps.len() == 4);
                        if k == 3 {
                            assert(ps[3].1 == p);
                        }
                    },
                    None => {
                        assert(ps.len() == 3);
                    },
                }
                if k == 1 {
                    assert(ps[1].1 == id_json(id));
                    match id {
                        IdData::Int(_) => {},
                        IdData::Text(_) => {},
                    }
                }
            },
            MessageData::Notification { method, params } => {
                match params {
                    Some(p) => {
                        assert(ps.len() == 3);
                        if k == 2 {
                            assert(ps[2].1 == p);
                        }
                    },
                    None => {
                        assert(ps.len() == 2);
                    },
                }
            },
            MessageData::Response { id, body } => {
                assert(ps.len() == 3);
                if k == 1 {
                    assert(ps[1].1 == id_json(id));
                    match id {
                        IdData::Int(_) => {},
                        IdData::Text(_) => {},
                    }
                }
                if k == 2 {
                    match body {
                        RespData::Success(v) => {
                            assert(ps[2].1 == v);
                        },
                        RespData::Failure(v) => {
                            assert(ps[2].1 == v);
                        },
                    }
                }
            },
        }
    }
}

/// Reading the canonical JSON object of a message back yields the
/// message.
pub proof fn lemma_json_msg_round(m: MessageData)
    ensures
        json_to_msg(msg_json(m)) == Some(m),
{
    reveal_with_fuel(crate::json::spec_obj_get, 6);
    match m {
        MessageData::Request { id, method, params } => {
            let ps = msg_json(m)->Obj_0;
            assert(ps[0].0 == key_jsonrpc() && ps[1].0 == key_id() && ps[2].0 == key_method());
            assert(key_jsonrpc() != key_method() && key_id() != key_method()) by {
                assert(key_jsonrpc().len() == 7 && key_method().len() == 6 && key_id().len()
                    == 2);
            }
            assert(key_jsonrpc() != key_id());
            assert(key_jsonrpc() != key_params() && key_id() != key_params() && key_method()
                != key_params()) by {
                assert(key_params()[0] == 0x70 && key_method()[0] == 0x6d);
                assert(key_jsonrpc().len() == 7 && key_params().len() == 6 && key_id().len()
                    == 2);
            }
            match params {
                Some(p) => {
                    assert(ps.len() == 4 && ps[3].0 == key_params());
                    assert(ps.skip(1)[0] == ps[1] && ps.skip(1).skip(1) =~= ps.skip(2));
                    assert(ps.skip(2)[0] == ps[2] && ps.skip(2).skip(1) =~= ps.skip(3));
                    assert(ps.skip(3)[0] == ps[3] && ps.skip(3).skip(1) =~= ps.skip(4));
                    assert(ps.skip(4).len() == 0);
                    assert(spec_obj_get(ps, key_method()) == Some(JsonData::Str(method)));
                    assert(spec_obj_get(ps, key_id()) == Some(id_json(id)));
                    assert(spec_obj_get(ps, key_params()) == Some(p));
                },
                None => {
                    assert(ps.len() == 3);
                    assert(ps.skip(1)[0] == ps[1] && ps.skip(1).skip(1) =~= ps.skip(2));
                    assert(ps.skip(2)[0] == ps[2] && ps.skip(2).skip(1) =~= ps.skip(3));
                    assert(ps.skip(3).len() == 0);
                    assert(spec_obj_get(ps, key_method()) == Some(JsonData::Str(method)));
                    assert(spec_obj_get(ps, key_id()) == Some(id_json(id)));
                    assert(spec_obj_get(ps, key_params()) is None);
                },
            }
            match id {
                IdData::Int(_) => {},
                IdData::Text(_) => {},
            }
        },
        MessageData::Notification { method, params } => {
            let ps = msg_json(m)->Obj_0;
            assert(ps[0].0 == key_jsonrpc() && ps[1].0 == key_method());
            assert(key_jsonrpc() != key_method() && key_jsonrpc() != key_id() && key_method()
                != key_id()) by {
                assert(key_jsonrpc().len() == 7 && key_method().len() == 6 && key_id().len()
                    == 2);
            }
            assert(key_jsonrpc() != key_params() && key_method() != key_params()) by {
                assert(key_params()[0] == 0x70 && key_method()[0] == 0x6d);
                assert(key_jsonrpc().len() == 7 && key_params().len() == 6);
            }
            match params {
                Some(p) => {
                    assert(ps.len() == 3 && ps[2].0 == key_params());
                    assert(ps[2].0 != key_id()) by {
                        assert(key_params().len() == 6 && key_id().len() == 2);
                    }
                    assert(ps.skip(1)[0] == ps[1] && ps.skip(1).skip(1) =~= ps.skip(2));
                    assert(ps.skip(2)[0] == ps[2] && ps.skip(2).skip(1) =~= ps.skip(3));
                    assert(ps.skip(3).len() == 0);
                    assert(spec_obj_get(ps, key_method()) == Some(JsonData::Str(method)));
                    assert(spec_obj_get(ps, key_id()) is None);
                    assert(spec_obj_get(ps, key_params()) == Some(p));
                },
                None => {
                    assert(ps.len() == 2);
                    assert(ps.skip(1)[0] == ps[1] && ps.skip(1).skip(1) =~= ps.skip(2));
                    assert(ps.skip(2).len() == 0);
                    assert(spec_obj_get(ps, key_method()) == Some(JsonData::Str(method)));
                    assert(spec_obj_get(ps, key_id()) is None);
                    assert(spec_obj_get(ps, key_params()) is None);
                },
            }
        },
        MessageData::Response { id, body } => {
            let ps = msg_json(m)->Obj_0;
            assert(ps.len() == 3);
            assert(ps[0].0 == key_jsonrpc() && ps[1].0 == key_id());
            assert(key_jsonrpc() != key_method() && key_id() != key_method()) by {
                assert(key_jsonrpc().len() == 7 && key_method().len() == 6 && key_id().len()
                    == 2);
            }
            assert(ps.skip(1)[0] == ps[1] && ps.skip(1).skip(1) =~= ps.skip(2));
            assert(ps.skip(2)[0] == ps[2] && ps.skip(2).skip(1) =~= ps.skip(3));
            assert(ps.skip(3).len() == 0);
            match body {
                RespData::Success(v) => {
                    assert(ps[2].0 == key_result());
                    assert(key_jsonrpc() != key_result() && key_id() != key_result()
                        && key_result() != key_method()) by {
                        assert(key_result()[0] == 0x72 && key_method()[0] == 0x6d);
                        assert(key_jsonrpc().len() == 7 && key_result().len() == 6
                            && key_id().len() == 2);
                    }
                    assert(spec_obj_get(ps, key_method()) is None);
                    assert(spec_obj_get(ps, key_id()) == Some(id_json(id)));
                    assert(spec_obj_get(ps, key_result()) == Some(v));
                },
                RespData::Failure(v) => {
                    assert(ps[2].0 == key_error());
                    assert(key_jsonrpc() != key_error() && key_id() != key_error() && key_error()
                        != key_method() && key_error() != key_result()) by {
                        assert(key_jsonrpc().len() == 7 && key_error().len() == 5
                            && key_method().len() == 6 && key_id().len() == 2
                            && key_result().len() == 6);
                    }
                    assert(spec_obj_get(ps, key_method()) is None);
                    assert(spec_obj_get(ps, key_id()) == Some(id_json(id)));
                    assert(spec_obj_get(ps, key_result()) is None);
                    assert(spec_obj_get(ps, key_error()) == Some(v));
                },
            }
            match id {
                IdData::Int(_) => {},
                IdData::Text(_) => {},
            }
        },
    }
}

/// The member name `jsonrpc` as a byte vector.
pub fn key_bytes_jsonrpc() -> (r: Vec<u8>)
    ensures
        r@ == key_jsonrpc(),
{
    let mut v: Vec<u8> = Vec::new();
    v.push(0x6a);
    v.push(0x73);
    v.push(0x6f);
    v.push(0x6e);
    v.push(0x72);
    v.push(0x70);
    v.push(0x63);
    assert(v@ =~= key_jsonrpc());
    v
}

/// The member name `id` as a byte vector.
pub fn key_bytes_id() -> (r: Vec<u8>)
    ensures
        r@ == key_id(),
{
    let mut v: Vec<u8> = Vec::new();
    v.push(0x69);
    v.push(0x64);
    assert(v@ =~= key_id());
    v
}

/// The member name `method` as a byte vector.
pub fn key_bytes_method() -> (r: Vec<u8>)
    ensures
        r@ == key_method(),
{
    let mut v: Vec<u8> = Vec::new();
    v.push(0x6d);
    v.push(0x65);
    v.push(0x74);
    v.push(0x68);
    v.push(0x6f);
    v.push(0x64);
    assert(v@ =~= key_method());
    v
}

/// The member name `params` as a byte vector.
pub fn key_bytes_params() -> (r: Vec<u8>)
    ensures
        r@ == key_params(),
{
    let mut v: Vec<u8> = Vec::new();
    v.push(0x70);
    v.push(0x61);
    v.push(0x72);
    v.push(0x61);
    v.push(0x6d);
    v.push(0x73);
    assert(v@ =~= key_params());
    v
}

/// The member name `result` as a byte vector.
pub fn key_bytes_result() -> (r: Vec<u8>)
    ensures
        r@ == key_result(),
{
    let mut v: Vec<u8> = Vec::new();
    v.push(0x72);
    v.push(0x65);
    v.push(0x73);
    v.push(0x75);
    v.push(0x6c);
    v.push(0x74);
    assert(v@ =~= key_result());
    v
}

/// The member name `error` as a byte vector.
pub fn key_bytes_error() -> (r: Vec<u8>)
    ensures
        r@ == key_error(),
{
    let mut v: Vec<u8> = Vec::new();
    v.push(0x65);
    v.push(0x72);
    v.push(0x72);
    v.push(0x6f);
    v.push(0x72);
    assert(v@ =~= key_error());
    v
}

/// The version string `2.0` as a JSON value.
fn version_json() -> (r: Json)
    ensures
        r@ == JsonData::Str(version_bytes()),
{
    let mut v: Vec<u8> = Vec::new();
    v.push(0x32);
    v.push(0x2e);
    v.push(0x30);
    assert(v@ =~= version_bytes());
    Json::Str(v)
}

/// A structurally equal copy of an identifier.
pub fn id_clone(id: &MsgId) -> (r: MsgId)
    ensures
        r@ == id@,
{
    match id {
        MsgId::Int(i) => MsgId::Int(*i),
        MsgId::Text(t) => MsgId::Text(bytes_clone(t)),
    }
}

/// The JSON value of an identifier.
fn id_to_json(id: &MsgId) -> (r: Json)
    ensures
        r@ == id_json(id@),
{
    match id {
        MsgId::Int(i) => Json::Int(*i),
        MsgId::Text(t) => Json::Str(bytes_clone(t)),
    }
}

/// The canonical JSON object of a message.
pub fn msg_to_json(m: &Message) -> (r: Json)
    ensures
        r@ == msg_json(m@),
{
    match m {
        Message::Request { id, method, params } => {
            let mut ps: Vec<(Vec<u8>, Json)> = Vec::new();
            ps.push((key_bytes_jsonrpc(), version_json()));
            ps.push((key_bytes_id(), id_to_json(id)));
            ps.push((key_bytes_method(), Json::Str(bytes_clone(method))));
            match params {
                Some(p) => {
                    ps.push((key_bytes_params(), json_clone(p)));
                },
                None => {},
            }
            let r = Json::Obj(ps);
            proof {
                lemma_pairs_view_index(ps@);
                assert(r@->Obj_0 =~= msg_json(m@)->Obj_0);
            }
            r
        },
        Message::Notification { method, params } => {
            let mut ps: Vec<(Vec<u8>, Json)> = Vec::new();
            ps.push((key_bytes_jsonrpc(), version_json()));
            ps.push((key_bytes_method(), Json::Str(bytes_clone(method))));
            match params {
                Some(p) => {
                    ps.push((key_bytes_params(), json_clone(p)));
                },
                None => {},
            }
            let r = Json::Obj(ps);
            proof {
                lemma_pairs_view_index(ps@);
                assert(r@->Obj_0 =~= msg_json(m@)->Obj_0);
            }
            r
        },
        Message::Response { id, body } => {
            let mut ps: Vec<(Vec<u8>, Json)> = Vec::new();
            ps.push((key_bytes_jsonrpc(), version_json()));
            ps.push((key_bytes_id(), id_to_json(id)));
            match body {
                ResponseBody::Success(v) => {
                    ps.push((key_bytes_result(), json_clone(v)));
                },
                ResponseBody::Failure(v) => {
                    ps.push((key_bytes_error(), json_clone(v)));
                },
            }
            let r = Json::Obj(ps);
            proof {
                lemma_pairs_view_index(ps@);
                assert(r@->Obj_0 =~= msg_json(m@)->Obj_0);
            }
            r
        },
    }
}

/// The message a parsed JSON body stands for, if it is one.
pub fn json_to_message(j: &Json) -> (r: Option<Message>)
    ensures
        (match r {
            Some(m) => json_to_msg(j@) == Some(m@),
            None => json_to_msg(j@) is None,
        }),
{
    match j {
        Json::Obj(_) => {},
        _ => {
            return None;
        },
    }
    let mv = j.get(&key_bytes_method());
    let idv = j.get(&key_bytes_id());
    match mv {
        Some(mj) => {
            let mb = match mj {
                Json::Str(b) => bytes_clone(b),
                _ => {
                    return None;
                },
            };
            let params = match j.get(&key_bytes_params()) {
                Some(p) => Some(json_clone(p)),
                None => None,
            };
            match idv {
                Some(idj) => match idj {
                    Json::Int(i) => Some(
                        Message::Request { id: MsgId::Int(*i), method: mb, params },
                    ),
                    Json::Str(t) => Some(
                        Message::Request { id: MsgId::Text(bytes_clone(t)), method: mb, params },
                    ),
                    _ => None,
                },
                None => Some(Message::Notification { method: mb, params }),
            }
        },
        None => {
            let id = match idv {
                Some(idj) => match idj {
                    Json::Int(i) => MsgId::Int(*i),
                    Json::Str(t) => MsgId::Text(bytes_clone(t)),
                    _ => {
                        return None;
                    },
                },
                None => {
                    return None;
                },
            };
            match j.get(&key_bytes_result()) {
                Some(rv) => Some(
                    Message::Response { id, body: ResponseBody::Success(json_clone(rv)) },
                ),
                None => match j.get(&key_bytes_error()) {
                    Some(ev) => Some(
                        Message::Response { id, body: ResponseBody::Failure(json_clone(ev)) },
                    ),
                    None => None,
                },
            }
        },
    }
}


/// A structurally equal copy of an optional params value.
pub fn opt_json_clone(p: &Option<Json>) -> (r: Option<Json>)
    ensures
        opt_view(r) == (match *p {
            Some(ref j) => Some(j@),
            None => None,
        }),
{
    match p {
        Some(j) => Some(json_clone(j)),
        None => None,
    }
}

/// A structurally equal copy of a message.
pub fn message_clone(m: &Message) -> (r: Message)
    ensures
        r@ == m@,
{
    match m {
        Message::Request { id, method, params } => Message::Request {
            id: id_clone(id),
            method: bytes_clone(method),
            params: opt_json_clone(params),
        },
        Message::Notification { method, params } => Message::Notification {
            method: bytes_clone(method),
            params: opt_json_clone(params),
        },
        Message::Response { id, body } => Message::Response {
            id: id_clone(id),
            body: match body {
                ResponseBody::Success(j) => ResponseBody::Success(json_clone(j)),
                ResponseBody::Failure(j) => ResponseBody::Failure(json_clone(j)),
            },
        },
    }
}

} // verus!
