//! The workspace-open notification sent toward the server during
//! initialization: `solution/open` naming one solution, or
//! `project/open` naming the project files.  The solution always wins:
//! explicit paths beat discovery, and a solution beats project files.

use vstd::prelude::*;

verus! {

use vstd::string::StrSliceExecFns;
use vstd::utf8::encode_utf8;
use crate::bytes_util::str_bytes;
use crate::json::{Json, JsonData, jsons_view, lemma_jsons_view_index};
use crate::json_ser::json_ser;
use crate::codec::{frame, frame_bytes};
use crate::message::{key_jsonrpc, key_method, key_params};
use crate::outside::string_from_utf8;
use crate::workspace::{
    Candidate, CandData, sort_candidates, sort_spec, cands_view, lemma_cands_view_index,
};
use crate::outside::uri_of;

/// The parameters of a workspace-open notification.
#[derive(Debug, PartialEq, Eq)]
pub enum Params {
    Solution(SolutionParams),
    Project(ProjectParams),
}

/// The parameters naming one solution file.
#[derive(Debug, PartialEq, Eq)]
pub struct SolutionParams {
    pub solution: String,
}

/// The parameters naming the project files.
#[derive(Debug, PartialEq, Eq)]
pub struct ProjectParams {
    pub projects: Vec<String>,
}

/// A workspace-open notification.
#[derive(Debug, PartialEq, Eq)]
pub struct Notification {
    pub jsonrpc: String,
    pub method: String,
    pub params: Params,
}

/// Why no notification could be made.
#[derive(Debug, PartialEq, Eq)]
pub enum NotificationError {
    /// Neither a solution path nor project paths were provided.
    NoPathsProvided,
    /// No working directory was provided for discovery.
    NoWorkingDirectory,
    /// Discovery found neither a solution nor a project file.
    NothingFound,
}

impl NotificationError {
    /// The failure in words.
    pub fn message(&self) -> (r: &'static str) {
        match self {
            NotificationError::NoPathsProvided => "None of the required paths provided",
            NotificationError::NoWorkingDirectory => "No working directory provided",
            NotificationError::NothingFound => "No solution or project found",
        }
    }
}

/// The model of the parameters, over UTF-8 bytes.
pub enum ParamsData {
    Solution(Seq<u8>),
    Project(Seq<Seq<u8>>),
}

/// The model of a projects list.
pub open spec fn projects_view(ps: Seq<String>) -> Seq<Seq<u8>>
    decreases ps,
{
    if ps.len() == 0 {
        Seq::empty()
    } else {
        seq![encode_utf8(ps[0]@)] + projects_view(ps.subrange(1, ps.len() as int))
    }
}

/// Element `i` of a viewed projects list is the bytes of entry `i`.
pub proof fn lemma_projects_view_index(ps: Seq<String>)
    ensures
        projects_view(ps).len() == ps.len(),
        forall|i: int| 0 <= i < ps.len() ==> #[trigger] projects_view(ps)[i] == encode_utf8(
            ps[i]@,
        ),
    decreases ps.len(),
{
    if ps.len() > 0 {
        lemma_projects_view_index(ps.subrange(1, ps.len() as int));
    }
}

impl View for Params {
    type V = ParamsData;

    open spec fn view(&self) -> ParamsData {
        match *self {
            Params::Solution(ref sp) => ParamsData::Solution(encode_utf8(sp.solution@)),
            Params::Project(ref pp) => ParamsData::Project(projects_view(pp.projects@)),
        }
    }
}

/// The model of a notification, over UTF-8 bytes.
pub struct NotificationData {
    pub jsonrpc: Seq<u8>,
    pub method: Seq<u8>,
    pub params: ParamsData,
}

impl View for Notification {
    type V = NotificationData;

    open spec fn view(&self) -> NotificationData {
        NotificationData {
            jsonrpc: encode_utf8(self.jsonrpc@),
            method: encode_utf8(self.method@),
            params: self.params@,
        }
    }
}

/// The bytes of the member name `solution`.
pub open spec fn key_solution() -> Seq<u8> {
    seq![0x73u8, 0x6f, 0x6c, 0x75, 0x74, 0x69, 0x6f, 0x6e]
}

/// The bytes of the member name `projects`.
pub open spec fn key_projects() -> Seq<u8> {
    seq![0x70u8, 0x72, 0x6f, 0x6a, 0x65, 0x63, 0x74, 0x73]
}

/// The JSON object of the parameters.
pub open spec fn params_json(p: ParamsData) -> JsonData {
    match p {
        ParamsData::Solution(s) => JsonData::Obj(seq![(key_solution(), JsonData::Str(s))]),
        ParamsData::Project(ps) => JsonData::Obj(
            seq![(key_projects(), JsonData::Arr(ps.map_values(|s: Seq<u8>| JsonData::Str(s))))],
        ),
    }
}

/// The JSON object of a notification.
pub open spec fn notification_json(n: NotificationData) -> JsonData {
    JsonData::Obj(
        seq![
            (key_jsonrpc(), JsonData::Str(n.jsonrpc)),
            (key_method(), JsonData::Str(n.method)),
            (key_params(), params_json(n.params)),
        ],
    )
}

/// The URIs of an ordered candidate list: each path put through
/// `uri_of`, conversion failures passed over, order kept.
pub open spec fn converted_uris(s: Seq<CandData>) -> Seq<Seq<u8>>
    decreases s.len(),
{
    if s.len() == 0 {
        Seq::empty()
    } else {
        match uri_of(s[0].path) {
            Some(u) => seq![u] + converted_uris(s.skip(1)),
            None => converted_uris(s.skip(1)),
        }
    }
}

/// Converting distributes over appending one candidate.
pub proof fn lemma_converted_uris_push(s: Seq<CandData>, x: CandData)
    ensures
        converted_uris(s.push(x)) == (match uri_of(x.path) {
            Some(u) => converted_uris(s).push(u),
            None => converted_uris(s),
        }),
    decreases s.len(),
{
    if s.len() == 0 {
        assert(s.push(x)[0] == x);
        assert(s.push(x).skip(1).len() == 0);
        assert(converted_uris(s.push(x).skip(1)) == Seq::<Seq<u8>>::empty());
        match uri_of(x.path) {
            Some(u) => {
                assert(converted_uris(s.push(x)) =~= converted_uris(s).push(u));
            },
            None => {},
        }
    } else {
        assert(s.push(x)[0] == s[0]);
        assert(s.push(x).skip(1) =~= s.skip(1).push(x));
        lemma_converted_uris_push(s.skip(1), x);
        match (uri_of(s[0].path), uri_of(x.path)) {
            (Some(h), Some(u)) => {
                assert(converted_uris(s.push(x)) =~= converted_uris(s).push(u));
            },
            _ => {},
        }
    }
}

/// The announced URIs of a discovered candidate list: ordered
/// shallowest first and then by path bytes, converted, failures passed
/// over.
pub open spec fn discovered_uris(cands: Seq<Candidate>) -> Seq<Seq<u8>> {
    converted_uris(sort_spec(cands_view(cands)))
}

/// The file URIs of the given candidates, best first: ordered
/// shallowest-then-by-path-bytes, each path converted to its file URI,
/// paths that do not convert passed over.
pub fn uris_of_candidates(cands: &Vec<Candidate>) -> (r: Vec<String>)
    ensures
        projects_view(r@) == discovered_uris(cands@),
{
    let sorted = sort_candidates(cands);
    let ghost sv = sort_spec(cands_view(cands@));
    proof {
        lemma_cands_view_index(sorted@);
        lemma_projects_view_index(Seq::<String>::empty());
        assert(converted_uris(sv.take(0)) =~= Seq::<Seq<u8>>::empty());
    }
    let mut out: Vec<String> = Vec::new();
    let mut i: usize = 0;
    while i < sorted.len()
        invariant
            i <= sorted@.len(),
            sv == cands_view(sorted@),
            sv.len() == sorted@.len(),
            forall|k: int| 0 <= k < sorted@.len() ==> #[trigger] sv[k] == sorted@[k]@,
            projects_view(out@) == converted_uris(sv.take(i as int)),
        decreases sorted@.len() - i,
    {
        proof {
            assert(sv.take(i + 1) =~= sv.take(i as int).push(sv[i as int]));
            lemma_converted_uris_push(sv.take(i as int), sv[i as int]);
        }
        match crate::outside::path_to_file_uri(sorted[i].path.as_str()) {
            Some(u) => {
                let ghost opre = out@;
                out.push(u);
                proof {
                    lemma_projects_view_index(opre);
                    lemma_projects_view_index(out@);
                    assert(projects_view(out@) =~= projects_view(opre).push(
                        encode_utf8(out@[out@.len() - 1]@),
                    ));
                }
            },
            None => {},
        }
        i += 1;
    }
    proof {
        assert(sv.take(sv.len() as int) =~= sv);
    }
    out
}

impl Notification {
    /// The notification the explicitly configured paths call for: the
    /// solution when one is given, the projects when only they are,
    /// and an error when neither is.
    pub fn from_sln_or_proj_path(
        solution_path: Option<String>,
        project_paths: Option<Vec<String>>,
    ) -> (r: Result<Notification, NotificationError>)
        ensures
            (match r {
                Ok(n) => {
                    &&& n.jsonrpc@ == "2.0"@
                    &&& (match solution_path {
                        Some(s) => n.method@ == "solution/open"@ && (n.params matches
                        Params::Solution(sp) && sp.solution == s),
                        None => project_paths matches Some(ps) && n.method@ == "project/open"@
                            && (n.params matches Params::Project(pp) && pp.projects == ps),
                    })
                },
                Err(e) => e == NotificationError::NoPathsProvided && solution_path is None
                    && project_paths is None,
            }),
    {
        match solution_path {
            Some(solution) => Ok(
                Notification {
                    jsonrpc: "2.0".to_owned(),
                    method: "solution/open".to_owned(),
                    params: Params::Solution(SolutionParams { solution }),
                },
            ),
            None => match project_paths {
                Some(projects) => Ok(
                    Notification {
                        jsonrpc: "2.0".to_owned(),
                        method: "project/open".to_owned(),
                        params: Params::Project(ProjectParams { projects }),
                    },
                ),
                None => Err(NotificationError::NoPathsProvided),
            },
        }
    }

    /// The notification the discovered workspace files call for: the
    /// best solution when one was found, else all project files, else
    /// an error; with no working directory, discovery never ran and
    /// that is the error.  The file lists arrive as discovery found
    /// them and are ordered here; a path that does not convert to a
    /// file URI is passed over.
    pub fn from_working_dir(
        working_dir: Option<String>,
        solutions: &Vec<Candidate>,
        projects: &Vec<Candidate>,
    ) -> (r: Result<Notification, NotificationError>)
        ensures
            working_dir is None <==> (r matches Err(e) && e
                == NotificationError::NoWorkingDirectory),
            working_dir is Some ==> (match r {
                Ok(n) => {
                    &&& n.jsonrpc@ == "2.0"@
                    &&& (if discovered_uris(solutions@).len() > 0 {
                        n.method@ == "solution/open"@ && (n.params matches Params::Solution(sp)
                            && encode_utf8(sp.solution@) == discovered_uris(solutions@)[0])
                    } else {
                        discovered_uris(projects@).len() > 0 && n.method@ == "project/open"@ && (
                        n.params matches Params::Project(pp) && projects_view(pp.projects@)
                            == discovered_uris(projects@))
                    })
                },
                Err(e) => e == NotificationError::NothingFound && discovered_uris(
                    solutions@,
                ).len() == 0 && discovered_uris(projects@).len() == 0,
            }),
    {
        if working_dir.is_none() {
            return Err(NotificationError::NoWorkingDirectory);
        }
        let solution_uris = uris_of_candidates(solutions);
        if solution_uris.len() > 0 {
            let mut it = solution_uris;
            proof {
                lemma_projects_view_index(it@);
            }
            let first = it.remove(0);
            return Ok(
                Notification {
                    jsonrpc: "2.0".to_owned(),
                    method: "solution/open".to_owned(),
                    params: Params::Solution(SolutionParams { solution: first }),
                },
            );
        }
        let project_uris = uris_of_candidates(projects);
        if project_uris.len() > 0 {
            return Ok(
                Notification {
                    jsonrpc: "2.0".to_owned(),
                    method: "project/open".to_owned(),
                    params: Params::Project(ProjectParams { projects: project_uris }),
                },
            );
        }
        proof {
            lemma_projects_view_index(solution_uris@);
        }
        Err(NotificationError::NothingFound)
    }

    /// The JSON value of this notification.
    pub fn to_json(&self) -> (r: Json)
        ensures
            r@ == notification_json(self@),
    {
        let mut key_s: Vec<u8> = Vec::new();
        let params = match &self.params {
            Params::Solution(sp) => {
                key_s.push(0x73);
                key_s.push(0x6f);
                key_s.push(0x6c);
                key_s.push(0x75);
                key_s.push(0x74);
                key_s.push(0x69);
                key_s.push(0x6f);
                key_s.push(0x6e);
                assert(key_s@ =~= key_solution());
                let mut ps: Vec<(Vec<u8>, Json)> = Vec::new();
                ps.push((key_s, Json::Str(str_bytes(sp.solution.as_str()))));
                let p = Json::Obj(ps);
                proof {
                    crate::json::lemma_pairs_view_index(ps@);
                    assert(p@->Obj_0 =~= params_json(self.params@)->Obj_0);
                }
                p
            },
            Params::Project(pp) => {
                key_s.push(0x70);
                key_s.push(0x72);
                key_s.push(0x6f);
                key_s.push(0x6a);
                key_s.push(0x65);
                key_s.push(0x63);
                key_s.push(0x74);
                key_s.push(0x73);
                assert(key_s@ =~= key_projects());
                proof {
                    lemma_projects_view_index(pp.projects@);
                }
                let mut items: Vec<Json> = Vec::new();
                let mut i: usize = 0;
                while i < pp.projects.len()
                    invariant
                        i <= pp.projects@.len(),
                        items@.len() == i,
                        projects_view(pp.projects@).len() == pp.projects@.len(),
                        forall|k: int| 0 <= k < pp.projects@.len() ==> #[trigger] projects_view(
                            pp.projects@,
                        )[k] == encode_utf8(pp.projects@[k]@),
                        forall|k: int| 0 <= k < i ==> #[trigger] items@[k]@ == JsonData::Str(
                            projects_view(pp.projects@)[k],
                        ),
                    decreases pp.projects@.len() - i,
                {
                    items.push(Json::Str(str_bytes(pp.projects[i].as_str())));
                    i += 1;
                }
                let arr = Json::Arr(items);
                proof {
                    lemma_jsons_view_index(items@);
                    let mapped = projects_view(pp.projects@).map_values(
                        |q: Seq<u8>| JsonData::Str(q),
                    );
                    assert forall|k: int| 0 <= k < mapped.len() implies jsons_view(items@)[k]
                        == mapped[k] by {
                        assert(jsons_view(items@)[k] == items@[k]@);
                        assert(mapped[k] == JsonData::Str(projects_view(pp.projects@)[k]));
                    }
                    assert(arr@->Arr_0 =~= mapped);
                }
                let mut ps: Vec<(Vec<u8>, Json)> = Vec::new();
                ps.push((key_s, arr));
                let p = Json::Obj(ps);
                proof {
                    crate::json::lemma_pairs_view_index(ps@);
                    assert(p@->Obj_0 =~= params_json(self.params@)->Obj_0);
                }
                p
            },
        };
        let mut ps: Vec<(Vec<u8>, Json)> = Vec::new();
        ps.push((crate::message::key_bytes_jsonrpc(), Json::Str(str_bytes(self.jsonrpc.as_str()))));
        ps.push((crate::message::key_bytes_method(), Json::Str(str_bytes(self.method.as_str()))));
        ps.push((crate::message::key_bytes_params(), params));
        let r = Json::Obj(ps);
        proof {
            crate::json::lemma_pairs_view_index(ps@);
            assert(r@->Obj_0 =~= notification_json(self@)->Obj_0);
        }
        r
    }

    /// The framed wire form of this notification, as a string: the
    /// `Content-Length` header naming the body's byte count, the blank
    /// line, and the JSON body.  It always succeeds: the body is valid
    /// UTF-8 because every string in it came from a string value.
    pub fn serialize(self) -> (r: Result<String, NotificationError>)
        ensures
            r matches Ok(s) && encode_utf8(s@) == frame_bytes(
                json_ser(notification_json(self@)),
            ),
    {
        let j = self.to_json();
        let mut body: Vec<u8> = Vec::new();
        crate::json_ser::write_json(&j, &mut body);
        let framed = frame(&body);
        proof {
            vstd::utf8::encode_utf8_valid_utf8(self.jsonrpc@);
            vstd::utf8::encode_utf8_valid_utf8(self.method@);
            match &self.params {
                Params::Solution(sp) => {
                    vstd::utf8::encode_utf8_valid_utf8(sp.solution@);
                },
                Params::Project(pp) => {
                    lemma_projects_view_index(pp.projects@);
                    assert forall|k: int|
                        0 <= k < projects_view(pp.projects@).len() implies vstd::utf8::valid_utf8(
                        #[trigger] projects_view(pp.projects@)[k],
                    ) by {
                        vstd::utf8::encode_utf8_valid_utf8(pp.projects@[k]@);
                    }
                },
            }
            lemma_notification_json_text_wf(self@);
            crate::json_ser::lemma_json_ser_valid(notification_json(self@));
            crate::codec::lemma_frame_valid_utf8(json_ser(notification_json(self@)));
        }
        match string_from_utf8(framed) {
            Some(s) => Ok(s),
            None => vstd::pervasive::unreached(),
        }
    }
}

/// The framed wire form of a body string: the `Content-Length` header
/// naming the body's byte count, the blank line, and the body.
pub fn generate_message(body: &str) -> (r: String)
    ensures
        encode_utf8(r@) == frame_bytes(encode_utf8(body@)),
{
    let bytes = str_bytes(body);
    let framed = frame(&bytes);
    proof {
        broadcast use vstd::utf8::encode_utf8_valid_utf8;

        crate::codec::lemma_frame_valid_utf8(bytes@);
    }
    match string_from_utf8(framed) {
        Some(s) => s,
        None => vstd::pervasive::unreached(),
    }
}

/// The member name `solution` as a byte vector.
pub fn key_bytes_solution() -> (r: Vec<u8>)
    ensures
        r@ == key_solution(),
{
    let mut v: Vec<u8> = Vec::new();
    v.push(0x73);
    v.push(0x6f);
    v.push(0x6c);
    v.push(0x75);
    v.push(0x74);
    v.push(0x69);
    v.push(0x6f);
    v.push(0x6e);
    assert(v@ =~= key_solution());
    v
}

/// The member name `projects` as a byte vector.
pub fn key_bytes_projects() -> (r: Vec<u8>)
    ensures
        r@ == key_projects(),
{
    let mut v: Vec<u8> = Vec::new();
    v.push(0x70);
    v.push(0x72);
    v.push(0x6f);
    v.push(0x6a);
    v.push(0x65);
    v.push(0x63);
    v.push(0x74);
    v.push(0x73);
    assert(v@ =~= key_projects());
    v
}

/// Every byte of the notification's member names is ASCII.
proof fn lemma_notification_keys_ascii()
    ensures
        vstd::utf8::valid_utf8(key_jsonrpc()),
        vstd::utf8::valid_utf8(key_method()),
        vstd::utf8::valid_utf8(key_params()),
        vstd::utf8::valid_utf8(key_solution()),
        vstd::utf8::valid_utf8(key_projects()),
{
    assert forall|i: int| 0 <= i < key_jsonrpc().len() implies #[trigger] key_jsonrpc()[i]
        < 0x80 by {
        if i == 0 {
            assert(key_jsonrpc()[0] == 0x6a);
        } else if i == 1 {
            assert(key_jsonrpc()[1] == 0x73);
        } else if i == 2 {
            assert(key_jsonrpc()[2] == 0x6f);
        } else if i == 3 {
            assert(key_jsonrpc()[3] == 0x6e);
        } else if i == 4 {
            assert(key_jsonrpc()[4] == 0x72);
        } else if i == 5 {
            assert(key_jsonrpc()[5] == 0x70);
        } else {
            assert(key_jsonrpc()[6] == 0x63);
        }
    }
    crate::bytes_util::lemma_ascii_valid_utf8(key_jsonrpc());
    assert forall|i: int| 0 <= i < key_method().len() implies #[trigger] key_method()[i]
        < 0x80 by {
        if i == 0 {
            assert(key_method()[0] == 0x6d);
        } else if i == 1 {
            assert(key_method()[1] == 0x65);
        } else if i == 2 {
            assert(key_method()[2] == 0x74);
        } else if i == 3 {
            assert(key_method()[3] == 0x68);
        } else if i == 4 {
            assert(key_method()[4] == 0x6f);
        } else {
            assert(key_method()[5] == 0x64);
        }
    }
    crate::bytes_util::lemma_ascii_valid_utf8(key_method());
    assert forall|i: int| 0 <= i < key_params().len() implies #[trigger] key_params()[i]
        < 0x80 by {
        if i == 0 {
            assert(key_params()[0] == 0x70);
        } else if i == 1 {
            assert(key_params()[1] == 0x61);
        } else if i == 2 {
            assert(key_params()[2] == 0x72);
        } else if i == 3 {
            assert(key_params()[3] == 0x61);
        } else if i == 4 {
            assert(key_params()[4] == 0x6d);
        } else {
            assert(key_params()[5] == 0x73);
        }
    }
    crate::bytes_util::lemma_ascii_valid_utf8(key_params());
    assert forall|i: int| 0 <= i < key_solution().len() implies #[trigger] key_solution()[i]
        < 0x80 by {
        if i == 0 {
            assert(key_solution()[0] == 0x73);
        } else if i == 1 {
            assert(key_solution()[1] == 0x6f);
        } else if i == 2 {
            assert(key_solution()[2] == 0x6c);
        } else if i == 3 {
            assert(key_solution()[3] == 0x75);
        } else if i == 4 {
            assert(key_solution()[4] == 0x74);
        } else if i == 5 {
            assert(key_solution()[5] == 0x69);
        } else if i == 6 {
            assert(key_solution()[6] == 0x6f);
        } else {
            assert(key_solution()[7] == 0x6e);
        }
    }
    crate::bytes_util::lemma_ascii_valid_utf8(key_solution());
    assert forall|i: int| 0 <= i < key_projects().len() implies #[trigger] key_projects()[i]
        < 0x80 by {
        if i == 0 {
            assert(key_projects()[0] == 0x70);
        } else if i == 1 {
            assert(key_projects()[1] == 0x72);
        } else if i == 2 {
            assert(key_projects()[2] == 0x6f);
        } else if i == 3 {
            assert(key_projects()[3] == 0x6a);
        } else if i == 4 {
            assert(key_projects()[4] == 0x65);
        } else if i == 5 {
            assert(key_projects()[5] == 0x63);
        } else if i == 6 {
            assert(key_projects()[6] == 0x74);
        } else {
            assert(key_projects()[7] == 0x73);
        }
    }
    crate::bytes_util::lemma_ascii_valid_utf8(key_projects());
}

/// The JSON object of a notification holds only valid UTF-8 text:
/// every string in it encodes a string value, and every member name is
/// ASCII.
proof fn lemma_notification_json_text_wf(n: NotificationData)
    requires
        vstd::utf8::valid_utf8(n.jsonrpc),
        vstd::utf8::valid_utf8(n.method),
        (match n.params {
            ParamsData::Solution(s) => vstd::utf8::valid_utf8(s),
            ParamsData::Project(ps) => forall|k: int|
                0 <= k < ps.len() ==> vstd::utf8::valid_utf8(#[trigger] ps[k]),
        }),
    ensures
        crate::json::json_text_wf(notification_json(n)),
{
    lemma_notification_keys_ascii();
    let pj = params_json(n.params);
    assert(crate::json::json_text_wf(pj)) by {
        match n.params {
            ParamsData::Solution(s) => {
                let ps = pj->Obj_0;
                crate::json::lemma_pairs_text_wf_index(ps);
                assert(ps[0] == (key_solution(), JsonData::Str(s)));
            },
            ParamsData::Project(items) => {
                let ps = pj->Obj_0;
                crate::json::lemma_pairs_text_wf_index(ps);
                let arr = ps[0].1;
                let mapped = items.map_values(|q: Seq<u8>| JsonData::Str(q));
                crate::json::lemma_jsons_text_wf_index(mapped);
                assert forall|k: int| 0 <= k < mapped.len() implies crate::json::json_text_wf(
                    #[trigger] mapped[k],
                ) by {
                    assert(mapped[k] == JsonData::Str(items[k]));
                }
                assert(ps[0] == (key_projects(), JsonData::Arr(mapped)));
            },
        }
    }
    let whole = notification_json(n)->Obj_0;
    crate::json::lemma_pairs_text_wf_index(whole);
    assert(whole[0] == (key_jsonrpc(), JsonData::Str(n.jsonrpc)));
    assert(whole[1] == (key_method(), JsonData::Str(n.method)));
    assert(whole[2] == (key_params(), pj));
}

} // verus!
