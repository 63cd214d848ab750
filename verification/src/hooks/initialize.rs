//! The hook behind the client's initialize request: it forwards the
//! request unchanged and tells the server which workspace to open, by
//! strict priority: an explicitly configured solution, then explicitly
//! configured projects, then discovery under the request's root URI.

use vstd::prelude::*;

verus! {

use vstd::utf8::encode_utf8;
use crate::bytes_util::str_bytes;
use crate::json::{Json, JsonData, pairs_view, jsons_view, lemma_pairs_view_index,
    lemma_jsons_view_index};
use crate::message::{Message, MessageData, Direction, message_clone};
use crate::notification::{key_solution, key_projects, params_json, ParamsData,
    lemma_projects_view_index, projects_view, discovered_uris, uris_of_candidates};
use crate::workspace::Candidate;
use crate::hooks::{HookOutcome, method_solution_open, method_project_open, root_uri_of,
    message_root_uri};
use crate::outside::{string_from_utf8, file_uri_to_path, path_of};
use crate::workspace::sort_candidates;

/// The solution-open notification naming one solution URI.
pub open spec fn open_solution_notification(sb: Seq<u8>) -> MessageData {
    MessageData::Notification {
        method: method_solution_open(),
        params: Some(params_json(ParamsData::Solution(sb))),
    }
}

/// The project-open notification naming the project URIs.
pub open spec fn open_projects_notification(ps: Seq<Seq<u8>>) -> MessageData {
    MessageData::Notification {
        method: method_project_open(),
        params: Some(params_json(ParamsData::Project(ps))),
    }
}

/// What the initialize hook decides: a finished outcome, a request for
/// a filesystem walk under a root it cannot make itself, or a
/// configuration failure because no root is available.
#[derive(Debug)]
pub enum InitializeAction {
    Open(HookOutcome),
    NeedScan { root: String },
    NoRoot,
}

/// Resolves the workspace to open during initialization.
#[derive(Debug, PartialEq, Eq)]
pub struct InitializeHook {
    solution_path: Option<String>,
    projects_path: Option<Vec<String>>,
}

impl InitializeHook {
    /// The configured solution path.
    pub closed spec fn spec_solution(&self) -> Option<Seq<char>> {
        match self.solution_path {
            Some(ref s) => Some(s@),
            None => None,
        }
    }

    /// The configured project paths.
    pub closed spec fn spec_projects(&self) -> Option<Seq<String>> {
        match self.projects_path {
            Some(ref ps) => Some(ps@),
            None => None,
        }
    }

    /// A hook with the explicitly configured paths, either optional.
    pub fn new(solution_path: Option<String>, projects_path: Option<Vec<String>>) -> (r: Self)
        ensures
            r.spec_solution() == (match solution_path {
                Some(s) => Some(s@),
                None => None::<Seq<char>>,
            }),
            r.spec_projects() == (match projects_path {
                Some(ps) => Some(ps@),
                None => None::<Seq<String>>,
            }),
    {
        InitializeHook { solution_path, projects_path }
    }

    /// Decides the workspace target.  A configured solution wins and
    /// is announced with `solution/open`; otherwise configured
    /// projects are announced with `project/open`; otherwise the
    /// request's root URI, converted to a path, names the directory to
    /// walk, and without one, or when it is no file URI, resolution
    /// fails.  A finished outcome forwards the request unchanged with
    /// the announcement as its one extra toward the server.
    pub fn on_request(&self, request: &Message) -> (r: InitializeAction)
        requires
            request@ is Request,
        ensures
            (match self.spec_solution() {
                Some(s) => r matches InitializeAction::Open(o) && o@.primary == Some(request@)
                    && o@.extras == seq![
                    (Direction::ToServer, open_solution_notification(encode_utf8(s))),
                ],
                None => match self.spec_projects() {
                    Some(ps) => r matches InitializeAction::Open(o) && o@.primary == Some(
                        request@,
                    ) && o@.extras == seq![
                        (Direction::ToServer, open_projects_notification(projects_view(ps))),
                    ],
                    None => match root_uri_of(request@) {
                        Some(u) => {
                            if vstd::utf8::valid_utf8(u) {
                                match path_of(u) {
                                    Some(p) => r matches InitializeAction::NeedScan { root }
                                        && encode_utf8(root@) == p,
                                    None => r matches InitializeAction::NoRoot,
                                }
                            } else {
                                r matches InitializeAction::NoRoot
                            }
                        },
                        None => r matches InitializeAction::NoRoot,
                    },
                },
            }),
    {
        match &self.solution_path {
            Some(sln) => {
                let mut ps: Vec<(Vec<u8>, Json)> = Vec::new();
                ps.push((crate::notification::key_bytes_solution(), Json::Str(str_bytes(sln.as_str()))));
                proof {
                    lemma_pairs_view_index(ps@);
                    assert(pairs_view(ps@) =~= seq![
                        (key_solution(), JsonData::Str(encode_utf8(sln@))),
                    ]);
                }
                let notif = Message::Notification {
                    method: str_bytes("solution/open"),
                    params: Some(Json::Obj(ps)),
                };
                let mut extras: Vec<(Direction, Message)> = Vec::new();
                extras.push((Direction::ToServer, notif));
                let out = HookOutcome { primary: Some(message_clone(request)), extras };
                proof {
                    crate::hooks::lemma_extras_view_index(out.extras@);
                    assert(out@.extras =~= seq![
                        (
                            Direction::ToServer,
                            open_solution_notification(encode_utf8(self.spec_solution()->0)),
                        ),
                    ]);
                }
                InitializeAction::Open(out)
            },
            None => match &self.projects_path {
                Some(projs) => {
                    proof {
                        lemma_projects_view_index(projs@);
                    }
                    let mut items: Vec<Json> = Vec::new();
                    let mut i: usize = 0;
                    while i < projs.len()
                        invariant
                            i <= projs@.len(),
                            items@.len() == i,
                            projects_view(projs@).len() == projs@.len(),
                            forall|k: int| 0 <= k < projs@.len() ==> #[trigger] projects_view(
                                projs@,
                            )[k] == encode_utf8(projs@[k]@),
                            forall|k: int| 0 <= k < i ==> #[trigger] items@[k]@
                                == JsonData::Str(projects_view(projs@)[k]),
                        decreases projs@.len() - i,
                    {
                        items.push(Json::Str(str_bytes(projs[i].as_str())));
                        i += 1;
                    }
                    let arr = Json::Arr(items);
                    proof {
                        lemma_jsons_view_index(arr->Arr_0@);
                        let mapped = projects_view(projs@).map_values(
                            |q: Seq<u8>| JsonData::Str(q),
                        );
                        assert forall|k: int|
                            0 <= k < mapped.len() implies jsons_view(arr->Arr_0@)[k]
                            == mapped[k] by {
                            assert(jsons_view(arr->Arr_0@)[k] == arr->Arr_0@[k]@);
                            assert(mapped[k] == JsonData::Str(projects_view(projs@)[k]));
                        }
                        assert(arr@->Arr_0 =~= mapped);
                    }
                    let mut ps: Vec<(Vec<u8>, Json)> = Vec::new();
                    ps.push((crate::notification::key_bytes_projects(), arr));
                    proof {
                        lemma_pairs_view_index(ps@);
                        assert(pairs_view(ps@) =~= params_json(
                            ParamsData::Project(projects_view(projs@)),
                        )->Obj_0);
                    }
                    let notif = Message::Notification {
                        method: str_bytes("project/open"),
                        params: Some(Json::Obj(ps)),
                    };
                    let mut extras: Vec<(Direction, Message)> = Vec::new();
                    extras.push((Direction::ToServer, notif));
                    let out = HookOutcome { primary: Some(message_clone(request)), extras };
                    proof {
                        crate::hooks::lemma_extras_view_index(out.extras@);
                        assert(out@.extras =~= seq![
                            (
                                Direction::ToServer,
                                open_projects_notification(
                                    projects_view(self.spec_projects()->0),
                                ),
                            ),
                        ]);
                    }
                    InitializeAction::Open(out)
                },
                None => {
                    // discovery: the root comes from the request's root URI
                    let uri_bytes = match message_root_uri(request) {
                        Some(u) => u,
                        None => {
                            return InitializeAction::NoRoot;
                        },
                    };
                    let uri_text = match string_from_utf8(uri_bytes) {
                        Some(s) => s,
                        None => {
                            return InitializeAction::NoRoot;
                        },
                    };
                    match file_uri_to_path(uri_text.as_str()) {
                        Some(root) => InitializeAction::NeedScan { root },
                        None => InitializeAction::NoRoot,
                    }
                },
            },
        }
    }

    /// Finishes initialization with what discovery found under the
    /// root: the best solution — first in shallowest-then-by-path
    /// order among those that convert to a URI — else the project
    /// files that convert, in that order, else a configuration
    /// failure.  A finished outcome forwards the request unchanged
    /// with the announcement as its one extra toward the server.
    pub fn complete_with_scan(
        &self,
        request: &Message,
        solutions: &Vec<Candidate>,
        projects: &Vec<Candidate>,
    ) -> (r: Result<HookOutcome, crate::errors::ProxyError>)
        requires
            request@ is Request,
        ensures
            (match r {
                Ok(o) => {
                    &&& o@.primary == Some(request@)
                    &&& (if discovered_uris(solutions@).len() > 0 {
                        o@.extras == seq![
                            (
                                Direction::ToServer,
                                open_solution_notification(discovered_uris(solutions@)[0]),
                            ),
                        ]
                    } else {
                        discovered_uris(projects@).len() > 0 && o@.extras == seq![
                            (
                                Direction::ToServer,
                                open_projects_notification(discovered_uris(projects@)),
                            ),
                        ]
                    })
                },
                Err(e) => e == crate::errors::ProxyError::ConfigurationError && discovered_uris(
                    solutions@,
                ).len() == 0 && discovered_uris(projects@).len() == 0,
            }),
    {
        let solution_uris = uris_of_candidates(solutions);
        proof {
            lemma_projects_view_index(solution_uris@);
        }
        if solution_uris.len() > 0 {
            let mut sv = solution_uris;
            let first = sv.remove(0);
            let mut ps: Vec<(Vec<u8>, Json)> = Vec::new();
            let ghost firstv = first@;
            ps.push((crate::notification::key_bytes_solution(), Json::Str(str_bytes(first.as_str()))));
            proof {
                lemma_pairs_view_index(ps@);
                assert(pairs_view(ps@) =~= seq![
                    (key_solution(), JsonData::Str(encode_utf8(firstv))),
                ]);
            }
            let notif = Message::Notification {
                method: str_bytes("solution/open"),
                params: Some(Json::Obj(ps)),
            };
            let mut extras: Vec<(Direction, Message)> = Vec::new();
            extras.push((Direction::ToServer, notif));
            let out = HookOutcome { primary: Some(message_clone(request)), extras };
            proof {
                crate::hooks::lemma_extras_view_index(out.extras@);
                assert(out@.extras[0].1 == open_solution_notification(encode_utf8(firstv)));
                assert(out@.extras =~= seq![
                    (
                        Direction::ToServer,
                        open_solution_notification(discovered_uris(solutions@)[0]),
                    ),
                ]);
            }
            return Ok(out);
        }
        let project_uris = uris_of_candidates(projects);
        proof {
            lemma_projects_view_index(project_uris@);
        }
        if project_uris.len() > 0 {
            let mut items: Vec<Json> = Vec::new();
            let mut i: usize = 0;
            while i < project_uris.len()
                invariant
                    i <= project_uris@.len(),
                    items@.len() == i,
                    forall|k: int| 0 <= k < i ==> #[trigger] items@[k]@ == JsonData::Str(
                        encode_utf8(project_uris@[k]@),
                    ),
                decreases project_uris@.len() - i,
            {
                items.push(Json::Str(str_bytes(project_uris[i].as_str())));
                i += 1;
            }
            let arr = Json::Arr(items);
            proof {
                lemma_jsons_view_index(arr->Arr_0@);
                lemma_projects_view_index(project_uris@);
                let mapped = projects_view(project_uris@).map_values(
                    |q: Seq<u8>| JsonData::Str(q),
                );
                assert forall|k: int|
                    0 <= k < mapped.len() implies jsons_view(arr->Arr_0@)[k] == mapped[k] by {
                    assert(jsons_view(arr->Arr_0@)[k] == arr->Arr_0@[k]@);
                    assert(mapped[k] == JsonData::Str(projects_view(project_uris@)[k]));
                }
                assert(arr@->Arr_0 =~= mapped);
            }
            let mut ps: Vec<(Vec<u8>, Json)> = Vec::new();
            ps.push((crate::notification::key_bytes_projects(), arr));
            proof {
                lemma_pairs_view_index(ps@);
                assert(pairs_view(ps@) =~= params_json(
                    ParamsData::Project(projects_view(project_uris@)),
                )->Obj_0);
            }
            let notif = Message::Notification {
                method: str_bytes("project/open"),
                params: Some(Json::Obj(ps)),
            };
            let mut extras: Vec<(Direction, Message)> = Vec::new();
            extras.push((Direction::ToServer, notif));
            let out = HookOutcome { primary: Some(message_clone(request)), extras };
            proof {
                crate::hooks::lemma_extras_view_index(out.extras@);
                assert(out@.extras =~= seq![
                    (
                        Direction::ToServer,
                        open_projects_notification(discovered_uris(projects@)),
                    ),
                ]);
            }
            return Ok(out);
        }
        Err(crate::errors::ProxyError::ConfigurationError)
    }
}

} // verus!
