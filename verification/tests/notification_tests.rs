use roslyn_ls::notification::{Notification, NotificationError, Params};
use roslyn_ls::workspace::Candidate;

#[test]
fn notification_new_returns_error_when_no_paths_provided() {
    let sln_notification_result = Notification::from_sln_or_proj_path(None, None);
    assert!(sln_notification_result.is_err());
}

#[test]
fn notification_new_returns_sln_when_sln_path_is_some() {
    let sln_notification_result =
        Notification::from_sln_or_proj_path(Some(String::from("/path/solution.sln")), None);

    match sln_notification_result {
        Ok(Notification {
            jsonrpc: _,
            method: _,
            params: Params::Solution(solution_params),
        }) if solution_params.solution == "/path/solution.sln" => (),
        _ => panic!(""),
    }
}

#[test]
fn notification_new_returns_proj_when_proj_path_is_some() {
    let sln_notification_result = Notification::from_sln_or_proj_path(
        None,
        Some(vec![String::from("/path/project.csproj")]),
    );

    match sln_notification_result {
        Ok(Notification {
            jsonrpc: _,
            method: _,
            params: Params::Project(project_params),
        }) if project_params
            .projects
            .contains(&String::from("/path/project.csproj")) =>
        {
            ()
        }
        _ => panic!(""),
    }
}

#[test]
fn notification_new_returns_sln_when_sln_and_proj_path_is_some() {
    let sln_notification_result = Notification::from_sln_or_proj_path(
        Some(String::from("/path/solution.sln")),
        Some(vec![String::from("/path/project.csproj")]),
    );

    match sln_notification_result {
        Ok(Notification {
            jsonrpc: _,
            method: _,
            params: Params::Solution(solution_params),
        }) if solution_params.solution == "/path/solution.sln" => (),
        _ => panic!(""),
    }
}

#[test]
fn notification_serialize_returns_valid_str_when_sln_path_is_some() {
    let sln_notification_result =
        Notification::from_sln_or_proj_path(Some(String::from("/path/solution.sln")), None);

    match sln_notification_result {
        Ok(notification) => {
            let result = notification.serialize();
            let content = "{\"jsonrpc\":\"2.0\",\"method\":\"solution/open\",\"params\":{\"solution\":\"/path/solution.sln\"}}";
            match result {
                Ok(json)
                    if json.eq(&format!(
                        "Content-Length: {}\r\n\r\n{}",
                        content.len(),
                        content
                    )) =>
                {
                    ()
                }
                _ => panic!(""),
            }
        }
        _ => panic!(""),
    }
}

#[test]
fn notification_from_working_dir_requires_a_working_dir() {
    let r = Notification::from_working_dir(None, &Vec::new(), &Vec::new());
    assert_eq!(r, Err(NotificationError::NoWorkingDirectory));
}

#[test]
fn notification_from_working_dir_reports_an_empty_workspace() {
    let r = Notification::from_working_dir(Some(String::from("/wd")), &Vec::new(), &Vec::new());
    assert_eq!(r, Err(NotificationError::NothingFound));
}

#[test]
fn notification_from_working_dir_prefers_the_shallowest_solution() {
    // discovery found one solution and one project; the solution wins
    let solutions = vec![
        Candidate {
            depth: 2,
            path: String::from("/wd/deeper/Other.sln"),
        },
        Candidate {
            depth: 1,
            path: String::from("/wd/repo/Foo.sln"),
        },
    ];
    let projects = vec![Candidate {
        depth: 2,
        path: String::from("/wd/repo/src/Bar.csproj"),
    }];
    let r = Notification::from_working_dir(Some(String::from("/wd")), &solutions, &projects)
        .expect("a solution should be announced");
    assert_eq!(r.method, "solution/open");
    match r.params {
        Params::Solution(sp) => assert_eq!(sp.solution, "file:///wd/repo/Foo.sln"),
        _ => panic!("expected solution params"),
    }
}

#[test]
fn notification_from_working_dir_falls_back_to_projects() {
    let projects = vec![
        Candidate {
            depth: 2,
            path: String::from("/wd/b/B.csproj"),
        },
        Candidate {
            depth: 2,
            path: String::from("/wd/a/A.csproj"),
        },
    ];
    let r = Notification::from_working_dir(Some(String::from("/wd")), &Vec::new(), &projects)
        .expect("projects should be announced");
    assert_eq!(r.method, "project/open");
    match r.params {
        Params::Project(pp) => {
            assert_eq!(
                pp.projects,
                vec![
                    String::from("file:///wd/a/A.csproj"),
                    String::from("file:///wd/b/B.csproj"),
                ]
            );
        }
        _ => panic!("expected project params"),
    }
}

#[test]
fn generate_message_frames_a_body_by_its_byte_count() {
    let r = roslyn_ls::notification::generate_message("{\"a\":1}");
    assert_eq!(r, "Content-Length: 7\r\n\r\n{\"a\":1}");
    // the byte count, not the character count, names the length
    let two_byte = roslyn_ls::notification::generate_message("\u{00e9}");
    assert_eq!(two_byte, "Content-Length: 2\r\n\r\n\u{00e9}");
}

#[test]
fn notification_serialize_escapes_the_path() {
    let n = Notification::from_sln_or_proj_path(
        Some(String::from("C:\\repo\\\"odd\".sln")),
        None,
    )
    .expect("a solution should be announced");
    let content = "{\"jsonrpc\":\"2.0\",\"method\":\"solution/open\",\"params\":{\"solution\":\"C:\\\\repo\\\\\\\"odd\\\".sln\"}}";
    let expected = format!("Content-Length: {}\r\n\r\n{}", content.len(), content);
    assert_eq!(n.serialize(), Ok(expected));
}

#[test]
fn notification_serialize_lists_the_projects() {
    let n = Notification::from_sln_or_proj_path(
        None,
        Some(vec![String::from("/a.csproj"), String::from("/b.csproj")]),
    )
    .expect("projects should be announced");
    let content =
        "{\"jsonrpc\":\"2.0\",\"method\":\"project/open\",\"params\":{\"projects\":[\"/a.csproj\",\"/b.csproj\"]}}";
    let expected = format!("Content-Length: {}\r\n\r\n{}", content.len(), content);
    assert_eq!(n.serialize(), Ok(expected));
}
