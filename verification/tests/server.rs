use script_server::server::{Action, Event, Phase, ScriptServer};
use script_server::utils::{command_result, executable, has_header};
use script_server::webserver::protocol::http::{error_body, parse_function_name, response_text};
use script_server::webserver::protocol::response::StatusCode;
use script_server::webserver::App;

fn headers(v: &[(&str, &str)]) -> Vec<(String, String)> {
    v.iter().map(|(k, v)| (k.to_string(), v.to_string())).collect()
}

#[test]
fn header_and_mode_checks() {
    let h = headers(&[("Host", "localhost"), ("X-ACCESS-TOKEN", "123")]);
    assert!(has_header(&h, "X-ACCESS-TOKEN", "123"));
    assert!(!has_header(&h, "x-access-token", "123"));
    assert!(!has_header(&h, "X-ACCESS-TOKEN", "12"));
    assert!(executable(true, 0o100));
    assert!(executable(true, 0o755));
    assert!(!executable(true, 0o644));
    assert!(!executable(false, 0o755));
}

#[test]
fn command_outcomes() {
    assert_eq!(command_result(b"out".to_vec(), vec![]).unwrap(), "out");
    assert_eq!(command_result(vec![], vec![]).unwrap(), "");
    assert_eq!(command_result(b"out".to_vec(), b"err".to_vec()).err().unwrap().message, "err");
    assert_eq!(
        command_result(vec![0xff, 0xfe], vec![]).err().unwrap().message,
        "transform char to utf8 error"
    );
    assert_eq!(
        command_result(vec![0xff], b"err".to_vec()).err().unwrap().message,
        "err"
    );
    assert_eq!(
        command_result(vec![], vec![0xc3]).err().unwrap().message,
        "transform char to utf8 error"
    );
}

fn reply_of(action: Action) -> (i32, String) {
    match action {
        Action::Respond(r) => (r.status, r.body),
        _ => panic!("expected a reply"),
    }
}

#[test]
fn steps() {
    let server = ScriptServer { token: None };
    let (p, a) = server.step(Phase::Idle, Event::Request {
        method: "POST".to_string(),
        url: "/a/b".to_string(),
        headers: vec![],
    });
    assert!(p == Phase::Inspecting);
    assert!(matches!(a, Action::Inspect(ref s) if s == "a/b"));
    let (p, a) = server.step(Phase::Inspecting, Event::Inspected { is_file: true, mode: 0o700 });
    assert!(p == Phase::Reading);
    assert!(matches!(a, Action::ReadBody));
    let (p, a) = server.step(Phase::Reading, Event::BodyRead("x\n\ny\n".to_string()));
    assert!(p == Phase::Running);
    match a {
        Action::Run(params) => assert_eq!(params, vec!["x", "", "y", ""]),
        _ => panic!("expected a run"),
    }
    let (_, a) = server.step(Phase::Reading, Event::BodyRead(String::new()));
    assert!(matches!(a, Action::Run(ref v) if v.is_empty()));
    let (p, a) = server.step(Phase::Reading, Event::BodyFailed("stream did not contain valid UTF-8".to_string()));
    assert!(p == Phase::Idle);
    assert_eq!(reply_of(a), (500, "stream did not contain valid UTF-8".to_string()));
    let (_, a) = server.step(Phase::Running, Event::SpawnFailed("Permission denied (os error 13)".to_string()));
    assert_eq!(reply_of(a), (500, "Permission denied (os error 13)".to_string()));
    let (_, a) = server.step(Phase::Running, Event::Exited { stdout: b"done\n".to_vec(), stderr: b"warning\n".to_vec() });
    assert_eq!(reply_of(a), (500, "warning\n".to_string()));
    let (_, a) = server.step(Phase::Running, Event::Exited { stdout: b"done\n".to_vec(), stderr: vec![] });
    assert_eq!(reply_of(a), (200, "done\n".to_string()));
    let (_, a) = server.step(Phase::Inspecting, Event::InspectFailed);
    assert_eq!(reply_of(a), (403, "forbidden".to_string()));
    assert_eq!(
        server.check_request("POST", "/x/../y", &vec![]).map(|r| r.status),
        Some(403)
    );
    assert!(server.check_request("POST", "/x/..y", &vec![]).is_none());
}

#[test]
fn request_lines() {
    assert_eq!(parse_function_name("POST /save HTTP/1.1\r\n").unwrap(), "save");
    assert_eq!(parse_function_name("POST / HTTP/1.1\r\n").unwrap(), "");
    assert_eq!(parse_function_name("GET /save HTTP/1.1\r\n").err().unwrap().message, "only allow use POST method");
    assert_eq!(parse_function_name("POST").err().unwrap().message, "http path should start with /");
    assert_eq!(parse_function_name("POST save HTTP/1.1\r\n").err().unwrap().message, "http path should start with /");
    assert_eq!(parse_function_name("POST /save HTTP/1.0\r\n").err().unwrap().message, "only support http 1.1");
    assert_eq!(parse_function_name("POST /save HTTP/1.1").err().unwrap().message, "only support http 1.1");
    assert_eq!(parse_function_name("POST /a b HTTP/1.1\r\n").err().unwrap().message, "only support http 1.1");
    assert_eq!(parse_function_name("POST /a HTTP/1.1\r\n x").err().unwrap().message, "http format error");
}

#[test]
fn replies() {
    assert_eq!(
        response_text(StatusCode::OK, "{}"),
        "HTTP/1.1 200 OK\nContent-Type: application/json\nContent-Length: 2\n\n{}"
    );
    assert_eq!(
        response_text(StatusCode::Error, "é"),
        "HTTP/1.1 500 Internal Server Error\nContent-Type: application/json\nContent-Length: 2\n\né"
    );
    let err = script_server::utils::error::Error::new("a \"q\"\n\u{1}".to_string());
    assert_eq!(error_body(&err), "{\"message\":\"a \\\"q\\\"\\n\\u0001\"}");
    let app = App::new();
    assert_eq!(
        app.respond(Ok("POST /f HTTP/1.1\r\n".to_string())),
        "HTTP/1.1 200 OK\nContent-Type: application/json\nContent-Length: 2\n\n{}"
    );
    assert_eq!(
        app.respond(Ok("GET /f HTTP/1.1\r\n".to_string())),
        "HTTP/1.1 500 Internal Server Error\nContent-Type: application/json\nContent-Length: 40\n\n{\"message\":\"only allow use POST method\"}"
    );
}

#[test]
fn body_lines_join_back() {
    let server = ScriptServer { token: None };
    for body in ["a", "a\nb", "\n", "x\n\ny\n"] {
        let (_, a) = server.step(Phase::Reading, Event::BodyRead(body.to_string()));
        match a {
            Action::Run(params) => assert_eq!(params.join("\n"), body),
            _ => panic!("expected a run"),
        }
    }
}

#[test]
fn request_line_roundtrip() {
    for f in ["", "save", "a/b", "é"] {
        let line = format!("POST /{} HTTP/1.1\r\n", f);
        assert_eq!(parse_function_name(&line).unwrap(), f);
    }
}
