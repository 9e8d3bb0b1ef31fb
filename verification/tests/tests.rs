use script_server::server::{Action, Event, Phase, ScriptServer};

/// The scripts directory the requests are served from: for each path, the
/// file's kind and permission bits, and what running it gives.
fn inspect(script: &str) -> Event {
    match script {
        "" | "sub" => Event::Inspected { is_file: false, mode: 0o755 },
        "no_perm" => Event::Inspected { is_file: true, mode: 0o644 },
        "print_str" | "print_args" | "throw_error" | "sub/print_info" => {
            Event::Inspected { is_file: true, mode: 0o755 }
        }
        _ => Event::InspectFailed,
    }
}

fn run(script: &str, params: &[String]) -> Event {
    match script {
        "print_str" => Event::Exited {
            stdout: b"print test string\n".to_vec(),
            stderr: vec![],
        },
        "print_args" => Event::Exited {
            stdout: format!("{}\n", params.join(",")).into_bytes(),
            stderr: vec![],
        },
        "throw_error" => Event::Exited {
            stdout: vec![],
            stderr: b"cat: ./a: No such file or directory\n".to_vec(),
        },
        "sub/print_info" => Event::Exited {
            stdout: b"sub/print_info\n".to_vec(),
            stderr: vec![],
        },
        _ => Event::SpawnFailed("No such file or directory (os error 2)".to_string()),
    }
}

/// Reads a raw HTTP request as the HTTP server does: method and path from
/// the request line, trimmed header fields and values, the body as long as
/// Content-Length says.
fn parse_raw(raw: &str) -> (String, String, Vec<(String, String)>, String) {
    let (head, rest) = raw.split_once("\r\n\r\n").unwrap();
    let mut lines = head.split("\r\n");
    let mut first = lines.next().unwrap().split(' ');
    let method = first.next().unwrap().to_string();
    let url = first.next().unwrap().to_string();
    let mut headers = vec![];
    let mut len = 0;
    for line in lines {
        let (k, v) = line.split_once(':').unwrap();
        if k == "Content-Length" {
            len = v.trim().parse().unwrap();
        }
        headers.push((k.to_string(), v.trim().to_string()));
    }
    (method, url, headers, rest[..len].to_string())
}

/// Serves one raw request and renders the reply as it goes on the wire.
fn send_tcp(server: &ScriptServer, raw: &str) -> String {
    let (method, url, headers, body) = parse_raw(raw);
    let mut phase = Phase::Idle;
    let mut event = Event::Request { method, url, headers };
    let mut script = String::new();
    loop {
        let (next, action) = server.step(phase, event);
        phase = next;
        event = match action {
            Action::Respond(reply) => {
                let reason = tiny_http::StatusCode(reply.status as u16).default_reason_phrase();
                return format!("HTTP/1.1 {} {}\r\n\r\n{}", reply.status, reason, reply.body);
            }
            Action::Inspect(path) => {
                script = path;
                inspect(&script)
            }
            Action::ReadBody => Event::BodyRead(body.clone()),
            Action::Run(params) => run(&script, &params),
        };
    }
}

#[test]
fn feature_test() {
    let server = ScriptServer { token: None };
    let data = send_tcp(&server, "GET / HTTP/1.1\r\nHost: localhost\r\nConnection: close\r\n\r\n");
    assert!(data.starts_with("HTTP/1.1 404 Not Found"));

    let data = send_tcp(&server, "POST / HTTP/1.1\r\nHost: localhost\r\nConnection: close\r\n\r\n");
    assert!(data.starts_with("HTTP/1.1 403 Forbidden"));

    let data = send_tcp(&server, "POST /no_perm HTTP/1.1\r\nHost: localhost\r\nConnection: close\r\n\r\n");
    assert!(data.starts_with("HTTP/1.1 403 Forbidden"));

    let data = send_tcp(&server, "GET /print_str HTTP/1.1\r\nHost: localhost\r\nConnection: close\r\n\r\n");
    assert!(data.starts_with("HTTP/1.1 404 Not Found"));

    let data = send_tcp(&server, "POST /print_str HTTP/1.1\r\nHost: localhost\r\nConnection: close\r\n\r\n");
    assert!(data.contains("print test string"));

    let data = send_tcp(&server, "POST /print_args HTTP/1.1\r\nHost: localhost\r\nConnection: close\r\nContent-Type: plain/text\r\nContent-Length: 14\r\n\r\narg1\narg2\narg3");
    assert!(data.contains("arg1,arg2,arg3"));

    let data = send_tcp(&server, "POST /throw_error HTTP/1.1\r\nHost: localhost\r\nConnection: close\r\n\r\n");
    assert!(data.contains("cat: ./a: No such file or directory"));

    let data = send_tcp(&server, "POST /sub/print_info HTTP/1.1\r\nHost: localhost\r\nConnection: close\r\n\r\n");
    assert!(data.contains("sub/print_info"));

    let data = send_tcp(&server, "POST /../a HTTP/1.1\r\nHost: localhost\r\nConnection: close\r\n\r\n");
    assert!(data.starts_with("HTTP/1.1 403 Forbidden"));
}

#[test]
fn token_test() {
    let server = ScriptServer { token: Some("123".to_string()) };
    let data = send_tcp(&server, "GET /print_str HTTP/1.1\r\nHost: localhost\r\nConnection: close\r\n\r\n");
    assert!(data.starts_with("HTTP/1.1 401 Unauthorized"));

    let data = send_tcp(&server, "POST /print_str HTTP/1.1\r\nHost: localhost\r\nConnection: close\r\n\r\n");
    assert!(data.starts_with("HTTP/1.1 401 Unauthorized"));

    let data = send_tcp(&server, "GET /print_str HTTP/1.1\r\nHost: localhost\r\nConnection: close\r\nX-ACCESS-TOKEN: 123\r\n\r\n");
    assert!(data.starts_with("HTTP/1.1 404 Not Found"));

    let data = send_tcp(&server, "POST /print_str HTTP/1.1\r\nHost: localhost\r\nConnection: close\r\nX-ACCESS-TOKEN: 123\r\n\r\n");
    assert!(data.contains("print test string"));
}
