//! The decisions of the script server, as a state machine: each event (a
//! request, what was found of the script file, the body, how the script ran)
//! leads to the next phase and to the action the caller performs next.

use vstd::prelude::*;
use vstd::utf8::{decode_utf8, valid_utf8};

use crate::text::{chars_of, split_on, split_string, str_eq, views};
use crate::utils::{command_result, command_spec, executable, has_header, has_header_spec, header_views};

verus! {

/// An HTTP reply: status code and body text.
pub struct Reply {
    pub status: i32,
    pub body: String,
}

/// What the caller does next.
pub enum Action {
    /// Send this reply; the request is done.
    Respond(Reply),
    /// Look up the script at this path, relative to the scripts directory.
    Inspect(String),
    /// Read the request body.
    ReadBody,
    /// Run the script with these parameters.
    Run(Vec<String>),
}

/// What the caller observed.
pub enum Event {
    /// A request arrived.
    Request { method: String, url: String, headers: Vec<(String, String)> },
    /// The script path exists; whether it is a regular file, and its permission bits.
    Inspected { is_file: bool, mode: u32 },
    /// The script path could not be looked up.
    InspectFailed,
    /// The body was read.
    BodyRead(String),
    /// Reading the body failed, with this message.
    BodyFailed(String),
    /// The script ran to its end.
    Exited { stdout: Vec<u8>, stderr: Vec<u8> },
    /// The script could not be started, with this message.
    SpawnFailed(String),
}

/// Where the handling of a request stands.
#[derive(Debug, Clone, Copy, PartialEq, Eq, Structural)]
pub enum Phase {
    Idle,
    Inspecting,
    Reading,
    Running,
}

/// An action as mathematical values.
pub enum ActionView {
    Respond(i32, Seq<char>),
    Inspect(Seq<char>),
    ReadBody,
    Run(Seq<Seq<char>>),
}

/// An event as mathematical values.
pub enum EventView {
    Request(Seq<char>, Seq<char>, Seq<(Seq<char>, Seq<char>)>),
    Inspected(bool, u32),
    InspectFailed,
    BodyRead(Seq<char>),
    BodyFailed(Seq<char>),
    Exited(Seq<u8>, Seq<u8>),
    SpawnFailed(Seq<char>),
}

impl View for Action {
    type V = ActionView;

    open spec fn view(&self) -> ActionView {
        match self {
            Action::Respond(r) => ActionView::Respond(r.status, r.body@),
            Action::Inspect(s) => ActionView::Inspect(s@),
            Action::ReadBody => ActionView::ReadBody,
            Action::Run(p) => ActionView::Run(views(p@)),
        }
    }
}

impl View for Event {
    type V = EventView;

    open spec fn view(&self) -> EventView {
        match self {
            Event::Request { method, url, headers } => EventView::Request(method@, url@, header_views(headers@)),
            Event::Inspected { is_file, mode } => EventView::Inspected(*is_file, *mode),
            Event::InspectFailed => EventView::InspectFailed,
            Event::BodyRead(b) => EventView::BodyRead(b@),
            Event::BodyFailed(m) => EventView::BodyFailed(m@),
            Event::Exited { stdout, stderr } => EventView::Exited(stdout@, stderr@),
            Event::SpawnFailed(m) => EventView::SpawnFailed(m@),
        }
    }
}

/// Whether `pat` occurs in `s`.
pub open spec fn contains_text(s: Seq<char>, pat: Seq<char>) -> bool {
    exists|i: int| 0 <= i && i + pat.len() <= s.len() && #[trigger] s.subrange(i, i + pat.len()) == pat
}

/// The answer to a request before its script is looked at: 401 without the
/// configured token, 404 for any method but POST, 403 for a path with
/// `/../`; otherwise the script named by the path without its leading `/`.
pub open spec fn admit_spec(
    token: Option<Seq<char>>,
    method: Seq<char>,
    url: Seq<char>,
    headers: Seq<(Seq<char>, Seq<char>)>,
) -> ActionView {
    if token is Some && !has_header_spec(headers, "X-ACCESS-TOKEN"@, token->0) {
        ActionView::Respond(401, "no permission"@)
    } else if method != "POST"@ {
        ActionView::Respond(404, "no found"@)
    } else if contains_text(url, "/../"@) {
        ActionView::Respond(403, "forbidden"@)
    } else {
        ActionView::Inspect(url.drop_first())
    }
}

/// The parameters of a script: the lines of the body, none for an empty body.
pub open spec fn params_spec(body: Seq<char>) -> Seq<Seq<char>> {
    if body.len() == 0 {
        Seq::empty()
    } else {
        split_on(body, '\n')
    }
}

/// The next phase and action for an event in a phase.
pub open spec fn step_spec(token: Option<Seq<char>>, phase: Phase, ev: EventView) -> (Phase, ActionView) {
    match (phase, ev) {
        (Phase::Idle, EventView::Request(method, url, headers)) => {
            let a = admit_spec(token, method, url, headers);
            (if a is Inspect { Phase::Inspecting } else { Phase::Idle }, a)
        },
        (Phase::Inspecting, EventView::Inspected(is_file, mode)) => if is_file && (mode & 0o111u32) != 0 {
            (Phase::Reading, ActionView::ReadBody)
        } else {
            (Phase::Idle, ActionView::Respond(403, "forbidden"@))
        },
        (Phase::Inspecting, EventView::InspectFailed) => (Phase::Idle, ActionView::Respond(403, "forbidden"@)),
        (Phase::Reading, EventView::BodyRead(body)) => (Phase::Running, ActionView::Run(params_spec(body))),
        (Phase::Reading, EventView::BodyFailed(m)) => (Phase::Idle, ActionView::Respond(500, m)),
        (Phase::Running, EventView::Exited(stdout, stderr)) => (
            Phase::Idle,
            match command_spec(stdout, stderr) {
                Ok(out) => ActionView::Respond(200, out),
                Err(m) => ActionView::Respond(500, m),
            },
        ),
        (Phase::Running, EventView::SpawnFailed(m)) => (Phase::Idle, ActionView::Respond(500, m)),
        _ => (phase, ActionView::Respond(500, Seq::empty())),
    }
}

/// The events that can come in a phase: a request when idle, the lookup of
/// the script when inspecting, the body when reading, the end of the script
/// when running.
pub open spec fn event_fits(phase: Phase, ev: EventView) -> bool {
    match (phase, ev) {
        (Phase::Idle, EventView::Request(_, _, _)) => true,
        (Phase::Inspecting, EventView::Inspected(_, _)) => true,
        (Phase::Inspecting, EventView::InspectFailed) => true,
        (Phase::Reading, EventView::BodyRead(_)) => true,
        (Phase::Reading, EventView::BodyFailed(_)) => true,
        (Phase::Running, EventView::Exited(_, _)) => true,
        (Phase::Running, EventView::SpawnFailed(_)) => true,
        _ => false,
    }
}

/// The requests whose script path can be cut after its first byte: when the
/// request passes the checks, its path starts with an ASCII character.
pub open spec fn url_cuttable(token: Option<Seq<char>>, ev: EventView) -> bool {
    match ev {
        EventView::Request(method, url, headers) => admit_spec(token, method, url, headers) is Inspect
            ==> url.len() > 0 && (url[0] as u32) <= 0x7F,
        _ => true,
    }
}

/// The script server's configuration: the access token that requests must carry.
pub struct ScriptServer {
    pub token: Option<String>,
}

/// The token's characters.
pub open spec fn token_view(token: Option<String>) -> Option<Seq<char>> {
    match token {
        Some(t) => Some(t@),
        None => None,
    }
}

fn contains_dotdot(url: &str) -> (r: bool)
    ensures
        r == contains_text(url@, "/../"@),
{
    proof {
        reveal_strlit("/../");
    }
    let chars = chars_of(url);
    let n = chars.len();
    if n < 4 {
        assert forall|i: int| 0 <= i && i + 4 <= url@.len() implies #[trigger] url@.subrange(i, i + "/../"@.len()) != "/../"@ by {}
        return false;
    }
    let mut i: usize = 0;
    while i <= n - 4
        invariant
            chars@ == url@,
            n == chars@.len(),
            n >= 4,
            i <= n - 3,
            "/../"@ =~= seq!['/', '.', '.', '/'],
            forall|j: int| 0 <= j < i ==> #[trigger] url@.subrange(j, j + 4) != "/../"@,
        decreases n - i,
    {
        if chars[i] == '/' && chars[i + 1] == '.' && chars[i + 2] == '.' && chars[i + 3] == '/' {
            assert(url@.subrange(i as int, i + 4) =~= "/../"@);
            return true;
        }
        assert(url@.subrange(i as int, i + 4) != "/../"@) by {
            if url@.subrange(i as int, i + 4) == "/../"@ {
                assert(url@.subrange(i as int, i + 4)[0] == chars@[i as int]);
                assert(url@.subrange(i as int, i + 4)[1] == chars@[i + 1]);
                assert(url@.subrange(i as int, i + 4)[2] == chars@[i + 2]);
                assert(url@.subrange(i as int, i + 4)[3] == chars@[i + 3]);
            }
        }
        i = i + 1;
    }
    assert forall|j: int| 0 <= j && j + 4 <= url@.len() implies #[trigger] url@.subrange(j, j + "/../"@.len()) != "/../"@ by {}
    false
}

impl ScriptServer {
    /// The checks that a request passes before its script is looked at:
    /// the reply when it fails one (401 without the token, 404 for any
    /// method but POST, 403 for a path with `/../`), nothing when it passes.
    pub fn check_request(&self, method: &str, url: &str, headers: &Vec<(String, String)>) -> (r: Option<Reply>)
        ensures
            r is None == admit_spec(token_view(self.token), method@, url@, header_views(headers@)) is Inspect,
            r matches Some(reply) ==> admit_spec(token_view(self.token), method@, url@, header_views(headers@))
                == ActionView::Respond(reply.status, reply.body@),
    {
        proof {
            reveal_strlit("X-ACCESS-TOKEN");
            reveal_strlit("POST");
        }
        if let Some(token) = &self.token {
            if !has_header(headers, "X-ACCESS-TOKEN", token.as_str()) {
                return Some(Reply { status: 401, body: "no permission".to_owned() });
            }
        }
        if !str_eq(method, "POST") {
            return Some(Reply { status: 404, body: "no found".to_owned() });
        }
        if contains_dotdot(url) {
            return Some(Reply { status: 403, body: "forbidden".to_owned() });
        }
        None
    }

    /// The next phase and the action to perform after `event` in `phase`.
    pub fn step(&self, phase: Phase, event: Event) -> (r: (Phase, Action))
        requires
            event_fits(phase, event@),
            url_cuttable(token_view(self.token), event@),
        ensures
            r.0 == step_spec(token_view(self.token), phase, event@).0,
            r.1@ == step_spec(token_view(self.token), phase, event@).1,
    {
        match event {
            Event::Request { method, url, headers } => {
                match self.check_request(method.as_str(), url.as_str(), &headers) {
                    Some(reply) => (Phase::Idle, Action::Respond(reply)),
                    None => {
                        let script = url.as_str().substring_char(1, chars_of(url.as_str()).len()).to_owned();
                        (Phase::Inspecting, Action::Inspect(script))
                    },
                }
            },
            Event::Inspected { is_file, mode } => {
                if executable(is_file, mode) {
                    (Phase::Reading, Action::ReadBody)
                } else {
                    (Phase::Idle, Action::Respond(Reply { status: 403, body: "forbidden".to_owned() }))
                }
            },
            Event::InspectFailed => (Phase::Idle, Action::Respond(Reply { status: 403, body: "forbidden".to_owned() })),
            Event::BodyRead(body) => {
                let params = if body.as_str().is_empty() {
                    let v: Vec<String> = Vec::new();
                    assert(views(v@) =~= Seq::<Seq<char>>::empty());
                    v
                } else {
                    split_string(body.as_str(), '\n')
                };
                (Phase::Running, Action::Run(params))
            },
            Event::BodyFailed(m) => (Phase::Idle, Action::Respond(Reply { status: 500, body: m })),
            Event::Exited { stdout, stderr } => {
                let reply = match command_result(stdout, stderr) {
                    Ok(out) => Reply { status: 200, body: out },
                    Err(e) => Reply { status: 500, body: e.message },
                };
                (Phase::Idle, Action::Respond(reply))
            },
            Event::SpawnFailed(m) => (Phase::Idle, Action::Respond(Reply { status: 500, body: m })),
        }
    }
}

/// Without the configured token every request is answered 401, whatever its
/// method and path.
pub proof fn law_token_required(
    token: Seq<char>,
    method: Seq<char>,
    url: Seq<char>,
    headers: Seq<(Seq<char>, Seq<char>)>,
)
    requires
        !has_header_spec(headers, "X-ACCESS-TOKEN"@, token),
    ensures
        step_spec(Some(token), Phase::Idle, EventView::Request(method, url, headers)) == (
            Phase::Idle,
            ActionView::Respond(401, "no permission"@),
        ),
{
}

/// A request that carries the token (when one is configured) but whose
/// method is not POST is answered 404.
pub proof fn law_only_post(
    token: Option<Seq<char>>,
    method: Seq<char>,
    url: Seq<char>,
    headers: Seq<(Seq<char>, Seq<char>)>,
)
    requires
        token matches Some(t) ==> has_header_spec(headers, "X-ACCESS-TOKEN"@, t),
        method != "POST"@,
    ensures
        step_spec(token, Phase::Idle, EventView::Request(method, url, headers)) == (
            Phase::Idle,
            ActionView::Respond(404, "no found"@),
        ),
{
}

/// A path holding `/../` never reaches a script: such a request is answered
/// 401, 404 or 403 before any file is looked at.
pub proof fn law_no_parent_paths(
    token: Option<Seq<char>>,
    method: Seq<char>,
    url: Seq<char>,
    headers: Seq<(Seq<char>, Seq<char>)>,
)
    requires
        contains_text(url, "/../"@),
    ensures
        step_spec(token, Phase::Idle, EventView::Request(method, url, headers)).1 is Respond,
{
}

/// A script is only run right after its body was read, and only a request
/// that passed every check leads to the reading of a body.
pub proof fn law_run_only_after_checks(token: Option<Seq<char>>, phase: Phase, ev: EventView)
    ensures
        step_spec(token, phase, ev).1 is Run ==> phase == Phase::Reading && ev is BodyRead,
        step_spec(token, phase, ev).1 is ReadBody ==> phase == Phase::Inspecting && (ev matches EventView::Inspected(
            f,
            mode,
        ) && f && (mode & 0o111u32) != 0),
        step_spec(token, phase, ev).1 is Inspect ==> phase == Phase::Idle && (ev matches EventView::Request(
            method,
            url,
            headers,
        ) && method == "POST"@ && !contains_text(url, "/../"@) && (token matches Some(t) ==> has_header_spec(
            headers,
            "X-ACCESS-TOKEN"@,
            t,
        ))),
{
}

/// The parameters of a non-empty body, joined with newlines, give the body back.
pub proof fn law_params_join(body: Seq<char>)
    requires
        body.len() > 0,
    ensures
        crate::text::join_with(params_spec(body), '\n') == body,
{
    crate::text::lemma_join_split(body, '\n');
}

/// A finished script is answered 500 with its standard error when it wrote
/// any, and 200 with its standard output otherwise; output that is not
/// UTF-8 is answered 500 with the message of the failed conversion.
pub proof fn law_script_reply(token: Option<Seq<char>>, stdout: Seq<u8>, stderr: Seq<u8>)
    ensures
        stderr.len() > 0 && valid_utf8(stderr) ==> step_spec(token, Phase::Running, EventView::Exited(stdout, stderr))
            == (Phase::Idle, ActionView::Respond(500, decode_utf8(stderr))),
        stderr.len() == 0 && valid_utf8(stdout) ==> step_spec(token, Phase::Running, EventView::Exited(stdout, stderr))
            == (Phase::Idle, ActionView::Respond(200, decode_utf8(stdout))),
        (if stderr.len() > 0 { !valid_utf8(stderr) } else { !valid_utf8(stdout) }) ==> step_spec(
            token,
            Phase::Running,
            EventView::Exited(stdout, stderr),
        ) == (Phase::Idle, ActionView::Respond(500, "transform char to utf8 error"@)),
{
}

} // verus!
