//! HTTP framing: the request line of a call, and the text of a reply.

use vstd::prelude::*;
use vstd::utf8::encode_utf8;

use crate::text::{decimal, digit_char, split_on, split_string, str_eq, usize_to_decimal, views};
use crate::utils::header_views;
use crate::utils::error::{error_from_str, Error};
use crate::webserver::protocol::response::StatusCode;

verus! {

pub open spec fn msg_only_post() -> Seq<char> {
    "only allow use POST method"@
}

pub open spec fn msg_slash() -> Seq<char> {
    "http path should start with /"@
}

pub open spec fn msg_http11() -> Seq<char> {
    "only support http 1.1"@
}

pub open spec fn msg_format() -> Seq<char> {
    "http format error"@
}

/// The function that a request line `POST /name HTTP/1.1\r\n` calls: the
/// line split at each space must give `POST`, a path starting with `/`, and
/// `HTTP/1.1\r\n`, and nothing more; the function is the path without its `/`.
pub open spec fn function_name_spec(line: Seq<char>) -> Result<Seq<char>, Seq<char>> {
    let parts = split_on(line, ' ');
    let path = if parts.len() > 1 { parts[1] } else { Seq::empty() };
    if parts[0] != "POST"@ {
        Err(msg_only_post())
    } else if !(path.len() > 0 && path[0] == '/') {
        Err(msg_slash())
    } else if !(parts.len() > 2 && parts[2] == "HTTP/1.1\r\n"@) {
        Err(msg_http11())
    } else if parts.len() > 3 {
        Err(msg_format())
    } else {
        Ok(path.drop_first())
    }
}

/// The function that the request line `s` calls.
pub fn parse_function_name(s: &str) -> (r: Result<String, Error>)
    ensures
        match (r, function_name_spec(s@)) {
            (Ok(f), Ok(g)) => f@ == g,
            (Err(e), Err(m)) => e.message@ == m,
            _ => false,
        },
{
    let parts = split_string(s, ' ');
    proof {
        crate::text::lemma_split_on_len(s@, ' ');
        assert(views(parts@)[0] == parts@[0]@);
    }
    if !str_eq(parts[0].as_str(), "POST") {
        return Err(error_from_str("only allow use POST method"));
    }
    let empty = String::new();
    let path: &String = if parts.len() > 1 {
        assert(views(parts@)[1] == parts@[1]@);
        &parts[1]
    } else {
        &empty
    };
    let chars = crate::text::chars_of(path.as_str());
    if !(chars.len() > 0 && chars[0] == '/') {
        return Err(error_from_str("http path should start with /"));
    }
    if parts.len() > 2 {
        assert(views(parts@)[2] == parts@[2]@);
    }
    if !(parts.len() > 2 && str_eq(parts[2].as_str(), "HTTP/1.1\r\n")) {
        return Err(error_from_str("only support http 1.1"));
    }
    if parts.len() > 3 {
        return Err(error_from_str("http format error"));
    }
    Ok(path.as_str().substring_char(1, chars.len()).to_owned())
}

/// The status line text of a status.
pub open spec fn status_text(status: StatusCode) -> Seq<char> {
    match status {
        StatusCode::OK => "200 OK"@,
        StatusCode::Error => "500 Internal Server Error"@,
    }
}

/// The HTTP text of a reply with a JSON body: status line, content type,
/// the body's length in bytes, a blank line, the body.
pub open spec fn response_text_spec(status: StatusCode, body: Seq<char>) -> Seq<char> {
    "HTTP/1.1 "@ + status_text(status) + "\nContent-Type: application/json\nContent-Length: "@
        + decimal((encode_utf8(body).len() as usize) as nat) + "\n\n"@ + body
}

/// The HTTP text that sends `body_text` with `status`.
pub fn response_text(status: StatusCode, body_text: &str) -> (r: String)
    ensures
        r@ == response_text_spec(status, body_text@),
{
    let mut r = "HTTP/1.1 ".to_owned();
    match status {
        StatusCode::OK => r.append("200 OK"),
        StatusCode::Error => r.append("500 Internal Server Error"),
    }
    r.append("\nContent-Type: application/json\nContent-Length: ");
    let n = body_text.len();
    let d = usize_to_decimal(n);
    r.append(d.as_str());
    r.append("\n\n");
    r.append(body_text);
    r
}

/// A lowercase hexadecimal digit.
pub open spec fn hex_digit(d: nat) -> char {
    if d < 10 {
        digit_char(d)
    } else {
        ((87 + d) as u32) as char
    }
}

/// How JSON text writes one character of a string: quote, backslash and the
/// control characters are escaped (`\b \t \n \f \r` by name, the others as
/// `\u00xx`); every other character stands as it is.
pub open spec fn json_escape(c: char) -> Seq<char> {
    if c == '"' {
        seq!['\\', '"']
    } else if c == '\\' {
        seq!['\\', '\\']
    } else if c == '\u{8}' {
        seq!['\\', 'b']
    } else if c == '\t' {
        seq!['\\', 't']
    } else if c == '\n' {
        seq!['\\', 'n']
    } else if c == '\u{c}' {
        seq!['\\', 'f']
    } else if c == '\r' {
        seq!['\\', 'r']
    } else if (c as u32) < 0x20 {
        seq!['\\', 'u', '0', '0', hex_digit((c as u32 / 16) as nat), hex_digit((c as u32 % 16) as nat)]
    } else {
        seq![c]
    }
}

/// A string as JSON text, in double quotes.
pub open spec fn json_string(s: Seq<char>) -> Seq<char> {
    seq!['"'] + json_escaped(s) + seq!['"']
}

/// The escaped characters of a string.
pub open spec fn json_escaped(s: Seq<char>) -> Seq<char>
    decreases s.len(),
{
    if s.len() == 0 {
        Seq::empty()
    } else {
        json_escaped(s.drop_last()) + json_escape(s.last())
    }
}

/// The members `"key":"value"` of an object, separated by commas.
pub open spec fn json_members(fields: Seq<(Seq<char>, Seq<char>)>) -> Seq<char>
    decreases fields.len(),
{
    if fields.len() == 0 {
        Seq::empty()
    } else if fields.len() == 1 {
        json_string(fields[0].0) + seq![':'] + json_string(fields[0].1)
    } else {
        json_members(fields.drop_last()) + seq![','] + json_string(fields.last().0) + seq![':'] + json_string(
            fields.last().1,
        )
    }
}

/// The compact JSON text of an object of string fields, in their order.
pub open spec fn json_object_text(fields: Seq<(Seq<char>, Seq<char>)>) -> Seq<char> {
    seq!['{'] + json_members(fields) + seq!['}']
}

/// No key occurs twice.
pub open spec fn distinct_keys(fields: Seq<(Seq<char>, Seq<char>)>) -> bool {
    forall|i: int, j: int| 0 <= i < fields.len() && 0 <= j < fields.len() && i != j ==> fields[i].0 != fields[j].0
}

/// `json::stringify` of a JSON object holding the given string fields: the
/// crate writes the members in the order they were inserted, compactly, with
/// the escapes of `json_escape`.
#[verifier::external_body]
fn stringify_object(fields: &Vec<(String, String)>) -> (r: String)
    requires
        distinct_keys(header_views(fields@)),
    ensures
        r@ == json_object_text(header_views(fields@)),
{
    let mut object = json::JsonValue::new_object();
    for (key, value) in fields.iter() {
        let _ = object.insert(key.as_str(), value.as_str());
    }
    json::stringify(object)
}

/// The JSON body that reports an error: `{"message":...}`.
pub fn error_body(err: &Error) -> (r: String)
    ensures
        r@ == json_object_text(seq![("message"@, err.message@)]),
{
    let fields = vec![("message".to_owned(), err.message.clone())];
    assert(header_views(fields@) =~= seq![("message"@, err.message@)]);
    stringify_object(&fields)
}

/// The JSON body of a request that succeeded: an empty object.
pub fn empty_body() -> (r: String)
    ensures
        r@ == json_object_text(Seq::empty()),
{
    let fields: Vec<(String, String)> = Vec::new();
    assert(header_views(fields@) =~= Seq::<(Seq<char>, Seq<char>)>::empty());
    stringify_object(&fields)
}

/// A request line written as the server expects it, for a function name
/// without spaces, gives that name back.
pub proof fn law_request_line_roundtrip(f: Seq<char>)
    requires
        !f.contains(' '),
    ensures
        function_name_spec("POST /"@ + f + " HTTP/1.1\r\n"@) == Ok::<Seq<char>, Seq<char>>(f),
{
    reveal_strlit("POST /");
    reveal_strlit(" HTTP/1.1\r\n");
    reveal_strlit("POST");
    reveal_strlit("HTTP/1.1\r\n");
    let post = "POST"@;
    let path = seq!['/'] + f;
    let version = "HTTP/1.1\r\n"@;
    let line = "POST /"@ + f + " HTTP/1.1\r\n"@;
    assert(line =~= post.push(' ') + (path.push(' ') + version));
    crate::text::lemma_split_concat(post, path.push(' ') + version, ' ');
    crate::text::lemma_split_concat(path, version, ' ');
    assert(!post.contains(' ')) by {
        assert forall|j: int| 0 <= j < post.len() implies post[j] != ' ' by {}
    }
    assert(!path.contains(' ')) by {
        assert forall|j: int| 0 <= j < path.len() implies path[j] != ' ' by {
            if j > 0 {
                assert(path[j] == f[j - 1]);
            }
        }
    }
    assert(!version.contains(' ')) by {
        assert forall|j: int| 0 <= j < version.len() implies version[j] != ' ' by {}
    }
    crate::text::lemma_split_no_sep(post, ' ');
    crate::text::lemma_split_no_sep(path, ' ');
    crate::text::lemma_split_no_sep(version, ' ');
    let parts = split_on(line, ' ');
    assert(parts =~= seq![post, path, version]);
    assert(path.drop_first() =~= f);
}

} // verus!
