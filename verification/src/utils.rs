//! Helpers of the script server, and the error of the configuration store.

pub mod error;

use vstd::prelude::*;
use vstd::utf8::{decode_utf8, valid_utf8};

use crate::text::str_eq;

pub use error::Error;

verus! {

/// The result of the configuration store and of the web server.
pub type Result<T> = core::result::Result<T, Error>;

/// Whether some header has exactly the field name `key` and the value `value`.
pub open spec fn has_header_spec(headers: Seq<(Seq<char>, Seq<char>)>, key: Seq<char>, value: Seq<char>) -> bool {
    exists|i: int| 0 <= i < headers.len() && headers[i].0 == key && headers[i].1 == value
}

/// The field names and values of the headers.
pub open spec fn header_views(headers: Seq<(String, String)>) -> Seq<(Seq<char>, Seq<char>)> {
    headers.map_values(|h: (String, String)| (h.0@, h.1@))
}

/// Whether the request's headers hold `key: value`, field name and value
/// compared exactly.
pub fn has_header(headers: &Vec<(String, String)>, key: &str, value: &str) -> (r: bool)
    ensures
        r == has_header_spec(header_views(headers@), key@, value@),
{
    let ghost hs = header_views(headers@);
    let mut i: usize = 0;
    while i < headers.len()
        invariant
            hs == header_views(headers@),
            i <= hs.len(),
            forall|j: int| 0 <= j < i ==> !(hs[j].0 == key@ && hs[j].1 == value@),
        decreases hs.len() - i,
    {
        assert(hs[i as int] == (headers@[i as int].0@, headers@[i as int].1@));
        if str_eq(headers[i].0.as_str(), key) && str_eq(headers[i].1.as_str(), value) {
            return true;
        }
        i = i + 1;
    }
    false
}

/// Whether a path is an executable file: a regular file with an execute bit
/// set in its permission `mode`.
pub fn executable(is_file: bool, mode: u32) -> (r: bool)
    ensures
        r == (is_file && (mode & 0o111u32) != 0),
{
    is_file && (mode & 0o111) != 0
}

/// `String::from_utf8`: the text the bytes encode, when they are valid UTF-8.
#[verifier::external_body]
fn utf8_to_string(bytes: Vec<u8>) -> (r: Option<String>)
    ensures
        r is Some == valid_utf8(bytes@),
        r matches Some(s) ==> s@ == decode_utf8(bytes@),
{
    String::from_utf8(bytes).ok()
}

pub open spec fn msg_bad_utf8() -> Seq<char> {
    "transform char to utf8 error"@
}

/// What a finished script yields: its standard error as the failure when
/// it wrote any, its standard output otherwise; undecodable text fails.
pub open spec fn command_spec(stdout: Seq<u8>, stderr: Seq<u8>) -> core::result::Result<Seq<char>, Seq<char>> {
    let out = if stderr.len() > 0 { stderr } else { stdout };
    if !valid_utf8(out) {
        Err(msg_bad_utf8())
    } else if stderr.len() > 0 {
        Err(decode_utf8(stderr))
    } else {
        Ok(decode_utf8(stdout))
    }
}

/// The outcome of a finished script, from what it wrote.
pub fn command_result(stdout: Vec<u8>, stderr: Vec<u8>) -> (r: crate::error::Result<String>)
    ensures
        match (r, command_spec(stdout@, stderr@)) {
            (Ok(s), Ok(t)) => s@ == t,
            (Err(e), Err(m)) => e.message@ == m,
            _ => false,
        },
{
    if stderr.len() > 0 {
        return match utf8_to_string(stderr) {
            Some(s) => Err(crate::error::Error::new(s)),
            None => Err(crate::error::Error::new("transform char to utf8 error".to_owned())),
        };
    }
    match utf8_to_string(stdout) {
        Some(s) => Ok(s),
        None => Err(crate::error::Error::new("transform char to utf8 error".to_owned())),
    }
}

} // verus!
