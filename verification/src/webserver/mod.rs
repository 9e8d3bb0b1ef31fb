//! A small JSON web server: the request line is parsed and the reply framed here.

pub mod protocol;

use vstd::prelude::*;

use crate::utils::error::Error;
use crate::webserver::protocol::http::{
    empty_body, error_body, function_name_spec, json_object_text, parse_function_name, response_text,
    response_text_spec,
};
use crate::webserver::protocol::response::StatusCode;

verus! {

/// The web application.
pub struct App;

impl App {
    /// A new application.
    pub fn new() -> (a: App)
        ensures
            a == App,
    {
        App {}
    }

    /// What the server sends back for a connection, given how reading its
    /// first line went: 200 with an empty JSON object when the line calls a
    /// function, 500 with the error message otherwise.
    pub fn respond(&self, line: Result<String, Error>) -> (r: String)
        ensures
            r@ == match line {
                Ok(l) => match function_name_spec(l@) {
                    Ok(_) => response_text_spec(StatusCode::OK, json_object_text(Seq::empty())),
                    Err(m) => response_text_spec(StatusCode::Error, json_object_text(seq![("message"@, m)])),
                },
                Err(e) => response_text_spec(StatusCode::Error, json_object_text(seq![("message"@, e.message@)])),
            },
    {
        let outcome = match line {
            Ok(l) => match parse_function_name(l.as_str()) {
                Ok(_) => Ok(()),
                Err(e) => Err(e),
            },
            Err(e) => Err(e),
        };
        match outcome {
            Ok(()) => {
                let body = empty_body();
                response_text(StatusCode::OK, body.as_str())
            },
            Err(e) => {
                let body = error_body(&e);
                response_text(StatusCode::Error, body.as_str())
            },
        }
    }
}

} // verus!
