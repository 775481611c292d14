//! The wire protocol: requests, responses, and how the results of the
//! engine become responses and back.
//!
//! A response is a `Result` whose error is the text of the failure. The
//! server answers each request with one response of the matching kind.

use crate::error::KvsError;
use vstd::prelude::*;

verus! {

/// What a client asks of the server.
#[derive(Debug, Clone, PartialEq, Eq)]
pub enum Request {
    Get { key: String },
    Put { key: String, value: String },
    Remove { key: String },
}

/// The answer to a `Get`: the value, `None` where the key has none, or the
/// text of the failure.
pub type GetResponse = Result<Option<String>, String>;

/// The answer to a `Put`.
pub type SetResponse = Result<(), String>;

/// The answer to a `Remove`.
pub type RemoveResponse = Result<(), String>;

/// The answer to a request, of the kind of the request.
#[derive(Debug)]
pub enum Response {
    Get(GetResponse),
    Put(SetResponse),
    Remove(RemoveResponse),
}

/// What the server needs of a storage engine.
pub trait KvsEngine {
    /// Binds `key` to `value`.
    fn set(&self, key: String, value: String) -> Result<(), KvsError>;

    /// The value of `key`, or `None` where it has none.
    fn get(&self, key: String) -> Result<Option<String>, KvsError>;

    /// Unbinds `key`; fails with `KeyNotFound` where it has no value.
    fn remove(&self, key: String) -> Result<(), KvsError>;
}

/// The response to a `Get` whose outcome in the engine was `outcome`.
pub fn get_response(outcome: Result<Option<String>, KvsError>) -> (response: GetResponse)
    ensures
        outcome matches Ok(found) ==> response matches Ok(sent) && sent == found,
        outcome matches Err(e) ==> response matches Err(text) && text@ == e.message_text(),
{
    match outcome {
        Ok(found) => Ok(found),
        Err(e) => Err(e.message()),
    }
}

/// The response to a `Put` or a `Remove` whose outcome in the engine was
/// `outcome`.
pub fn ack_response(outcome: Result<(), KvsError>) -> (response: Result<(), String>)
    ensures
        outcome is Ok ==> response is Ok,
        outcome matches Err(e) ==> response matches Err(text) && text@ == e.message_text(),
{
    match outcome {
        Ok(_) => Ok(()),
        Err(e) => Err(e.message()),
    }
}

/// What a client makes of the response to a `Get`: a failure comes back as
/// a `StringError` with the text that the server sent.
pub fn get_result(response: GetResponse) -> (outcome: Result<Option<String>, KvsError>)
    ensures
        response matches Ok(found) ==> outcome matches Ok(got) && got == found,
        response matches Err(text) ==> outcome matches Err(KvsError::StringError(said)) && said
            == text,
{
    match response {
        Ok(found) => Ok(found),
        Err(text) => Err(KvsError::StringError(text)),
    }
}

/// What a client makes of the response to a `Put` or a `Remove`.
pub fn ack_result(response: Result<(), String>) -> (outcome: Result<(), KvsError>)
    ensures
        response is Ok ==> outcome is Ok,
        response matches Err(text) ==> outcome matches Err(KvsError::StringError(said)) && said
            == text,
{
    match response {
        Ok(_) => Ok(()),
        Err(text) => Err(KvsError::StringError(text)),
    }
}

/// Serves one request: calls the method of the engine that the request
/// names, once, with the strings of the request, and turns what the engine
/// returned into the response of the kind of the request.
pub fn serve_request<E: KvsEngine>(engine: &E, request: Request) -> (response: Response)
    ensures
        request is Get <==> response is Get,
        request is Put <==> response is Put,
        request is Remove <==> response is Remove,
        request matches Request::Get { key } ==> exists|outcome: Result<Option<String>, KvsError>|
            #[trigger] call_ensures(E::get, (engine, key), outcome) && call_ensures(
                get_response,
                (outcome,),
                response->Get_0,
            ),
        request matches Request::Put { key, value } ==> exists|outcome: Result<(), KvsError>|
            #[trigger] call_ensures(E::set, (engine, key, value), outcome) && call_ensures(
                ack_response,
                (outcome,),
                response->Put_0,
            ),
        request matches Request::Remove { key } ==> exists|outcome: Result<(), KvsError>|
            #[trigger] call_ensures(E::remove, (engine, key), outcome) && call_ensures(
                ack_response,
                (outcome,),
                response->Remove_0,
            ),
{
    match request {
        Request::Get { key } => {
            let outcome = engine.get(key);
            Response::Get(get_response(outcome))
        },
        Request::Put { key, value } => {
            let outcome = engine.set(key, value);
            Response::Put(ack_response(outcome))
        },
        Request::Remove { key } => {
            let outcome = engine.remove(key);
            Response::Remove(ack_response(outcome))
        },
    }
}

/// What the client prints for a `Get` that succeeded: the value, or that
/// the key was not found.
pub fn get_output(found: Option<String>) -> (line: String)
    ensures
        found matches Some(value) ==> line == value,
        found is None ==> line@ == "Key not found"@,
{
    match found {
        Some(value) => value,
        None => "Key not found".to_string(),
    }
}

/// Whether `e` says that a key was not found: the error of the engine
/// itself, or the text of it as a server sends it.
pub open spec fn says_key_not_found(e: KvsError) -> bool {
    e is KeyNotFound || (e matches KvsError::StringError(text) && text@ == "Key not found"@)
}

/// What the client reports for a `Remove`. `None`: it prints nothing and
/// exits with 0. `Some` of a line and a flag: it prints the line, to the
/// standard output where the flag is set and to the standard error where it
/// is not, and exits with 1. A key that was not found is reported as
/// `Key not found` on the standard output; every other failure by the text
/// of the error on the standard error.
pub fn remove_output(outcome: Result<(), KvsError>) -> (report: Option<(String, bool)>)
    ensures
        outcome is Ok ==> report is None,
        outcome matches Err(e) ==> report matches Some(r) && (if says_key_not_found(e) {
            r.0@ == "Key not found"@ && r.1
        } else {
            r.0@ == e.message_text() && !r.1
        }),
{
    match outcome {
        Ok(_) => None,
        Err(e) => {
            let wanted = "Key not found".to_string();
            let not_found = match &e {
                KvsError::KeyNotFound => true,
                KvsError::StringError(text) => *text == wanted,
                _ => false,
            };
            if not_found {
                Some(("Key not found".to_string(), true))
            } else {
                Some((e.message(), false))
            }
        },
    }
}

} // verus!
