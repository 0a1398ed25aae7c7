//! The dispatcher: from a raw request to a store call or an immediate
//! answer, and from the store's reply to the response.
//!
//! The store itself lives outside: whoever drives the dispatcher performs the
//! call that a `Step::Call` names and hands the reply back to `respond`.

use crate::request::{classify, get_id, id_of, id_text, parse_id, route_of, Route};
use crate::response::{
    server_error, success, url_not_found, user_not_found, Response, ResponseView,
};
use crate::user::{user_json, users_json, users_to_json, views, User, UserView};
use vstd::prelude::*;
use vstd::string::*;

verus! {

/// An operation on the store.
#[derive(Clone, Debug, PartialEq, Eq)]
pub enum StoreCall {
    Insert { name: String, email: String },
    SelectOne { id: i32 },
    SelectAll,
    Update { id: i32, name: String, email: String },
    Delete { id: i32 },
}

/// A store call as plain values.
pub enum CallView {
    Insert { name: Seq<char>, email: Seq<char> },
    SelectOne { id: i32 },
    SelectAll,
    Update { id: i32, name: Seq<char>, email: Seq<char> },
    Delete { id: i32 },
}

impl View for StoreCall {
    type V = CallView;

    open spec fn view(&self) -> CallView {
        match *self {
            StoreCall::Insert { name, email } => CallView::Insert { name: name@, email: email@ },
            StoreCall::SelectOne { id } => CallView::SelectOne { id },
            StoreCall::SelectAll => CallView::SelectAll,
            StoreCall::Update { id, name, email } => CallView::Update {
                id,
                name: name@,
                email: email@,
            },
            StoreCall::Delete { id } => CallView::Delete { id },
        }
    }
}

/// What the store said.
#[derive(Clone, Debug, PartialEq, Eq)]
pub enum StoreReply {
    /// The store could not be reached, or refused the operation.
    Failed,
    /// A write went through and touched this many rows.
    Affected(u64),
    /// A lookup went through: the row, if there is one.
    Row(Option<User>),
    /// A listing went through.
    Rows(Vec<User>),
}

/// A store reply as plain values.
pub enum ReplyView {
    Failed,
    Affected(u64),
    Row(Option<UserView>),
    Rows(Seq<UserView>),
}

impl View for StoreReply {
    type V = ReplyView;

    open spec fn view(&self) -> ReplyView {
        match *self {
            StoreReply::Failed => ReplyView::Failed,
            StoreReply::Affected(n) => ReplyView::Affected(n),
            StoreReply::Row(row) => ReplyView::Row(record(row)),
            StoreReply::Rows(rows) => ReplyView::Rows(views(rows@)),
        }
    }
}

/// What to do next with a request.
#[derive(Clone, Debug, PartialEq, Eq)]
pub enum Step {
    /// Answer at once.
    Reply(Response),
    /// Ask the store, then answer with `respond`.
    Call(StoreCall),
}

/// A step as plain values.
pub enum StepView {
    Reply(ResponseView),
    Call(CallView),
}

impl View for Step {
    type V = StepView;

    open spec fn view(&self) -> StepView {
        match *self {
            Step::Reply(r) => StepView::Reply(r@),
            Step::Call(c) => StepView::Call(c@),
        }
    }
}

/// An optional record as plain values.
pub open spec fn record(decoded: Option<User>) -> Option<UserView> {
    match decoded {
        Some(u) => Some(u@),
        None => None,
    }
}

/// Create: insert the decoded record; a payload that did not decode is a
/// server error.
pub open spec fn plan_create(decoded: Option<UserView>) -> StepView {
    match decoded {
        Some(u) => StepView::Call(CallView::Insert { name: u.name, email: u.email }),
        None => StepView::Reply(server_error()),
    }
}

/// Read one: look the identifier up; one that does not parse is a server
/// error.
pub open spec fn plan_read_one(s: Seq<char>) -> StepView {
    match id_of(id_text(s)) {
        Some(id) => StepView::Call(CallView::SelectOne { id }),
        None => StepView::Reply(server_error()),
    }
}

/// Update: needs both an identifier that parses and a payload that decoded.
pub open spec fn plan_update(s: Seq<char>, decoded: Option<UserView>) -> StepView {
    match (id_of(id_text(s)), decoded) {
        (Some(id), Some(u)) => StepView::Call(
            CallView::Update { id, name: u.name, email: u.email },
        ),
        _ => StepView::Reply(server_error()),
    }
}

/// Delete: remove by identifier; one that does not parse is a server error.
pub open spec fn plan_delete(s: Seq<char>) -> StepView {
    match id_of(id_text(s)) {
        Some(id) => StepView::Call(CallView::Delete { id }),
        None => StepView::Reply(server_error()),
    }
}

/// The step that a request calls for, given what its payload decoded to.
pub open spec fn plan_of(s: Seq<char>, decoded: Option<UserView>) -> StepView {
    match route_of(s) {
        Route::Create => plan_create(decoded),
        Route::ReadOne => plan_read_one(s),
        Route::ReadAll => StepView::Call(CallView::SelectAll),
        Route::Update => plan_update(s, decoded),
        Route::Delete => plan_delete(s),
        Route::Unmatched => StepView::Reply(url_not_found()),
    }
}

/// The response to a store call, given the store's reply. A reply of the
/// wrong kind for the call counts as a failure.
pub open spec fn answer_of(call: CallView, reply: ReplyView) -> ResponseView {
    match (call, reply) {
        (CallView::Insert { .. }, ReplyView::Affected(_)) => success("User Created"@),
        (CallView::SelectOne { .. }, ReplyView::Row(Some(u))) => success(user_json(u)),
        (CallView::SelectOne { .. }, ReplyView::Row(None)) => user_not_found(),
        (CallView::SelectAll, ReplyView::Rows(rows)) => success(users_json(rows)),
        (CallView::Update { .. }, ReplyView::Affected(n)) => if n == 0 {
            server_error()
        } else {
            success("User Updated"@)
        },
        (CallView::Delete { .. }, ReplyView::Affected(n)) => if n == 0 {
            user_not_found()
        } else {
            success("User Deleted"@)
        },
        _ => server_error(),
    }
}

/// Plans a create from what the payload decoded to.
pub fn handle_post_request(decoded: Option<User>) -> (step: Step)
    ensures
        step@ == plan_create(record(decoded)),
{
    match decoded {
        Some(user) => Step::Call(StoreCall::Insert { name: user.name, email: user.email }),
        None => Step::Reply(Response::server_error()),
    }
}

/// Plans the read of one record.
pub fn handle_get_request(request: &str) -> (step: Step)
    ensures
        step@ == plan_read_one(request@),
{
    match parse_id(get_id(request)) {
        Some(id) => Step::Call(StoreCall::SelectOne { id }),
        None => Step::Reply(Response::server_error()),
    }
}

/// Plans the listing of all records.
pub fn handle_get_all_request() -> (step: Step)
    ensures
        step@ == StepView::Call(CallView::SelectAll),
{
    Step::Call(StoreCall::SelectAll)
}

/// Plans an update from the request's identifier and what the payload
/// decoded to.
pub fn handle_put_request(request: &str, decoded: Option<User>) -> (step: Step)
    ensures
        step@ == plan_update(request@, record(decoded)),
{
    match (parse_id(get_id(request)), decoded) {
        (Some(id), Some(user)) => Step::Call(
            StoreCall::Update { id, name: user.name, email: user.email },
        ),
        _ => Step::Reply(Response::server_error()),
    }
}

/// Plans a delete.
pub fn handle_delete_request(request: &str) -> (step: Step)
    ensures
        step@ == plan_delete(request@),
{
    match parse_id(get_id(request)) {
        Some(id) => Step::Call(StoreCall::Delete { id }),
        None => Step::Reply(Response::server_error()),
    }
}

/// Routes one request. `decoded` is what the request's payload decoded to,
/// `None` when it did not decode.
pub fn handle_client(request: &str, decoded: Option<User>) -> (step: Step)
    ensures
        step@ == plan_of(request@, record(decoded)),
        route_of(request@) == Route::Unmatched ==> step@ == StepView::Reply(url_not_found()),
{
    match classify(request) {
        Route::Create => handle_post_request(decoded),
        Route::ReadOne => handle_get_request(request),
        Route::ReadAll => handle_get_all_request(),
        Route::Update => handle_put_request(request, decoded),
        Route::Delete => handle_delete_request(request),
        Route::Unmatched => Step::Reply(Response::url_not_found()),
    }
}

/// Turns the store's reply to `call` into the response.
pub fn respond(call: &StoreCall, reply: &StoreReply) -> (response: Response)
    ensures
        response@ == answer_of(call@, reply@),
{
    match (call, reply) {
        (StoreCall::Insert { .. }, StoreReply::Affected(_)) => Response::success(
            String::from_str("User Created"),
        ),
        (StoreCall::SelectOne { .. }, StoreReply::Row(Some(user))) => Response::success(
            user.to_json(),
        ),
        (StoreCall::SelectOne { .. }, StoreReply::Row(None)) => Response::user_not_found(),
        (StoreCall::SelectAll, StoreReply::Rows(rows)) => Response::success(users_to_json(rows)),
        (StoreCall::Update { .. }, StoreReply::Affected(n)) => if *n == 0 {
            Response::server_error()
        } else {
            Response::success(String::from_str("User Updated"))
        },
        (StoreCall::Delete { .. }, StoreReply::Affected(n)) => if *n == 0 {
            Response::user_not_found()
        } else {
            Response::success(String::from_str("User Deleted"))
        },
        _ => Response::server_error(),
    }
}

} // verus!
