//! What create, read, update and delete do to one another on a well-formed
//! table, stated over requests and responses.

use crate::dispatch::{answer_of, plan_of, CallView, ReplyView, StepView};
use crate::request::{id_of, id_text, route_of, Route};
use crate::response::{server_error, success, url_not_found, user_not_found};
use crate::store::{
    after_creates, count, lemma_distinct, lemma_fresh, lemma_lookup, lemma_rewritten,
    lemma_without, lookup, served, step, well_formed, without, TableView, LAST_ID,
};
use crate::user::{user_json, users_json, UserView};
use vstd::prelude::*;

verus! {

/// The record that an insert adds to the table `t`.
pub open spec fn created(t: TableView, name: Seq<char>, email: Seq<char>) -> UserView {
    UserView { id: Some(t.next_id as i32), name, email }
}

/// Every call leaves a well-formed table well formed, and never takes back
/// an identifier it has handed out.
pub proof fn lemma_step_keeps_well_formed(t: TableView, call: CallView)
    requires
        well_formed(t),
    ensures
        well_formed(step(t, call).0),
        step(t, call).0.next_id >= t.next_id,
{
    match call {
        CallView::Insert { name, email } => {
            if t.next_id <= LAST_ID {
                let after = t.rows.push(created(t, name, email));
                assert forall|i: int, j: int| 0 <= i < j < after.len() implies (#[trigger] after[i])
                    .id.unwrap() < (#[trigger] after[j]).id.unwrap() by {
                    if j < t.rows.len() {
                        assert(t.rows[i].id.unwrap() < t.rows[j].id.unwrap());
                    } else {
                        assert(t.rows[i].id.unwrap() < t.next_id);
                    }
                }
            }
        },
        CallView::Update { id, name, email } => {
            lemma_rewritten(t.rows, id, name, email, t.next_id);
        },
        CallView::Delete { id } => {
            lemma_without(t.rows, id, t.next_id);
        },
        _ => {},
    }
}

/// A create request with a payload that decoded, on a table that still has
/// an identifier to give, is answered with the confirmation; a read of the
/// identifier it was given then returns the record with the name and e-mail
/// of the payload, and changes nothing.
pub proof fn lemma_create_then_read(
    t: TableView,
    create: Seq<char>,
    body: UserView,
    read: Seq<char>,
    other: Option<UserView>,
)
    requires
        well_formed(t),
        t.next_id <= LAST_ID,
        route_of(create) == Route::Create,
        route_of(read) == Route::ReadOne,
        id_of(id_text(read)) == Some(t.next_id as i32),
    ensures
        ({
            let (t1, r1) = served(t, create, Some(body));
            let (t2, r2) = served(t1, read, other);
            let row = created(t, body.name, body.email);
            &&& well_formed(t1)
            &&& r1 == success("User Created"@)
            &&& lookup(t1.rows, t.next_id as i32) == Some(row)
            &&& t2 == t1
            &&& r2 == success(user_json(row))
        }),
{
    let call = CallView::Insert { name: body.name, email: body.email };
    lemma_step_keeps_well_formed(t, call);
    let row = created(t, body.name, body.email);
    let after = t.rows.push(row);
    assert(after.drop_last() =~= t.rows);
    lemma_fresh(t.rows, t.next_id, t.next_id as i32);
}

/// After one create for each of `bodies`, the table lists what it listed
/// before, then one record for each create, in order, each with the name and
/// e-mail it was created with: as many more rows as there were creates.
pub proof fn lemma_creates_then_list(t: TableView, bodies: Seq<(Seq<char>, Seq<char>)>)
    requires
        well_formed(t),
        t.next_id + bodies.len() <= LAST_ID + 1,
    ensures
        ({
            let t1 = after_creates(t, bodies);
            let listed = step(t1, CallView::SelectAll);
            &&& well_formed(t1)
            &&& t1.next_id == t.next_id + bodies.len()
            &&& listed == (t1, ReplyView::Rows(t1.rows))
            &&& answer_of(CallView::SelectAll, listed.1) == success(users_json(t1.rows))
            &&& t1.rows.len() == t.rows.len() + bodies.len()
            &&& t1.rows.len() >= bodies.len()
            &&& t1.rows.take(t.rows.len() as int) == t.rows
            &&& forall|k: int|
                0 <= k < bodies.len() ==> #[trigger] t1.rows[t.rows.len() + k] == (UserView {
                    id: Some((t.next_id + k) as i32),
                    name: bodies[k].0,
                    email: bodies[k].1,
                })
        }),
    decreases bodies.len(),
{
    let t1 = after_creates(t, bodies);
    if bodies.len() == 0 {
        assert(t1.rows.take(t.rows.len() as int) =~= t.rows);
    } else {
        let init = bodies.drop_last();
        let last = bodies.last();
        let t0 = after_creates(t, init);
        lemma_creates_then_list(t, init);
        let call = CallView::Insert { name: last.0, email: last.1 };
        lemma_step_keeps_well_formed(t0, call);
        assert(t1.rows == t0.rows.push(created(t0, last.0, last.1)));
        assert(t1.rows.take(t.rows.len() as int) =~= t0.rows.take(t.rows.len() as int));
        assert forall|k: int| 0 <= k < bodies.len() implies #[trigger] t1.rows[t.rows.len() + k]
            == (UserView {
            id: Some((t.next_id + k) as i32),
            name: bodies[k].0,
            email: bodies[k].1,
        }) by {
            if k < init.len() {
                assert(t1.rows[t.rows.len() + k] == t0.rows[t.rows.len() + k]);
                assert(init[k] == bodies[k]);
            }
        }
    }
}

/// An update request gives the row with its identifier the new name and
/// e-mail and leaves that row's identifier, and every other row, as they
/// were. It is confirmed when there is such a row; when there is none the
/// table stays as it is and the answer is a server error.
pub proof fn lemma_update(t: TableView, request: Seq<char>, id: i32, body: UserView)
    requires
        well_formed(t),
        route_of(request) == Route::Update,
        id_of(id_text(request)) == Some(id),
    ensures
        ({
            let (t1, r1) = served(t, request, Some(body));
            &&& well_formed(t1)
            &&& t1.next_id == t.next_id
            &&& t1.rows.len() == t.rows.len()
            &&& forall|i: int|
                0 <= i < t.rows.len() ==> #[trigger] t1.rows[i] == if t.rows[i].id == Some(id) {
                    UserView { id: Some(id), name: body.name, email: body.email }
                } else {
                    t.rows[i]
                }
            &&& count(t.rows, id) <= 1
            &&& lookup(t.rows, id).is_some() ==> r1 == success("User Updated"@) && lookup(
                t1.rows,
                id,
            ) == Some(UserView { id: Some(id), name: body.name, email: body.email })
            &&& lookup(t.rows, id).is_none() ==> r1 == server_error() && t1 == t
        }),
{
    let call = CallView::Update { id, name: body.name, email: body.email };
    let t1 = step(t, call).0;
    lemma_step_keeps_well_formed(t, call);
    lemma_rewritten(t.rows, id, body.name, body.email, t.next_id);
    lemma_lookup(t.rows, id);
    lemma_distinct(t.rows, t.next_id, id);
    if lookup(t.rows, id).is_some() {
        lemma_lookup(t1.rows, id);
        let i = choose|i: int| 0 <= i < t.rows.len() && t.rows[i].id == Some(id);
        assert(t1.rows[i].id == Some(id));
        lemma_found_is_a_row(t1.rows, id);
    }
}

/// What a lookup finds is a row of the table.
pub proof fn lemma_found_is_a_row(rows: Seq<UserView>, id: i32)
    requires
        lookup(rows, id).is_some(),
    ensures
        exists|i: int| 0 <= i < rows.len() && #[trigger] rows[i] == lookup(rows, id).unwrap(),
    decreases rows.len(),
{
    let init = rows.drop_last();
    if lookup(init, id).is_some() {
        lemma_found_is_a_row(init, id);
        let found = lookup(init, id).unwrap();
        let i = choose|i: int| 0 <= i < init.len() && #[trigger] init[i] == found;
        assert(rows[i] == init[i]);
    } else {
        assert(rows[rows.len() - 1] == rows.last());
    }
}

/// A delete request for an identifier that a row carries is confirmed, and a
/// read of that identifier afterwards finds no user; for an identifier that
/// no row carries the answer is at once that no user was found, and the
/// table stays as it is.
pub proof fn lemma_delete(
    t: TableView,
    request: Seq<char>,
    id: i32,
    read: Seq<char>,
    decoded: Option<UserView>,
    other: Option<UserView>,
)
    requires
        well_formed(t),
        route_of(request) == Route::Delete,
        id_of(id_text(request)) == Some(id),
        route_of(read) == Route::ReadOne,
        id_of(id_text(read)) == Some(id),
    ensures
        ({
            let (t1, r1) = served(t, request, decoded);
            let (t2, r2) = served(t1, read, other);
            &&& well_formed(t1)
            &&& t1.rows == without(t.rows, id)
            &&& lookup(t.rows, id).is_some() ==> r1 == success("User Deleted"@)
            &&& lookup(t.rows, id).is_none() ==> r1 == user_not_found() && t1 == t
            &&& t2 == t1
            &&& r2 == user_not_found()
        }),
{
    let call = CallView::Delete { id };
    lemma_step_keeps_well_formed(t, call);
    lemma_without(t.rows, id, t.next_id);
    lemma_lookup(t.rows, id);
    lemma_distinct(t.rows, t.next_id, id);
}

/// A request that matches no route is answered with the generic not-found
/// response, whatever its payload decoded to, and the table stays as it is.
pub proof fn lemma_unmatched(t: TableView, request: Seq<char>, decoded: Option<UserView>)
    requires
        route_of(request) == Route::Unmatched,
    ensures
        plan_of(request, decoded) == StepView::Reply(url_not_found()),
        served(t, request, decoded) == (t, url_not_found()),
{
}

} // verus!
