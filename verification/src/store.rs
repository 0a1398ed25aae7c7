//! A table of users held in memory. It behaves as the dispatcher expects a
//! store to behave, so a request can be served from start to end without a
//! database, and what create, read, update and delete do to one another can
//! be stated and proved.

use crate::dispatch::{
    answer_of, handle_client, plan_of, record, respond, CallView, ReplyView, Step, StepView,
    StoreCall, StoreReply,
};
use crate::response::{Response, ResponseView};
use crate::user::{views, User, UserView};
use vstd::prelude::*;

verus! {

/// Largest identifier the table hands out.
pub const LAST_ID: i64 = 2147483647;

/// The table: its rows in insertion order. Identifiers start at 1 and are
/// never handed out twice.
pub struct MemoryStore {
    rows: Vec<User>,
    next_id: i64,
}

/// A table as plain values: its rows in insertion order, and the identifier
/// that the next insert will assign.
pub struct TableView {
    pub rows: Seq<UserView>,
    pub next_id: int,
}

impl View for MemoryStore {
    type V = TableView;

    closed spec fn view(&self) -> TableView {
        TableView { rows: views(self.rows@), next_id: self.next_id as int }
    }
}

/// Every row carries an identifier, and one from 1 up to below `bound`.
pub open spec fn ids_below(rows: Seq<UserView>, bound: int) -> bool {
    forall|i: int|
        0 <= i < rows.len() ==> (#[trigger] rows[i]).id.is_some() && 1 <= rows[i].id.unwrap()
            < bound
}

/// Identifiers grow from each row to the next, so none occurs twice.
pub open spec fn ascending(rows: Seq<UserView>) -> bool {
    forall|i: int, j: int|
        0 <= i < j < rows.len() ==> (#[trigger] rows[i]).id.unwrap() < (#[trigger] rows[j]).id
            .unwrap()
}

/// A table is well formed when every identifier in it has been handed out,
/// and handed out once.
pub open spec fn well_formed(t: TableView) -> bool {
    1 <= t.next_id <= LAST_ID + 1 && ids_below(t.rows, t.next_id) && ascending(t.rows)
}

/// The first row with this identifier.
pub open spec fn lookup(rows: Seq<UserView>, id: i32) -> Option<UserView>
    decreases rows.len(),
{
    if rows.len() == 0 {
        None
    } else {
        match lookup(rows.drop_last(), id) {
            Some(u) => Some(u),
            None => if rows.last().id == Some(id) {
                Some(rows.last())
            } else {
                None
            },
        }
    }
}

/// How many rows carry this identifier.
pub open spec fn count(rows: Seq<UserView>, id: i32) -> nat
    decreases rows.len(),
{
    if rows.len() == 0 {
        0
    } else {
        count(rows.drop_last(), id) + if rows.last().id == Some(id) {
            1nat
        } else {
            0nat
        }
    }
}

/// A row after an update aimed at `id`.
pub open spec fn rewrite(u: UserView, id: i32, name: Seq<char>, email: Seq<char>) -> UserView {
    if u.id == Some(id) {
        UserView { id: u.id, name, email }
    } else {
        u
    }
}

/// The rows after an update aimed at `id`.
pub open spec fn rewritten(rows: Seq<UserView>, id: i32, name: Seq<char>, email: Seq<char>) -> Seq<
    UserView,
> {
    rows.map_values(|u: UserView| rewrite(u, id, name, email))
}

/// The rows that do not carry this identifier, in their order.
pub open spec fn without(rows: Seq<UserView>, id: i32) -> Seq<UserView>
    decreases rows.len(),
{
    if rows.len() == 0 {
        rows
    } else if rows.last().id == Some(id) {
        without(rows.drop_last(), id)
    } else {
        without(rows.drop_last(), id).push(rows.last())
    }
}

/// What a call does to the table, and what the table replies.
pub open spec fn step(t: TableView, call: CallView) -> (TableView, ReplyView) {
    match call {
        CallView::Insert { name, email } => if t.next_id > LAST_ID {
            (t, ReplyView::Failed)
        } else {
            let row = UserView { id: Some(t.next_id as i32), name, email };
            (TableView { rows: t.rows.push(row), next_id: t.next_id + 1 }, ReplyView::Affected(1))
        },
        CallView::SelectOne { id } => (t, ReplyView::Row(lookup(t.rows, id))),
        CallView::SelectAll => (t, ReplyView::Rows(t.rows)),
        CallView::Update { id, name, email } => (
            TableView { rows: rewritten(t.rows, id, name, email), next_id: t.next_id },
            ReplyView::Affected(count(t.rows, id) as u64),
        ),
        CallView::Delete { id } => (
            TableView { rows: without(t.rows, id), next_id: t.next_id },
            ReplyView::Affected(count(t.rows, id) as u64),
        ),
    }
}

/// What serving a request does to the table, and the response.
pub open spec fn served(t: TableView, request: Seq<char>, decoded: Option<UserView>) -> (
    TableView,
    ResponseView,
) {
    match plan_of(request, decoded) {
        StepView::Reply(r) => (t, r),
        StepView::Call(call) => (step(t, call).0, answer_of(call, step(t, call).1)),
    }
}

/// The table after one insert for each pair of name and email, in order.
pub open spec fn after_creates(t: TableView, bodies: Seq<(Seq<char>, Seq<char>)>) -> TableView
    decreases bodies.len(),
{
    if bodies.len() == 0 {
        t
    } else {
        let last = bodies.last();
        step(
            after_creates(t, bodies.drop_last()),
            CallView::Insert { name: last.0, email: last.1 },
        ).0
    }
}

/// No row carries an identifier that has not been handed out yet.
pub proof fn lemma_fresh(rows: Seq<UserView>, bound: int, id: i32)
    requires
        ids_below(rows, bound),
        id >= bound,
    ensures
        lookup(rows, id) == None::<UserView>,
        count(rows, id) == 0,
    decreases rows.len(),
{
    if rows.len() > 0 {
        lemma_fresh(rows.drop_last(), bound, id);
    }
}

/// A lookup finds a row exactly when some row carries the identifier, and
/// the row it finds carries it.
pub proof fn lemma_lookup(rows: Seq<UserView>, id: i32)
    ensures
        count(rows, id) <= rows.len(),
        lookup(rows, id).is_some() <==> count(rows, id) > 0,
        count(rows, id) > 0 <==> exists|i: int| 0 <= i < rows.len() && rows[i].id == Some(id),
        lookup(rows, id).is_some() ==> lookup(rows, id).unwrap().id == Some(id),
    decreases rows.len(),
{
    if rows.len() > 0 {
        let init = rows.drop_last();
        lemma_lookup(init, id);
        if count(init, id) > 0 {
            let i = choose|i: int| 0 <= i < init.len() && init[i].id == Some(id);
            assert(rows[i].id == Some(id));
        } else if rows.last().id == Some(id) {
            assert(rows[rows.len() - 1].id == Some(id));
        } else {
            assert forall|i: int| 0 <= i < rows.len() implies rows[i].id != Some(id) by {
                if i < init.len() {
                    assert(init[i] == rows[i]);
                }
            }
        }
    }
}

/// Rows with identifiers in order number fewer than the bound on their
/// identifiers, and no identifier occurs twice.
pub proof fn lemma_distinct(rows: Seq<UserView>, bound: int, id: i32)
    requires
        1 <= bound,
        ids_below(rows, bound),
        ascending(rows),
    ensures
        rows.len() < bound,
        count(rows, id) <= 1,
    decreases rows.len(),
{
    if rows.len() > 0 {
        let init = rows.drop_last();
        let top = rows.last().id.unwrap() as int;
        assert forall|i: int| 0 <= i < init.len() implies (#[trigger] init[i]).id.is_some() && 1
            <= init[i].id.unwrap() < top by {
            assert(init[i] == rows[i]);
        }
        lemma_distinct(init, top, id);
        if rows.last().id == Some(id) {
            lemma_fresh(init, top, id);
        }
    }
}

/// An update keeps every identifier where it is.
pub proof fn lemma_rewritten(
    rows: Seq<UserView>,
    id: i32,
    name: Seq<char>,
    email: Seq<char>,
    bound: int,
)
    requires
        ids_below(rows, bound),
        ascending(rows),
    ensures
        ids_below(rewritten(rows, id, name, email), bound),
        ascending(rewritten(rows, id, name, email)),
        count(rows, id) == 0 ==> rewritten(rows, id, name, email) == rows,
{
    let after = rewritten(rows, id, name, email);
    assert forall|i: int| 0 <= i < after.len() implies (#[trigger] after[i]).id == rows[i].id by {}
    assert forall|i: int, j: int| 0 <= i < j < after.len() implies (#[trigger] after[i]).id.unwrap()
        < (#[trigger] after[j]).id.unwrap() by {
        assert(rows[i].id.unwrap() < rows[j].id.unwrap());
    }
    if count(rows, id) == 0 {
        lemma_lookup(rows, id);
        assert(after =~= rows);
    }
}

/// Removing an identifier leaves no row that carries it, takes away as many
/// rows as carried it, and keeps the rest as they were.
pub proof fn lemma_without(rows: Seq<UserView>, id: i32, bound: int)
    requires
        ids_below(rows, bound),
        ascending(rows),
    ensures
        ids_below(without(rows, id), bound),
        ascending(without(rows, id)),
        lookup(without(rows, id), id) == None::<UserView>,
        without(rows, id).len() + count(rows, id) == rows.len(),
        count(rows, id) == 0 ==> without(rows, id) == rows,
    decreases rows.len(),
{
    if rows.len() > 0 {
        let init = rows.drop_last();
        let top = rows.last().id.unwrap() as int;
        assert forall|i: int| 0 <= i < init.len() implies (#[trigger] init[i]).id.is_some() && 1
            <= init[i].id.unwrap() < top by {
            assert(init[i] == rows[i]);
        }
        lemma_without(init, id, bound);
        lemma_without(init, id, top);
        if rows.last().id != Some(id) {
            let kept = without(init, id).push(rows.last());
            assert(kept.drop_last() =~= without(init, id));
            if count(rows, id) == 0 {
                assert(kept =~= rows);
            }
        }
    }
}

fn copy_of(u: &User) -> (r: User)
    ensures
        r@ == u@,
{
    User { id: u.id, name: u.name.clone(), email: u.email.clone() }
}

impl MemoryStore {
    /// The table is well formed.
    pub open spec fn wf(&self) -> bool {
        well_formed(self@)
    }

    /// An empty table whose first record will get the identifier 1.
    pub fn new() -> (s: MemoryStore)
        ensures
            s.wf(),
            s@ == (TableView { rows: Seq::empty(), next_id: 1 }),
    {
        let s = MemoryStore { rows: Vec::new(), next_id: 1 };
        assert(s@.rows =~= Seq::empty());
        s
    }

    fn insert(&mut self, name: &String, email: &String) -> (reply: StoreReply)
        requires
            old(self).wf(),
        ensures
            final(self).wf(),
            (final(self)@, reply@) == step(
                old(self)@,
                CallView::Insert { name: name@, email: email@ },
            ),
    {
        if self.next_id > LAST_ID {
            return StoreReply::Failed;
        }
        let row = User { id: Some(self.next_id as i32), name: name.clone(), email: email.clone() };
        self.rows.push(row);
        self.next_id = self.next_id + 1;
        assert(self@.rows =~= old(self)@.rows.push(row@));
        StoreReply::Affected(1)
    }

    fn select_one(&self, id: i32) -> (reply: StoreReply)
        ensures
            reply@ == ReplyView::Row(lookup(self@.rows, id)),
    {
        let mut found: Option<User> = None;
        let mut i: usize = 0;
        let ghost all = views(self.rows@);
        assert(all.take(0) =~= Seq::<UserView>::empty());
        while i < self.rows.len()
            invariant
                i <= self.rows.len(),
                all == views(self.rows@),
                record(found) == lookup(all.take(i as int), id),
            decreases self.rows.len() - i,
        {
            proof {
                let next = all.take(i + 1);
                assert(next.drop_last() =~= all.take(i as int));
                assert(next.last() == self.rows@[i as int]@);
            }
            if found.is_none() && self.rows[i].id == Some(id) {
                found = Some(copy_of(&self.rows[i]));
            }
            i += 1;
        }
        assert(all.take(self.rows@.len() as int) =~= all);
        StoreReply::Row(found)
    }

    fn select_all(&self) -> (reply: StoreReply)
        ensures
            reply@ == ReplyView::Rows(self@.rows),
    {
        let mut out: Vec<User> = Vec::new();
        let mut i: usize = 0;
        while i < self.rows.len()
            invariant
                i <= self.rows.len(),
                views(out@) =~= views(self.rows@).take(i as int),
            decreases self.rows.len() - i,
        {
            let ghost so_far = views(out@);
            let row = copy_of(&self.rows[i]);
            out.push(row);
            assert(views(out@) =~= so_far.push(row@));
            assert(views(self.rows@).take(i + 1) =~= so_far.push(self.rows@[i as int]@));
            i += 1;
        }
        assert(views(out@) =~= views(self.rows@));
        StoreReply::Rows(out)
    }

    fn update(&mut self, id: i32, name: &String, email: &String) -> (reply: StoreReply)
        requires
            old(self).wf(),
        ensures
            final(self).wf(),
            (final(self)@, reply@) == step(
                old(self)@,
                CallView::Update { id, name: name@, email: email@ },
            ),
    {
        let ghost before = views(self.rows@);
        let mut touched: u64 = 0;
        let mut i: usize = 0;
        assert(before.take(0) =~= Seq::<UserView>::empty());
        while i < self.rows.len()
            invariant
                i <= self.rows.len(),
                self.rows.len() == before.len(),
                self.next_id == old(self).next_id,
                touched == count(before.take(i as int), id),
                touched <= i,
                forall|j: int|
                    0 <= j < i ==> (#[trigger] self.rows@[j])@ == rewrite(
                        before[j],
                        id,
                        name@,
                        email@,
                    ),
                forall|j: int| i <= j < before.len() ==> (#[trigger] self.rows@[j])@ == before[j],
            decreases self.rows.len() - i,
        {
            proof {
                let next = before.take(i + 1);
                assert(next.drop_last() =~= before.take(i as int));
                assert(next.last() == before[i as int]);
            }
            if self.rows[i].id == Some(id) {
                let row = User { id: Some(id), name: name.clone(), email: email.clone() };
                self.rows.set(i, row);
                touched = touched + 1;
            }
            i += 1;
        }
        assert(before.take(before.len() as int) =~= before);
        assert(views(self.rows@) =~= rewritten(before, id, name@, email@));
        proof {
            lemma_rewritten(before, id, name@, email@, self.next_id as int);
        }
        StoreReply::Affected(touched)
    }

    fn delete(&mut self, id: i32) -> (reply: StoreReply)
        requires
            old(self).wf(),
        ensures
            final(self).wf(),
            (final(self)@, reply@) == step(old(self)@, CallView::Delete { id }),
    {
        let ghost before = views(self.rows@);
        let mut kept: Vec<User> = Vec::new();
        let mut removed: u64 = 0;
        let mut i: usize = 0;
        assert(before.take(0) =~= Seq::<UserView>::empty());
        assert(views(kept@) =~= Seq::<UserView>::empty());
        while i < self.rows.len()
            invariant
                i <= self.rows.len(),
                before == views(self.rows@),
                views(kept@) == without(before.take(i as int), id),
                removed == count(before.take(i as int), id),
                removed <= i,
            decreases self.rows.len() - i,
        {
            proof {
                let next = before.take(i + 1);
                assert(next.drop_last() =~= before.take(i as int));
                assert(next.last() == self.rows@[i as int]@);
            }
            let ghost so_far = views(kept@);
            if self.rows[i].id == Some(id) {
                removed = removed + 1;
            } else {
                let row = copy_of(&self.rows[i]);
                kept.push(row);
                assert(views(kept@) =~= so_far.push(row@));
            }
            i += 1;
        }
        proof {
            assert(before.take(before.len() as int) =~= before);
            lemma_without(before, id, self.next_id as int);
        }
        self.rows = kept;
        StoreReply::Affected(removed)
    }

    /// Performs one call on the table.
    pub fn apply(&mut self, call: &StoreCall) -> (reply: StoreReply)
        requires
            old(self).wf(),
        ensures
            final(self).wf(),
            (final(self)@, reply@) == step(old(self)@, call@),
    {
        match call {
            StoreCall::Insert { name, email } => self.insert(name, email),
            StoreCall::SelectOne { id } => self.select_one(*id),
            StoreCall::SelectAll => self.select_all(),
            StoreCall::Update { id, name, email } => self.update(*id, name, email),
            StoreCall::Delete { id } => self.delete(*id),
        }
    }

    /// The identifier that the next insert will assign.
    pub fn next_id(&self) -> (id: i64)
        ensures
            id == self@.next_id,
    {
        self.next_id
    }

    /// How many rows the table holds.
    pub fn len(&self) -> (n: usize)
        ensures
            n == self@.rows.len(),
    {
        self.rows.len()
    }
}

/// Serves one request from the table: routes it, performs the call it asks
/// for, and answers.
pub fn serve(store: &mut MemoryStore, request: &str, decoded: Option<User>) -> (response:
    Response)
    requires
        old(store).wf(),
    ensures
        final(store).wf(),
        (final(store)@, response@) == served(old(store)@, request@, record(decoded)),
{
    match handle_client(request, decoded) {
        Step::Reply(response) => response,
        Step::Call(call) => {
            let reply = store.apply(&call);
            respond(&call, &reply)
        },
    }
}

} // verus!
