//! The user record and its JSON form.

use vstd::prelude::*;
use vstd::string::*;

verus! {

/// A user record. The identifier is assigned by the store, never by a client.
#[derive(Clone, Debug, PartialEq, Eq)]
pub struct User {
    pub id: Option<i32>,
    pub name: String,
    pub email: String,
}

/// A user record as plain values.
pub struct UserView {
    pub id: Option<i32>,
    pub name: Seq<char>,
    pub email: Seq<char>,
}

impl View for User {
    type V = UserView;

    open spec fn view(&self) -> UserView {
        UserView { id: self.id, name: self.name@, email: self.email@ }
    }
}

/// The records of a list as plain values.
pub open spec fn views(users: Seq<User>) -> Seq<UserView> {
    users.map_values(|u: User| u@)
}

/// The JSON string literal, quotes and escapes included, that
/// `serde_json::to_string` writes for the text `s`.
pub uninterp spec fn json_text(s: Seq<char>) -> Seq<char>;

/// Calls `serde_json::to_string` on a string slice. Writing a string into a
/// growing buffer cannot fail, so the call always yields its JSON literal,
/// which `json_text` names.
#[verifier::external_body]
fn json_string(s: &str) -> (r: String)
    ensures
        r@ == json_text(s@),
{
    match serde_json::to_string(s) {
        Ok(t) => t,
        Err(_) => String::new(),
    }
}

/// The character of a decimal digit.
pub open spec fn digit_char(d: int) -> char {
    ('0' as u32 + d) as char
}

/// The decimal digits of `n`, without leading zeros.
pub open spec fn decimal(n: nat) -> Seq<char>
    decreases n,
{
    if n < 10 {
        seq![digit_char(n as int)]
    } else {
        decimal(n / 10).push(digit_char((n % 10) as int))
    }
}

/// The decimal form of an integer.
pub open spec fn int_text(v: int) -> Seq<char> {
    if v < 0 {
        seq!['-'] + decimal((-v) as nat)
    } else {
        decimal(v as nat)
    }
}

/// The JSON object of a record whose name and e-mail are given as JSON
/// string literals; fields in declaration order.
pub open spec fn record_text(id: Option<i32>, name: Seq<char>, email: Seq<char>) -> Seq<char> {
    let id = match id {
        Some(v) => int_text(v as int),
        None => "null"@,
    };
    "{\"id\":"@ + id + ",\"name\":"@ + name + ",\"email\":"@ + email + "}"@
}

/// The JSON object of a record.
pub open spec fn user_json(u: UserView) -> Seq<char> {
    record_text(u.id, json_text(u.name), json_text(u.email))
}

/// The items in order, with a comma between neighbours.
pub open spec fn joined(items: Seq<Seq<char>>) -> Seq<char>
    decreases items.len(),
{
    if items.len() == 0 {
        Seq::empty()
    } else {
        let comma = if items.len() > 1 { ","@ } else { Seq::empty() };
        joined(items.drop_last()) + comma + items.last()
    }
}

/// The JSON array of items that are already written as JSON.
pub open spec fn array_text(items: Seq<Seq<char>>) -> Seq<char> {
    "["@ + joined(items) + "]"@
}

/// The texts of a list of strings.
pub open spec fn texts(items: Seq<String>) -> Seq<Seq<char>> {
    items.map_values(|s: String| s@)
}

/// The JSON array of a list of records.
pub open spec fn users_json(users: Seq<UserView>) -> Seq<char> {
    array_text(users.map_values(|u: UserView| user_json(u)))
}

fn digit_str(d: u32) -> (r: &'static str)
    requires
        d < 10,
    ensures
        r@ == seq![digit_char(d as int)],
{
    proof {
        reveal_strlit("0");
        reveal_strlit("1");
        reveal_strlit("2");
        reveal_strlit("3");
        reveal_strlit("4");
        reveal_strlit("5");
        reveal_strlit("6");
        reveal_strlit("7");
        reveal_strlit("8");
        reveal_strlit("9");
    }
    let r = if d == 0 {
        "0"
    } else if d == 1 {
        "1"
    } else if d == 2 {
        "2"
    } else if d == 3 {
        "3"
    } else if d == 4 {
        "4"
    } else if d == 5 {
        "5"
    } else if d == 6 {
        "6"
    } else if d == 7 {
        "7"
    } else if d == 8 {
        "8"
    } else {
        "9"
    };
    assert(r@ =~= seq![digit_char(d as int)]);
    r
}

fn decimal_string(n: u32) -> (r: String)
    ensures
        r@ == decimal(n as nat),
    decreases n,
{
    if n < 10 {
        String::from_str(digit_str(n))
    } else {
        let mut s = decimal_string(n / 10);
        s.append(digit_str(n % 10));
        assert(s@ =~= decimal(n as nat));
        s
    }
}

/// Writes an identifier in decimal.
pub fn id_string(v: i32) -> (r: String)
    ensures
        r@ == int_text(v as int),
{
    if v < 0 {
        proof {
            reveal_strlit("-");
            assert("-"@ =~= seq!['-']);
        }
        let magnitude: u32 = (-(v as i64)) as u32;
        let mut s = String::from_str("-");
        let digits = decimal_string(magnitude);
        s.append(digits.as_str());
        s
    } else {
        decimal_string(v as u32)
    }
}

/// Writes the JSON object of a record from its identifier and from the JSON
/// string literals of its name and e-mail.
pub fn write_record(id: Option<i32>, name: &str, email: &str) -> (r: String)
    ensures
        r@ == record_text(id, name@, email@),
{
    let mut out = String::from_str("{\"id\":");
    match id {
        Some(v) => {
            let digits = id_string(v);
            out.append(digits.as_str());
        },
        None => {
            out.append("null");
        },
    }
    out.append(",\"name\":");
    out.append(name);
    out.append(",\"email\":");
    out.append(email);
    out.append("}");
    out
}

/// Writes the JSON array of items that are already written as JSON.
pub fn write_array(items: &Vec<String>) -> (r: String)
    ensures
        r@ == array_text(texts(items@)),
{
    let mut out = String::from_str("[");
    let ghost all = texts(items@);
    let mut i: usize = 0;
    assert(all.take(0) =~= Seq::<Seq<char>>::empty());
    assert("["@ + Seq::<char>::empty() =~= "["@);
    while i < items.len()
        invariant
            i <= items.len(),
            all == texts(items@),
            out@ == "["@ + joined(all.take(i as int)),
        decreases items.len() - i,
    {
        let ghost before = out@;
        if i > 0 {
            out.append(",");
        }
        out.append(items[i].as_str());
        proof {
            let next = all.take(i + 1);
            assert(next.drop_last() =~= all.take(i as int));
            assert(next.last() == items@[i as int]@);
            let comma = if next.len() > 1 { ","@ } else { Seq::<char>::empty() };
            assert(out@ =~= before + comma + next.last());
            assert(out@ =~= "["@ + joined(next));
        }
        i += 1;
    }
    assert(all.take(items@.len() as int) =~= all);
    out.append("]");
    out
}

impl User {
    /// Writes the record as a JSON object.
    pub fn to_json(&self) -> (r: String)
        ensures
            r@ == user_json(self@),
    {
        let name = json_string(self.name.as_str());
        let email = json_string(self.email.as_str());
        write_record(self.id, name.as_str(), email.as_str())
    }
}

/// Writes a list of records as a JSON array.
pub fn users_to_json(users: &Vec<User>) -> (r: String)
    ensures
        r@ == users_json(views(users@)),
{
    let mut items: Vec<String> = Vec::new();
    let ghost wanted = views(users@).map_values(|u: UserView| user_json(u));
    let mut i: usize = 0;
    while i < users.len()
        invariant
            i <= users.len(),
            wanted == views(users@).map_values(|u: UserView| user_json(u)),
            texts(items@) =~= wanted.take(i as int),
        decreases users.len() - i,
    {
        let ghost so_far = texts(items@);
        let item = users[i].to_json();
        items.push(item);
        assert(texts(items@) =~= so_far.push(item@));
        assert(wanted.take(i + 1) =~= so_far.push(wanted[i as int]));
        i += 1;
    }
    assert(texts(items@) =~= wanted);
    write_array(&items)
}

} // verus!
