use rust_api::dispatch::{StoreCall, StoreReply};
use rust_api::response::Status;
use rust_api::store::{serve, MemoryStore};
use rust_api::user::User;

fn body(name: &str, email: &str) -> Option<User> {
    Some(User { id: None, name: name.to_string(), email: email.to_string() })
}

fn create(store: &mut MemoryStore, name: &str, email: &str) -> i32 {
    let id = store.next_id() as i32;
    let response = serve(store, "POST /users HTTP/1.1\r\n\r\n", body(name, email));
    assert_eq!(response.status, Status::Success);
    assert_eq!(response.body, "User Created");
    id
}

fn read(store: &mut MemoryStore, id: i32) -> (Status, String) {
    let request = format!("GET /user/{} HTTP/1.1\r\nHost: localhost\r\n\r\n", id);
    let response = serve(store, &request, None);
    (response.status, response.body)
}

#[test]
fn new_store_is_empty() {
    let mut store = MemoryStore::new();
    assert_eq!(store.len(), 0);
    assert_eq!(store.next_id(), 1);
    assert_eq!(store.apply(&StoreCall::SelectAll), StoreReply::Rows(vec![]));
    let listed = serve(&mut store, "GET /users HTTP/1.1\r\n\r\n", None);
    assert_eq!(listed.status, Status::Success);
    assert_eq!(listed.body, "[]");
}

#[test]
fn created_record_is_read_back() {
    let mut store = MemoryStore::new();
    let id = create(&mut store, "Ann", "a@x.com");
    assert_eq!(id, 1);
    assert_eq!(
        read(&mut store, id),
        (Status::Success, "{\"id\":1,\"name\":\"Ann\",\"email\":\"a@x.com\"}".to_string())
    );
    let second = create(&mut store, "Bob \"B\"", "b@x.com");
    assert_eq!(second, 2);
    let (status, text) = read(&mut store, second);
    assert_eq!(status, Status::Success);
    let value: serde_json::Value = serde_json::from_str(&text).unwrap();
    assert_eq!(value["id"].as_i64(), Some(2));
    assert_eq!(value["name"].as_str(), Some("Bob \"B\""));
    assert_eq!(value["email"].as_str(), Some("b@x.com"));
}

#[test]
fn listing_holds_every_created_record() {
    let mut store = MemoryStore::new();
    let people = [("Ann", "a@x.com"), ("Bob", "b@x.com"), ("Cy", "c@x.com"), ("Ann", "a@x.com")];
    for (name, email) in people.iter() {
        create(&mut store, name, email);
    }
    let listed = serve(&mut store, "GET /users HTTP/1.1\r\n\r\n", None);
    assert_eq!(listed.status, Status::Success);
    let value: serde_json::Value = serde_json::from_str(&listed.body).unwrap();
    let rows = value.as_array().unwrap();
    assert!(rows.len() >= people.len());
    for (k, (name, email)) in people.iter().enumerate() {
        assert!(rows.iter().any(|row| row["id"].as_i64() == Some(k as i64 + 1)
            && row["name"].as_str() == Some(*name)
            && row["email"].as_str() == Some(*email)));
    }
    assert_eq!(
        listed.body,
        "[{\"id\":1,\"name\":\"Ann\",\"email\":\"a@x.com\"},{\"id\":2,\"name\":\"Bob\",\"email\":\"b@x.com\"},{\"id\":3,\"name\":\"Cy\",\"email\":\"c@x.com\"},{\"id\":4,\"name\":\"Ann\",\"email\":\"a@x.com\"}]"
    );
}

#[test]
fn update_changes_only_its_record() {
    let mut store = MemoryStore::new();
    create(&mut store, "Ann", "a@x.com");
    create(&mut store, "Bob", "b@x.com");
    let updated = serve(
        &mut store,
        "PUT /users/2 HTTP/1.1\r\n\r\n{\"name\":\"Rob\",\"email\":\"r@x.com\"}",
        body("Rob", "r@x.com"),
    );
    assert_eq!(updated.status, Status::Success);
    assert_eq!(updated.body, "User Updated");
    assert_eq!(
        read(&mut store, 2),
        (Status::Success, "{\"id\":2,\"name\":\"Rob\",\"email\":\"r@x.com\"}".to_string())
    );
    assert_eq!(
        read(&mut store, 1),
        (Status::Success, "{\"id\":1,\"name\":\"Ann\",\"email\":\"a@x.com\"}".to_string())
    );
    assert_eq!(store.len(), 2);
}

#[test]
fn update_of_a_missing_record_is_a_server_error() {
    let mut store = MemoryStore::new();
    create(&mut store, "Ann", "a@x.com");
    let response = serve(&mut store, "PUT /users/9 HTTP/1.1\r\n\r\n{}", body("Rob", "r@x.com"));
    assert_eq!(response.status, Status::ServerError);
    assert_eq!(response.body, "Internal Server Error");
    assert_eq!(
        read(&mut store, 1),
        (Status::Success, "{\"id\":1,\"name\":\"Ann\",\"email\":\"a@x.com\"}".to_string())
    );
    assert_eq!(
        store.apply(&StoreCall::Update { id: 9, name: "x".to_string(), email: "y".to_string() }),
        StoreReply::Affected(0)
    );
}

#[test]
fn deleted_record_is_gone() {
    let mut store = MemoryStore::new();
    create(&mut store, "Ann", "a@x.com");
    create(&mut store, "Bob", "b@x.com");
    let deleted = serve(&mut store, "DELETE /users/1 HTTP/1.1\r\n\r\n", None);
    assert_eq!(deleted.status, Status::Success);
    assert_eq!(deleted.body, "User Deleted");
    assert_eq!(read(&mut store, 1), (Status::NotFound, "User Not Found".to_string()));
    assert_eq!(read(&mut store, 2).0, Status::Success);
    assert_eq!(store.len(), 1);
    // identifiers are not handed out again
    assert_eq!(create(&mut store, "Cy", "c@x.com"), 3);
}

#[test]
fn delete_of_a_missing_record_is_not_found() {
    let mut store = MemoryStore::new();
    let response = serve(&mut store, "DELETE /users/999 HTTP/1.1\r\n\r\n", None);
    assert_eq!(response.status, Status::NotFound);
    assert_eq!(response.body, "User Not Found");
    create(&mut store, "Ann", "a@x.com");
    let again = serve(&mut store, "DELETE /users/999 HTTP/1.1\r\n\r\n", None);
    assert_eq!(again.status, Status::NotFound);
    assert_eq!(store.len(), 1);
}

#[test]
fn unmatched_request_leaves_the_store_alone() {
    let mut store = MemoryStore::new();
    create(&mut store, "Ann", "a@x.com");
    let response = serve(&mut store, "PATCH /users/1 HTTP/1.1\r\n\r\nDELETE /users/1", body("x", "y"));
    assert_eq!(response.status, Status::NotFound);
    assert_eq!(response.body, "Not Found URL");
    assert_eq!(store.len(), 1);
    assert_eq!(store.next_id(), 2);
}

#[test]
fn apply_answers_each_call() {
    let mut store = MemoryStore::new();
    let insert = StoreCall::Insert { name: "Ann".to_string(), email: "a@x.com".to_string() };
    assert_eq!(store.apply(&insert), StoreReply::Affected(1));
    let ann = User { id: Some(1), name: "Ann".to_string(), email: "a@x.com".to_string() };
    assert_eq!(store.apply(&StoreCall::SelectOne { id: 1 }), StoreReply::Row(Some(ann.clone())));
    assert_eq!(store.apply(&StoreCall::SelectOne { id: 2 }), StoreReply::Row(None));
    assert_eq!(store.apply(&StoreCall::SelectAll), StoreReply::Rows(vec![ann]));
    assert_eq!(store.apply(&StoreCall::Delete { id: 1 }), StoreReply::Affected(1));
    assert_eq!(store.apply(&StoreCall::Delete { id: 1 }), StoreReply::Affected(0));
    assert_eq!(store.apply(&StoreCall::SelectAll), StoreReply::Rows(vec![]));
}
