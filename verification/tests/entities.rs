use divlink::{Model, Record, Status, StorageError, Store, User, Visibility};

#[test]
fn insert_then_fetch_round_trips_user() {
    let mut store = Store::new();
    let alice = User::new("alice".to_string(), "alice@example.org".to_string());
    let created_at = alice.created_at;
    let stored = alice.insert(&mut store).unwrap();
    assert_eq!(stored.id, Some(1));
    let fetched = User::get_by_id(&store, 1).unwrap();
    // equal modulo the server-assigned key; the timestamp was set at
    // construction and is kept
    assert_eq!(fetched.username, "alice");
    assert_eq!(fetched.email, "alice@example.org");
    assert_eq!(fetched.created_at, created_at);
    assert_eq!(fetched, stored);
}

#[test]
fn insert_then_fetch_round_trips_record() {
    let mut store = Store::new();
    User::new("alice".to_string(), "a@example.org".to_string())
        .insert(&mut store)
        .unwrap();
    let rec = Record::create(1, "trip".to_string(), Status::Archived, Visibility::Public);
    let stored = rec.insert(&mut store).unwrap();
    assert_eq!(stored.id, Some(1));
    let fetched: Record = divlink::store::fetch_by_key(&store, 1).unwrap();
    assert_eq!(fetched, stored);
    assert_eq!(fetched.uid, 1);
    assert_eq!(fetched.name, "trip");
    assert_eq!(fetched.status, Status::Archived);
    assert_eq!(fetched.visibility, Visibility::Public);
}

#[test]
fn fetch_by_key_of_missing_record_is_not_found() {
    let store = Store::new();
    let got: Result<Record, StorageError> = divlink::store::fetch_by_key(&store, 9999);
    assert_eq!(got, Err(StorageError::NotFound));
}

#[test]
fn record_with_unknown_owner_is_a_constraint_violation() {
    let mut store = Store::new();
    let got = Record::new(42, "orphan".to_string()).insert(&mut store);
    assert_eq!(got, Err(StorageError::ConstraintViolation));
    assert!(store.records.is_empty());
}

#[test]
fn builders_are_pure_copies() {
    let rec = Record::new(7, "alpha".to_string())
        .set_name("beta".to_string())
        .set_status(Status::Deleted)
        .set_visibility(Visibility::Public);
    assert_eq!(rec.uid, 7);
    assert_eq!(rec.name, "beta");
    assert_eq!(rec.status, Status::Deleted);
    assert_eq!(rec.visibility, Visibility::Public);
    assert_eq!(rec.id, None);
}

#[test]
fn item_builders_are_pure_copies() {
    let item = divlink::Item::new(3, "ticket".to_string());
    let public = item.private(Visibility::Public);
    let archived = public.with_status(Status::Archived);
    assert_eq!(item.visibility, Visibility::Private);
    assert_eq!(public.visibility, Visibility::Public);
    assert_eq!(archived.status, Status::Archived);
    assert_eq!(archived.name, "ticket");
    assert_eq!(archived.uid, 3);
}

#[test]
fn defaults_carry_the_unowned_sentinel() {
    let rec = Record::default();
    assert_eq!(rec.id, None);
    assert_eq!(rec.uid, -1);
    assert_eq!(rec.name, "");
    assert_eq!(rec.status, Status::Active);
    assert_eq!(rec.visibility, Visibility::Private);
    let item = divlink::Item::default();
    assert_eq!(item.uid, -1);
    assert_eq!(item.status, Status::Active);
}

#[test]
fn update_visibility_rewrites_the_stored_row() {
    let mut store = Store::new();
    User::new("u".to_string(), "u@example.org".to_string())
        .insert(&mut store)
        .unwrap();
    let stored = Record::new(1, "trip".to_string()).insert(&mut store).unwrap();
    let updated = stored
        .update_visibility(&mut store, Visibility::Public, 1)
        .unwrap();
    assert_eq!(updated.visibility, Visibility::Public);
    let fetched: Record = divlink::store::fetch_by_key(&store, 1).unwrap();
    assert_eq!(fetched.visibility, Visibility::Public);
}

#[test]
fn update_status_rewrites_the_stored_row() {
    let mut store = Store::new();
    User::new("u".to_string(), "u@example.org".to_string())
        .insert(&mut store)
        .unwrap();
    let stored = Record::new(1, "trip".to_string()).insert(&mut store).unwrap();
    let updated = stored.update_status(&mut store, Status::Deleted, 1).unwrap();
    assert_eq!(updated.status, Status::Deleted);
    let fetched: Record = divlink::store::fetch_by_key(&store, 1).unwrap();
    assert_eq!(fetched.status, Status::Deleted);
}

#[test]
fn update_of_missing_row_is_not_found() {
    let mut store = Store::new();
    let got = Record::default().update_visibility(&mut store, Visibility::Public, 5);
    assert_eq!(got, Err(StorageError::NotFound));
}

#[test]
fn update_by_id_moves_caller_fields_over() {
    let mut store = Store::new();
    User::new("u".to_string(), "u@example.org".to_string())
        .insert(&mut store)
        .unwrap();
    Record::new(1, "old".to_string()).insert(&mut store).unwrap();
    let replacement = Record::create(1, "new".to_string(), Status::Archived, Visibility::Public);
    let got = Record::update_by_id(&mut store, 1, replacement);
    assert_eq!(got, Ok(1));
    let fetched: Record = divlink::store::fetch_by_key(&store, 1).unwrap();
    assert_eq!(fetched.name, "new");
    assert_eq!(fetched.status, Status::Archived);
    assert_eq!(fetched.id, Some(1));
}

#[test]
fn update_by_id_rejects_an_unknown_owner() {
    let mut store = Store::new();
    User::new("u".to_string(), "u@example.org".to_string())
        .insert(&mut store)
        .unwrap();
    Record::new(1, "old".to_string()).insert(&mut store).unwrap();
    let replacement = Record::new(33, "new".to_string());
    let got = Record::update_by_id(&mut store, 1, replacement);
    assert_eq!(got, Err(StorageError::ConstraintViolation));
    let fetched: Record = divlink::store::fetch_by_key(&store, 1).unwrap();
    assert_eq!(fetched.name, "old");
}

#[test]
fn get_by_id_returns_zero_or_one_rows() {
    let mut store = Store::new();
    User::new("u".to_string(), "u@example.org".to_string())
        .insert(&mut store)
        .unwrap();
    Record::new(1, "trip".to_string()).insert(&mut store).unwrap();
    assert_eq!(Record::get_by_id(&store, 1).len(), 1);
    assert_eq!(Record::get_by_id(&store, 2).len(), 0);
}

#[test]
fn users_are_found_and_deleted_by_username() {
    let mut store = Store::new();
    User::new("ana".to_string(), "ana@example.org".to_string())
        .insert(&mut store)
        .unwrap();
    User::new("bob".to_string(), "bob@example.org".to_string())
        .insert(&mut store)
        .unwrap();
    let bob = User::get_by_username(&store, &"bob".to_string()).unwrap();
    assert_eq!(bob.id, Some(2));
    assert_eq!(
        User::get_by_username(&store, &"eve".to_string()),
        Err(StorageError::NotFound)
    );
    assert_eq!(User::delete_by_username(&mut store, &"bob".to_string()), Ok(2));
    assert_eq!(store.users.len(), 1);
    assert_eq!(
        User::delete_by_username(&mut store, &"bob".to_string()),
        Err(StorageError::NotFound)
    );
}

#[test]
fn deleting_an_owner_with_records_is_refused() {
    let mut store = Store::new();
    User::new("ana".to_string(), "ana@example.org".to_string())
        .insert(&mut store)
        .unwrap();
    Record::new(1, "trip".to_string()).insert(&mut store).unwrap();
    assert_eq!(
        User::delete_by_id(&mut store, 1),
        Err(StorageError::ConstraintViolation)
    );
    assert_eq!(store.users.len(), 1);
}

#[test]
fn get_all_returns_every_row_in_order() {
    let mut store = Store::new();
    User::new("ana".to_string(), "ana@example.org".to_string())
        .insert(&mut store)
        .unwrap();
    User::new("bob".to_string(), "bob@example.org".to_string())
        .insert(&mut store)
        .unwrap();
    let all = User::get_all(&store);
    assert_eq!(all.len(), 2);
    assert_eq!(all[0].username, "ana");
    assert_eq!(all[1].username, "bob");
}

#[test]
fn entity_contract_names_match_the_schema() {
    assert_eq!(User::table(), "Users");
    assert_eq!(User::foreign_id(), "uid");
    assert_eq!(
        User::fields(),
        vec!["id", "username", "email", "created_at"]
    );
    assert_eq!(Record::table(), "Records");
    assert_eq!(Record::foreign_id(), "rid");
    assert_eq!(
        Record::fields(),
        vec!["id", "uid", "name", "status", "visibility", "created_at"]
    );
    assert_eq!(divlink::Item::table(), "Items");
    assert_eq!(divlink::Item::foreign_id(), "item_id");
    assert_eq!(divlink::Group::table(), "Groups");
    assert_eq!(divlink::Group::foreign_id(), "group_id");
}

#[test]
fn error_descriptions_are_stable() {
    assert_eq!(StorageError::NotFound.describe(), "not found");
    assert_eq!(
        StorageError::ConstraintViolation.describe(),
        "constraint violation"
    );
    assert_eq!(
        StorageError::ConnectivityError.describe(),
        "connectivity error"
    );
}

#[test]
fn test_echo_returns_its_string() {
    let echo = divlink::TestEcho { num: 7, string: "pong".to_string() };
    assert_eq!(echo.body(), "pong");
    assert_eq!(echo.num, 7);
}
