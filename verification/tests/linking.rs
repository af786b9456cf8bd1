use divlink::link::{add_link, complete_link, get_linked, junction, remove_link};
use divlink::{Group, Item, Link, Model, Pair, Record, StorageError, Store, User};

#[test]
fn junction_lookup_is_pure_and_idempotent() {
    for p in [Pair::RecordUser, Pair::RecordItem, Pair::RecordGroup] {
        let first = junction(p);
        let second = junction(p);
        assert_eq!(first.table, second.table);
        assert_eq!(first.left_col, second.left_col);
        assert_eq!(first.right_col, second.right_col);
    }
    let ru = junction(Pair::RecordUser);
    assert_eq!(ru.table, "UserRecordLinks");
    assert_eq!(ru.left_col, "rid");
    assert_eq!(ru.right_col, "uid");
    let ri = junction(Pair::RecordItem);
    assert_eq!(ri.table, "RecordItemLinks");
    assert_eq!(ri.left_col, "rid");
    assert_eq!(ri.right_col, "item_id");
    let rg = junction(Pair::RecordGroup);
    assert_eq!(rg.table, "RecordGroupLinks");
    assert_eq!(rg.left_col, "rid");
    assert_eq!(rg.right_col, "group_id");
}

#[test]
fn junction_columns_agree_with_the_entity_contracts() {
    assert_eq!(junction(Pair::RecordUser).left_col, Record::foreign_id());
    assert_eq!(junction(Pair::RecordUser).right_col, User::foreign_id());
    assert_eq!(junction(Pair::RecordItem).right_col, Item::foreign_id());
    assert_eq!(junction(Pair::RecordGroup).right_col, Group::foreign_id());
}

fn seeded_store() -> Store {
    let mut store = Store::new();
    User::new("alice".to_string(), "alice@example.org".to_string())
        .insert(&mut store)
        .unwrap();
    Record::new(1, "trip".to_string()).insert(&mut store).unwrap();
    store
}

#[test]
fn add_link_then_get_linked_includes_the_user() {
    let mut store = seeded_store();
    let link = add_link::<Record, User>(&mut store, 1, 1).unwrap();
    assert_eq!(link.left_id, Some(1));
    assert_eq!(link.right_id, Some(1));
    assert_eq!(link.id, Some(1));
    let linked = Record::get_linked_users(&store, 1);
    assert_eq!(linked.len(), 1);
    assert_eq!(linked[0].username, "alice");
}

#[test]
fn add_link_rejects_a_missing_endpoint() {
    let mut store = seeded_store();
    assert_eq!(
        add_link::<Record, User>(&mut store, 1, 9),
        Err(StorageError::ConstraintViolation)
    );
    assert_eq!(
        add_link::<Record, User>(&mut store, 9, 1),
        Err(StorageError::ConstraintViolation)
    );
    assert!(store.links.is_empty());
}

#[test]
fn concrete_scenario_new_item_under_a_record() {
    // a database mid-life: the key sequences stand at 1, 10 and 100
    let mut store = Store::with_sequence_start(1, 10, 100, 1, 1);
    let alice = User::new("alice".to_string(), "alice@example.org".to_string())
        .insert(&mut store)
        .unwrap();
    assert_eq!(alice.id, Some(1));
    let trip = Record::new(1, "trip".to_string()).insert(&mut store).unwrap();
    assert_eq!(trip.id, Some(10));
    let ticket = Record::add_new_item(&mut store, 10, "ticket".to_string()).unwrap();
    assert_eq!(ticket.id, Some(100));
    assert_eq!(ticket.uid, 10);
    assert_eq!(ticket.name, "ticket");
    assert_eq!(store.links.len(), 1);
    assert_eq!(store.links[0].left_id, Some(10));
    assert_eq!(store.links[0].right_id, Some(100));
    let linked = get_linked::<Record, Item>(&store, 10);
    assert_eq!(linked, vec![ticket]);
}

#[test]
fn add_new_item_is_atomic_on_failure() {
    let mut store = seeded_store();
    let got = Record::add_new_item(&mut store, 77, "ticket".to_string());
    assert_eq!(got, Err(StorageError::ConstraintViolation));
    assert!(store.items.is_empty());
    assert!(store.links.is_empty());
}

#[test]
fn add_existing_item_links_by_key() {
    let mut store = seeded_store();
    let item = Item::new(1, "ticket".to_string()).insert(&mut store).unwrap();
    let lid = Record::add_existing_item(&mut store, 1, item.id.unwrap()).unwrap();
    assert_eq!(lid, 1);
    let linked = get_linked::<Record, Item>(&store, 1);
    assert_eq!(linked.len(), 1);
    assert_eq!(linked[0].name, "ticket");
}

#[test]
fn reservation_with_one_side_persists_and_stays_unlisted() {
    let mut store = seeded_store();
    let lid = Link::new(Some(1), None)
        .insert::<Record, Item>(&mut store)
        .unwrap();
    assert_eq!(lid, 1);
    assert_eq!(store.links.len(), 1);
    assert_eq!(store.links[0].right_id, None);
    // excluded from every query that requires both sides populated
    assert!(get_linked::<Record, Item>(&store, 1).is_empty());
}

#[test]
fn completing_a_reservation_makes_it_listed() {
    let mut store = seeded_store();
    let item = Item::new(1, "ticket".to_string()).insert(&mut store).unwrap();
    let lid = Link::new(Some(1), None)
        .insert::<Record, Item>(&mut store)
        .unwrap();
    assert_eq!(
        complete_link::<Record, Item>(&mut store, lid, item.id.unwrap()),
        Ok(())
    );
    let linked = get_linked::<Record, Item>(&store, 1);
    assert_eq!(linked.len(), 1);
    assert_eq!(linked[0].name, "ticket");
    // a complete link is never mutated again
    assert_eq!(
        complete_link::<Record, Item>(&mut store, lid, item.id.unwrap()),
        Err(StorageError::ConstraintViolation)
    );
}

#[test]
fn completing_with_a_missing_endpoint_is_refused() {
    let mut store = seeded_store();
    let lid = Link::new(Some(1), None)
        .insert::<Record, Item>(&mut store)
        .unwrap();
    assert_eq!(
        complete_link::<Record, Item>(&mut store, lid, 404),
        Err(StorageError::ConstraintViolation)
    );
    assert_eq!(
        complete_link::<Record, Item>(&mut store, 55, 1),
        Err(StorageError::NotFound)
    );
}

#[test]
fn deleting_a_record_cascades_its_links() {
    let mut store = seeded_store();
    Item::new(1, "ticket".to_string()).insert(&mut store).unwrap();
    add_link::<Record, User>(&mut store, 1, 1).unwrap();
    Record::add_existing_item(&mut store, 1, 1).unwrap();
    assert_eq!(store.links.len(), 2);
    assert_eq!(Record::delete_by_id(&mut store, 1), Ok(1));
    assert!(store.records.is_empty());
    // every junction row anchored at the deleted record is gone
    assert!(store.links.is_empty());
    assert_eq!(
        Record::delete_by_id(&mut store, 1),
        Err(StorageError::NotFound)
    );
}

#[test]
fn deleting_a_user_cascades_its_user_side_links() {
    let mut store = seeded_store();
    add_link::<Record, User>(&mut store, 1, 1).unwrap();
    // the record still owns the user: refused, nothing changes
    assert_eq!(
        User::delete_by_id(&mut store, 1),
        Err(StorageError::ConstraintViolation)
    );
    assert_eq!(store.links.len(), 1);
    Record::delete_by_id(&mut store, 1).unwrap();
    assert!(store.links.is_empty());
    assert_eq!(User::delete_by_id(&mut store, 1), Ok(1));
    assert!(store.users.is_empty());
}

#[test]
fn remove_link_unlinks_exactly_one_row() {
    let mut store = seeded_store();
    Item::new(1, "a".to_string()).insert(&mut store).unwrap();
    Item::new(1, "b".to_string()).insert(&mut store).unwrap();
    let first = Record::add_existing_item(&mut store, 1, 1).unwrap();
    Record::add_existing_item(&mut store, 1, 2).unwrap();
    assert_eq!(remove_link::<Record, Item>(&mut store, first), Ok(first));
    let linked = get_linked::<Record, Item>(&store, 1);
    assert_eq!(linked.len(), 1);
    assert_eq!(linked[0].name, "b");
    assert_eq!(
        remove_link::<Record, Item>(&mut store, first),
        Err(StorageError::NotFound)
    );
}

#[test]
fn duplicate_links_are_permitted() {
    let mut store = seeded_store();
    add_link::<Record, User>(&mut store, 1, 1).unwrap();
    add_link::<Record, User>(&mut store, 1, 1).unwrap();
    assert_eq!(Record::get_linked_users(&store, 1).len(), 2);
}

#[test]
fn groups_link_like_any_pair() {
    let mut store = seeded_store();
    let band = Group::new("band".to_string()).insert(&mut store).unwrap();
    add_link::<Record, Group>(&mut store, 1, band.id.unwrap()).unwrap();
    let linked = get_linked::<Record, Group>(&store, 1);
    assert_eq!(linked.len(), 1);
    assert_eq!(linked[0].name, "band");
}

#[test]
fn completing_a_right_only_reservation_fills_the_left_side() {
    let mut store = seeded_store();
    let item = Item::new(1, "ticket".to_string()).insert(&mut store).unwrap();
    // the item is reserved before any record claims it
    let lid = Link::new(None, item.id)
        .insert::<Record, Item>(&mut store)
        .unwrap();
    assert!(get_linked::<Record, Item>(&store, 1).is_empty());
    assert_eq!(complete_link::<Record, Item>(&mut store, lid, 1), Ok(()));
    let linked = get_linked::<Record, Item>(&store, 1);
    assert_eq!(linked.len(), 1);
    assert_eq!(linked[0].name, "ticket");
}

#[test]
fn deleting_an_item_cascades_its_item_side_links() {
    let mut store = seeded_store();
    Item::new(1, "ticket".to_string()).insert(&mut store).unwrap();
    Record::add_existing_item(&mut store, 1, 1).unwrap();
    add_link::<Record, User>(&mut store, 1, 1).unwrap();
    assert_eq!(Item::delete_by_id(&mut store, 1), Ok(1));
    assert!(store.items.is_empty());
    // only the item-side junction row is gone; the user link stays
    assert_eq!(store.links.len(), 1);
    assert_eq!(store.links[0].pair, Pair::RecordUser);
    assert_eq!(
        Item::delete_by_id(&mut store, 1),
        Err(StorageError::NotFound)
    );
}

#[test]
fn deleting_a_group_cascades_its_group_side_links() {
    let mut store = seeded_store();
    let band = Group::new("band".to_string()).insert(&mut store).unwrap();
    add_link::<Record, Group>(&mut store, 1, band.id.unwrap()).unwrap();
    assert_eq!(Group::delete_by_id(&mut store, band.id.unwrap()), Ok(1));
    assert!(store.groups.is_empty());
    assert!(store.links.is_empty());
}
