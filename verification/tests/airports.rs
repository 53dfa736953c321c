use flightmngr::airports::{
    create_airport, delete_airport, get_airport, list_airports, update_airport,
};
use flightmngr::errors::ApiError;
use flightmngr::ids::format_id;
use flightmngr::store::{Airport, Datastore};

fn example_airport_1() -> Airport {
    Airport {
        name: "Test Airport 1".to_string(),
        city: "Test City 1".to_string(),
        country: "Test Country 1".to_string(),
        iata: "TST".to_string(),
        icao: "TSTT".to_string(),
        id: 0,
        deleted: false,
    }
}

fn example_airport_2() -> Airport {
    Airport {
        name: "Test Airport 2".to_string(),
        city: "Test City 2".to_string(),
        country: "Test Country 2".to_string(),
        iata: "TSS".to_string(),
        icao: "TSST".to_string(),
        id: 0,
        deleted: false,
    }
}

#[test]
fn list_create_get() {
    let mut db = Datastore::new();

    // list empty
    let r = list_airports(&db, true);
    assert_eq!(r.len(), 0);

    // create
    let r = create_airport(&mut db, example_airport_1()).unwrap();
    let id = format_id(r.id);
    assert_ne!(id, "");
    assert_eq!(r.deleted, false);
    assert_eq!(r.name, "Test Airport 1");
    assert_eq!(r.city, "Test City 1");

    // list 1
    let r = list_airports(&db, false);
    assert_eq!(r.len(), 1);
    assert_eq!(format_id(r[0].id), id);

    // get
    let r = get_airport(&db, &id).unwrap();
    assert_eq!(format_id(r.id), id);
    assert_eq!(r.name, "Test Airport 1");
    assert_eq!(r.city, "Test City 1");
}

#[test]
fn not_found() {
    let db = Datastore::new();

    // get missing
    let r = get_airport(&db, "00000000-0000-0000-0000-000000000000");

    assert!(r.is_err_and(|e| matches!(e, ApiError::NotFound)));
}

#[test]
fn delete() {
    let mut db = Datastore::new();

    // create
    let r = create_airport(&mut db, example_airport_1()).unwrap();

    let id = format_id(r.id);
    assert_eq!(r.deleted, false);

    // delete
    let _ = delete_airport(&mut db, &id).unwrap();

    // get
    let r = get_airport(&db, &id).unwrap();

    assert_eq!(format_id(r.id), id);
    assert_eq!(r.deleted, true);
}

#[test]
fn show_deleted() {
    let mut db = Datastore::new();

    // create first
    let r = create_airport(&mut db, example_airport_1()).unwrap();
    let id1 = format_id(r.id);

    // create second
    let r = create_airport(&mut db, example_airport_2()).unwrap();
    let id2 = format_id(r.id);

    // list all
    let r = list_airports(&db, false);
    assert_eq!(r.len(), 2);
    assert!(r.iter().all(|a| !a.deleted));

    // list
    let r = list_airports(&db, true);
    assert_eq!(r.len(), 2);

    // delete first
    let _ = delete_airport(&mut db, &id1).unwrap();

    // list
    let r = list_airports(&db, false);
    assert_eq!(r.len(), 1);
    assert_eq!(format_id(r[0].id), id2);
    assert!(r.iter().all(|a| !a.deleted));

    // list deleted
    let r = list_airports(&db, true);
    assert_eq!(r.len(), 2);

    // delete second
    let _ = delete_airport(&mut db, &id2).unwrap();

    // list
    let r = list_airports(&db, false);
    assert_eq!(r.len(), 0);
    assert!(r.iter().all(|a| !a.deleted));

    // list deleted
    let r = list_airports(&db, true);
    assert_eq!(r.len(), 2);
    assert!(r.iter().all(|a| a.deleted));
}

#[test]
fn malformed_id_is_invalid_argument() {
    let mut db = Datastore::new();

    let r = get_airport(&db, "not-a-uuid");
    assert!(matches!(r, Err(ApiError::InvalidArgument(_))));

    let r = delete_airport(&mut db, "not-a-uuid");
    assert!(matches!(r, Err(ApiError::InvalidArgument(_))));
}

#[test]
fn delete_missing_is_not_found() {
    let mut db = Datastore::new();

    let r = delete_airport(&mut db, "00000000-0000-0000-0000-000000000000");
    assert!(matches!(r, Err(ApiError::NotFound)));
}

#[test]
fn update_applies_masked_fields_only() {
    let mut db = Datastore::new();

    let created = create_airport(&mut db, example_airport_1()).unwrap();
    let id = format_id(created.id);

    let patch = example_airport_2();
    let mask = Some(vec!["name".to_string(), "city".to_string()]);
    let r = update_airport(&mut db, &id, &patch, mask).unwrap();

    // masked fields took the payload values
    assert_eq!(r.name, "Test Airport 2");
    assert_eq!(r.city, "Test City 2");
    // unmasked fields kept their values
    assert_eq!(r.country, "Test Country 1");
    assert_eq!(r.iata, "TST");
    assert_eq!(r.icao, "TSTT");
    assert_eq!(r.id, created.id);
    assert_eq!(r.deleted, false);

    // the update is durable
    let fresh = get_airport(&db, &id).unwrap();
    assert_eq!(fresh, r);
}

#[test]
fn empty_mask_is_invalid_argument() {
    let mut db = Datastore::new();

    let created = create_airport(&mut db, example_airport_1()).unwrap();
    let id = format_id(created.id);

    let r = update_airport(&mut db, &id, &example_airport_2(), Some(vec![]));
    assert!(matches!(r, Err(ApiError::InvalidArgument(_))));

    let r = update_airport(&mut db, &id, &example_airport_2(), None);
    assert!(matches!(r, Err(ApiError::InvalidArgument(_))));

    // nothing changed
    let fresh = get_airport(&db, &id).unwrap();
    assert_eq!(fresh, created);
}

#[test]
fn unknown_path_changes_zero_rows() {
    let mut db = Datastore::new();

    let created = create_airport(&mut db, example_airport_1()).unwrap();
    let id = format_id(created.id);

    // a valid path first, then an unknown one: the whole request aborts
    let mask = Some(vec!["name".to_string(), "runways".to_string()]);
    let r = update_airport(&mut db, &id, &example_airport_2(), mask);
    assert!(matches!(r, Err(ApiError::InvalidArgument(_))));

    // follow-up get: zero rows changed, the valid path was not applied
    let fresh = get_airport(&db, &id).unwrap();
    assert_eq!(fresh, created);
}
