use flightmngr::errors::ApiError;
use flightmngr::ids::format_id;
use flightmngr::planes::{create_plane, delete_plane, get_plane, list_planes, update_plane};
use flightmngr::store::{Datastore, Plane};

fn example_plane() -> Plane {
    Plane {
        id: 0,
        deleted: false,
        model: "Test Model".to_string(),
        cabin_capacity: 200,
        cargo_capacity_kg: 1000,
    }
}

#[test]
fn plane_lifecycle() {
    let mut db = Datastore::new();

    let created = create_plane(&mut db, example_plane()).unwrap();
    let id = format_id(created.id);
    assert_eq!(created.deleted, false);
    assert_eq!(created.model, "Test Model");
    assert_eq!(created.cabin_capacity, 200);
    assert_eq!(created.cargo_capacity_kg, 1000);

    let r = get_plane(&db, &id).unwrap();
    assert_eq!(r, created);

    delete_plane(&mut db, &id).unwrap();

    // soft-deleted: visible via get, flagged, filtered from the default list
    let r = get_plane(&db, &id).unwrap();
    assert_eq!(r.deleted, true);
    assert_eq!(list_planes(&db, false).len(), 0);
    assert_eq!(list_planes(&db, true).len(), 1);
}

#[test]
fn plane_update_applies_masked_fields_only() {
    let mut db = Datastore::new();

    let created = create_plane(&mut db, example_plane()).unwrap();
    let id = format_id(created.id);

    let patch = Plane {
        id: 0,
        deleted: true,
        model: "Other Model".to_string(),
        cabin_capacity: 300,
        cargo_capacity_kg: 2000,
    };
    let mask = Some(vec!["cabin_capacity".to_string()]);
    let r = update_plane(&mut db, &id, &patch, mask).unwrap();

    assert_eq!(r.cabin_capacity, 300);
    assert_eq!(r.model, "Test Model");
    assert_eq!(r.cargo_capacity_kg, 1000);
    assert_eq!(r.deleted, false);
}

#[test]
fn plane_update_rejects_unknown_path() {
    let mut db = Datastore::new();

    let created = create_plane(&mut db, example_plane()).unwrap();
    let id = format_id(created.id);

    let mask = Some(vec!["cabin_capacity".to_string(), "wingspan".to_string()]);
    let r = update_plane(&mut db, &id, &example_plane(), mask);
    assert!(matches!(r, Err(ApiError::InvalidArgument(_))));

    let fresh = get_plane(&db, &id).unwrap();
    assert_eq!(fresh, created);
}

#[test]
fn plane_update_missing_is_not_found() {
    let mut db = Datastore::new();

    let mask = Some(vec!["model".to_string()]);
    let r = update_plane(&mut db, "00000000-0000-0000-0000-000000000000", &example_plane(), mask);
    assert!(matches!(r, Err(ApiError::NotFound)));
}
