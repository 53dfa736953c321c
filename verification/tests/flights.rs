use flightmngr::airports::create_airport;
use flightmngr::errors::ApiError;
use flightmngr::flights::{
    create_flight, get_flight, list_flights, search_flights, update_flight, StatusEventInput,
};
use flightmngr::ids::format_id;
use flightmngr::planes::create_plane;
use flightmngr::projection::StatusEvent;
use flightmngr::store::{Airport, Datastore, Plane};
use flightmngr::timestamp::Timestamp;

fn default_plane() -> Plane {
    Plane {
        id: 0,
        deleted: false,
        model: "Test Model".to_string(),
        cabin_capacity: 200,
        cargo_capacity_kg: 1000,
    }
}

fn default_airport() -> Airport {
    Airport {
        id: 0,
        deleted: false,
        name: "Test Airport".to_string(),
        city: "Test City".to_string(),
        country: "Test Country".to_string(),
        iata: "TST".to_string(),
        icao: "TSTT".to_string(),
    }
}

fn ts(seconds: i64) -> Timestamp {
    Timestamp { seconds, nanos: 0 }
}

/// A store holding one flight between two fresh airports; hands back
/// (store, plane id, origin id, destination id, flight id) as wire strings.
fn store_with_flight(
    departure: Timestamp,
    arrival: Timestamp,
) -> (Datastore, String, String, String, String) {
    let mut db = Datastore::new();
    let airport1 = create_airport(&mut db, default_airport()).unwrap();
    let airport2 = create_airport(&mut db, default_airport()).unwrap();
    let plane = create_plane(&mut db, default_plane()).unwrap();
    let flight = create_flight(
        &mut db,
        &format_id(plane.id),
        &format_id(airport1.id),
        &format_id(airport2.id),
        Some(departure),
        Some(arrival),
    )
    .unwrap();
    let fid = format_id(flight.id);
    (db, format_id(plane.id), format_id(airport1.id), format_id(airport2.id), fid)
}

#[test]
fn creation() {
    let mut db = Datastore::new();

    let airport1 = create_airport(&mut db, default_airport()).unwrap();
    let airport2 = create_airport(&mut db, default_airport()).unwrap();
    let plane = create_plane(&mut db, default_plane()).unwrap();

    let flight = create_flight(
        &mut db,
        &format_id(plane.id),
        &format_id(airport1.id),
        &format_id(airport2.id),
        Some(ts(0)),
        Some(ts(0)),
    )
    .unwrap();

    let r = get_flight(&db, &format_id(flight.id)).unwrap();

    assert_eq!(r, flight);
}

#[test]
fn search() {
    let mut db = Datastore::new();

    let airport1 = create_airport(&mut db, default_airport()).unwrap();
    let airport2 = create_airport(&mut db, default_airport()).unwrap();
    let plane = create_plane(&mut db, default_plane()).unwrap();

    let flight = create_flight(
        &mut db,
        &format_id(plane.id),
        &format_id(airport1.id),
        &format_id(airport2.id),
        Some(ts(0)),
        Some(ts(0)),
    )
    .unwrap();

    // successful search
    let r = search_flights(&db, &format_id(airport1.id), &format_id(airport2.id), Some(ts(0)))
        .unwrap();

    assert_eq!(r.len(), 1);
    assert_eq!(r[0], flight);

    // unsuccessful search, wrong airports
    let r = search_flights(&db, &format_id(airport2.id), &format_id(airport1.id), Some(ts(0)))
        .unwrap();

    assert_eq!(r.len(), 0);

    // unsuccessful search, wrong date
    let r = search_flights(
        &db,
        &format_id(airport1.id),
        &format_id(airport2.id),
        Some(ts(2 * 24 * 3600)),
    )
    .unwrap();

    assert_eq!(r.len(), 0);
}

#[test]
fn search_day_containment() {
    // departure at noon of day one is found for any instant of day one
    let (db, _, origin, destination, fid) = store_with_flight(ts(86400 + 43200), ts(86400 + 50000));

    let r = search_flights(&db, &origin, &destination, Some(ts(86400))).unwrap();
    assert_eq!(r.len(), 1);
    assert_eq!(format_id(r[0].id), fid);

    let r = search_flights(&db, &origin, &destination, Some(ts(2 * 86400 - 1))).unwrap();
    assert_eq!(r.len(), 1);

    // the neighbouring days find nothing
    let r = search_flights(&db, &origin, &destination, Some(ts(86400 - 1))).unwrap();
    assert_eq!(r.len(), 0);
    let r = search_flights(&db, &origin, &destination, Some(ts(2 * 86400))).unwrap();
    assert_eq!(r.len(), 0);
}

#[test]
fn projection_is_idempotent() {
    let (mut db, _, _, _, fid) = store_with_flight(ts(0), ts(7200));

    update_flight(
        &mut db,
        &fid,
        Some(StatusEventInput::GateDeparture { gate: "A1".to_string() }),
        ts(10),
    )
    .unwrap();

    // the view is recomputed on every read and comes out identical
    let v1 = get_flight(&db, &fid).unwrap();
    let v2 = get_flight(&db, &fid).unwrap();
    assert_eq!(v1, v2);
}

#[test]
fn empty_streams_leave_fields_absent() {
    let (db, _, _, _, fid) = store_with_flight(ts(0), ts(7200));

    let v = get_flight(&db, &fid).unwrap();
    assert_eq!(v.is_cancelled, false);
    assert_eq!(v.expected_departure_time, None);
    assert_eq!(v.expected_arrival_time, None);
    assert_eq!(v.departure_gate, None);
    assert_eq!(v.arrival_gate, None);
    assert_eq!(v.status_events.len(), 0);
}

#[test]
fn latest_delay_wins() {
    let (mut db, _, _, _, fid) = store_with_flight(ts(0), ts(7200));

    // first delay at t1
    update_flight(
        &mut db,
        &fid,
        Some(StatusEventInput::Delayed {
            departure_time: Some(ts(1000)),
            arrival_time: Some(ts(9000)),
        }),
        ts(100),
    )
    .unwrap();

    // second delay at t2 > t1
    let v = update_flight(
        &mut db,
        &fid,
        Some(StatusEventInput::Delayed {
            departure_time: Some(ts(2000)),
            arrival_time: Some(ts(9500)),
        }),
        ts(200),
    )
    .unwrap();

    assert_eq!(v.expected_departure_time, Some(ts(2000)));
    assert_eq!(v.expected_arrival_time, Some(ts(9500)));
}

#[test]
fn last_gate_event_wins() {
    let (mut db, _, _, _, fid) = store_with_flight(ts(0), ts(7200));

    update_flight(
        &mut db,
        &fid,
        Some(StatusEventInput::GateDeparture { gate: "G1".to_string() }),
        ts(10),
    )
    .unwrap();
    update_flight(
        &mut db,
        &fid,
        Some(StatusEventInput::GateDeparture { gate: "G2".to_string() }),
        ts(20),
    )
    .unwrap();

    let v = get_flight(&db, &fid).unwrap();
    assert_eq!(v.departure_gate, Some("G2".to_string()));

    // the history keeps both entries
    assert_eq!(v.status_events.len(), 2);
    assert_eq!(v.status_events[0].event, StatusEvent::GateDeparture { gate: "G1".to_string() });
    assert_eq!(v.status_events[1].event, StatusEvent::GateDeparture { gate: "G2".to_string() });
}

#[test]
fn cancellation_marks_flight_and_filters_list() {
    let (mut db, _, _, _, fid) = store_with_flight(ts(0), ts(7200));

    let all = list_flights(&db, true);
    assert_eq!(all.len(), 1);
    let live = list_flights(&db, false);
    assert_eq!(live.len(), 1);

    let v = update_flight(
        &mut db,
        &fid,
        Some(StatusEventInput::Cancelled { reason: "weather".to_string() }),
        ts(50),
    )
    .unwrap();
    assert_eq!(v.is_cancelled, true);

    // the cancelled flight stays in the full list and leaves the default one
    let all = list_flights(&db, true);
    assert_eq!(all.len(), 1);
    assert_eq!(all[0].is_cancelled, true);
    let live = list_flights(&db, false);
    assert_eq!(live.len(), 0);
}

#[test]
fn update_flight_requires_event() {
    let (mut db, _, _, _, fid) = store_with_flight(ts(0), ts(7200));

    let r = update_flight(&mut db, &fid, None, ts(1));
    assert!(matches!(r, Err(ApiError::InvalidArgument(_))));
}

#[test]
fn delayed_event_requires_timestamps() {
    let (mut db, _, _, _, fid) = store_with_flight(ts(0), ts(7200));

    let r = update_flight(
        &mut db,
        &fid,
        Some(StatusEventInput::Delayed { departure_time: None, arrival_time: Some(ts(1)) }),
        ts(1),
    );
    assert!(matches!(r, Err(ApiError::InvalidArgument(_))));

    // the rejected event left no trace
    let v = get_flight(&db, &fid).unwrap();
    assert_eq!(v.status_events.len(), 0);
}

#[test]
fn update_missing_flight_is_not_found() {
    let mut db = Datastore::new();

    let r = update_flight(
        &mut db,
        "00000000-0000-0000-0000-000000000000",
        Some(StatusEventInput::GateArrival { gate: "B2".to_string() }),
        ts(1),
    );
    assert!(matches!(r, Err(ApiError::NotFound)));
}

#[test]
fn create_flight_checks_references() {
    let mut db = Datastore::new();
    let plane = create_plane(&mut db, default_plane()).unwrap();

    // airports missing: the referential guard trips
    let r = create_flight(
        &mut db,
        &format_id(plane.id),
        "00000000-0000-0000-0000-000000000000",
        "00000000-0000-0000-0000-000000000000",
        Some(ts(0)),
        Some(ts(0)),
    );
    assert!(matches!(r, Err(ApiError::Internal(_))));
}

#[test]
fn create_flight_requires_timestamps() {
    let mut db = Datastore::new();
    let airport1 = create_airport(&mut db, default_airport()).unwrap();
    let airport2 = create_airport(&mut db, default_airport()).unwrap();
    let plane = create_plane(&mut db, default_plane()).unwrap();

    let r = create_flight(
        &mut db,
        &format_id(plane.id),
        &format_id(airport1.id),
        &format_id(airport2.id),
        None,
        Some(ts(0)),
    );
    assert!(matches!(r, Err(ApiError::InvalidArgument(_))));
}
