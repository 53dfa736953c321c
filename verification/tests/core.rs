use flightmngr::config::{default_port, default_rabbitmq_port};
use flightmngr::errors::{ApiError, QueryError};
use flightmngr::ids::{format_id, parse_id};
use flightmngr::notifier::{
    backoff_delay_ms, connect_started, exchange_declaration, notify_result, on_connect_outcome,
    ConnectAction, NotifierState,
};
use flightmngr::projection::{FlightData, FlightView};
use flightmngr::store::{EventGateDepartureSet, Flight};
use flightmngr::timestamp::{
    day_of_timestamp, parse_timestamp, Timestamp, MAX_TIMESTAMP_SECONDS, MIN_TIMESTAMP_SECONDS,
};

fn ts(seconds: i64, nanos: i32) -> Timestamp {
    Timestamp { seconds, nanos }
}

#[test]
fn id_round_trip() {
    let rendered = format_id(42);
    assert_eq!(rendered.len(), 36);
    assert_ne!(rendered, "42");
    assert_eq!(parse_id(&rendered).unwrap(), 42);

    // the canonical hyphenated rendering of a known value
    assert_eq!(format_id(0xa1a2a3a4b1b2c1c2d1d2d3d4d5d6d7d8), "a1a2a3a4-b1b2-c1c2-d1d2-d3d4d5d6d7d8");
    assert_eq!(parse_id("a1a2a3a4-b1b2-c1c2-d1d2-d3d4d5d6d7d8").unwrap(), 0xa1a2a3a4b1b2c1c2d1d2d3d4d5d6d7d8);

    assert!(matches!(parse_id(""), Err(ApiError::InvalidArgument(_))));
    assert!(matches!(parse_id("zz"), Err(ApiError::InvalidArgument(_))));
}

#[test]
fn timestamp_parsing_normalizes() {
    // already normalized
    assert_eq!(parse_timestamp(Some(ts(5, 7))).unwrap(), ts(5, 7));

    // a negative remainder borrows from the seconds
    assert_eq!(parse_timestamp(Some(ts(5, -1))).unwrap(), ts(4, 999_999_999));

    // an oversized remainder carries into the seconds
    assert_eq!(parse_timestamp(Some(ts(5, 2_000_000_001))).unwrap(), ts(7, 1));

    // missing or unrepresentable input is rejected
    assert!(matches!(parse_timestamp(None), Err(ApiError::InvalidArgument(_))));
    assert!(matches!(
        parse_timestamp(Some(ts(MAX_TIMESTAMP_SECONDS + 1, 0))),
        Err(ApiError::InvalidArgument(_))
    ));
    assert!(matches!(
        parse_timestamp(Some(ts(MIN_TIMESTAMP_SECONDS - 1, 0))),
        Err(ApiError::InvalidArgument(_))
    ));

    // the boundaries themselves are fine
    assert_eq!(parse_timestamp(Some(ts(MAX_TIMESTAMP_SECONDS, 0))).unwrap(), ts(MAX_TIMESTAMP_SECONDS, 0));
    assert_eq!(parse_timestamp(Some(ts(MIN_TIMESTAMP_SECONDS, 0))).unwrap(), ts(MIN_TIMESTAMP_SECONDS, 0));
}

#[test]
fn calendar_days_floor() {
    assert_eq!(day_of_timestamp(&ts(0, 0)), 0);
    assert_eq!(day_of_timestamp(&ts(86_399, 0)), 0);
    assert_eq!(day_of_timestamp(&ts(86_400, 0)), 1);
    assert_eq!(day_of_timestamp(&ts(-1, 0)), -1);
    assert_eq!(day_of_timestamp(&ts(-86_400, 0)), -1);
    assert_eq!(day_of_timestamp(&ts(-86_401, 0)), -2);
}

#[test]
fn error_messages() {
    assert_eq!(ApiError::NotFound.status_message(), "could not find specified resource");
    assert_eq!(
        ApiError::InvalidArgument("'id'".to_string()).status_message(),
        "'id'"
    );
    // the internal detail never reaches the caller
    assert_eq!(
        ApiError::Internal("connection pool exhausted".to_string()).status_message(),
        "internal error"
    );
}

#[test]
fn affected_row_counts() {
    assert!(matches!(QueryError::ensure_single_affected(0), Err(QueryError::NotFound)));
    assert!(matches!(QueryError::ensure_single_affected(1), Ok(())));
    assert!(matches!(QueryError::ensure_single_affected(2), Err(QueryError::Unexpected(_))));
}

#[test]
fn projecting_twice_is_identical() {
    let flight = Flight {
        id: 7,
        plane_id: 1,
        origin_id: 2,
        destination_id: 3,
        departure_time: ts(1000, 0),
        arrival_time: ts(2000, 0),
    };
    let data = FlightData(
        flight,
        vec![],
        vec![],
        vec![
            EventGateDepartureSet { flight_id: 7, timestamp: ts(10, 0), gate: "C3".to_string() },
        ],
        vec![],
    );
    let v1: FlightView = data.project();
    let v2: FlightView = data.project();
    assert_eq!(v1, v2);
    assert_eq!(v1.departure_gate, Some("C3".to_string()));
}

#[test]
fn backoff_doubles_to_ceiling() {
    assert_eq!(backoff_delay_ms(0), 1000);
    assert_eq!(backoff_delay_ms(1), 2000);
    assert_eq!(backoff_delay_ms(2), 4000);
    assert_eq!(backoff_delay_ms(5), 32_000);
    assert_eq!(backoff_delay_ms(6), 60_000);
    assert_eq!(backoff_delay_ms(7), 60_000);
}

#[test]
fn connection_retries_are_bounded() {
    let mut s = connect_started();
    let mut retries = 0;
    loop {
        let (next, action) = on_connect_outcome(&s, false);
        s = next;
        match action {
            ConnectAction::RetryAfter { delay_ms } => {
                assert!(delay_ms >= 1000 && delay_ms <= 60_000);
                retries += 1;
            }
            ConnectAction::GiveUp => break,
            ConnectAction::Proceed => panic!("a failed attempt cannot connect"),
        }
    }
    assert_eq!(retries, 10);
    assert_eq!(s, NotifierState::Failed);

    // a success connects at once
    let s = connect_started();
    let (next, action) = on_connect_outcome(&s, true);
    assert_eq!(next, NotifierState::Connected);
    assert_eq!(action, ConnectAction::Proceed);
}

#[test]
fn exchange_is_durable() {
    let e = exchange_declaration("flight-update".to_string(), "fanout".to_string());
    assert_eq!(e.name, "flight-update");
    assert_eq!(e.kind, "fanout");
    assert!(e.durable);
    assert!(!e.auto_delete);
}

#[test]
fn publish_failure_is_internal_and_keeps_nothing_back() {
    let view = FlightView {
        id: 1,
        plane_id: 2,
        origin_id: 3,
        destination_id: 4,
        departure_time: ts(0, 0),
        arrival_time: ts(0, 0),
        status_events: vec![],
        is_cancelled: false,
        expected_departure_time: None,
        expected_arrival_time: None,
        departure_gate: None,
        arrival_gate: None,
    };
    let ok = notify_result(view.clone(), true).unwrap();
    assert_eq!(ok, view);

    let r = notify_result(view, false);
    assert!(matches!(r, Err(ApiError::Internal(_))));
}

#[test]
fn default_ports() {
    assert_eq!(default_port(), 50051);
    assert_eq!(default_rabbitmq_port(), 5672);
}
