//! The flight service: list, search, get, create, and the status-event
//! append, each over wire-shaped inputs and each answering with the
//! re-projected current-state view.

use vstd::prelude::*;

use crate::errors::ApiError;
use crate::ids::{parse_id, uuid_parse};
use crate::projection::{
    flight_data_of, flights_data_seq, load_flights_data, projection, projection_fn, views_of,
    FlightData, FlightDataModel, FlightView,
};
use crate::store::{
    cancellation_flight_of, delay_flight_of, filter_rows, find_by, flight_not_cancelled,
    flight_refs_ok, flight_search_hit, flight_with_id, gate_flight_of, lemma_filter_rows_none,
    Datastore, EventCancelledModel, EventDelayed, Flight, GateEventModel,
};
use crate::timestamp::{normalized, parse_timestamp, parse_timestamp_ok, ts_well_formed, Timestamp};

verus! {

/// A requested lifecycle event, as it arrives on the wire.
#[derive(Debug, PartialEq, Eq)]
pub enum StatusEventInput {
    Cancelled { reason: String },
    Delayed { departure_time: Option<Timestamp>, arrival_time: Option<Timestamp> },
    GateDeparture { gate: String },
    GateArrival { gate: String },
}

/// Mathematical value of [`StatusEventInput`].
pub enum StatusEventInputModel {
    Cancelled { reason: Seq<char> },
    Delayed { departure_time: Option<Timestamp>, arrival_time: Option<Timestamp> },
    GateDeparture { gate: Seq<char> },
    GateArrival { gate: Seq<char> },
}

impl View for StatusEventInput {
    type V = StatusEventInputModel;

    open spec fn view(&self) -> StatusEventInputModel {
        match self {
            StatusEventInput::Cancelled { reason } => StatusEventInputModel::Cancelled {
                reason: reason@,
            },
            StatusEventInput::Delayed { departure_time, arrival_time } => {
                StatusEventInputModel::Delayed {
                    departure_time: *departure_time,
                    arrival_time: *arrival_time,
                }
            },
            StatusEventInput::GateDeparture { gate } => StatusEventInputModel::GateDeparture {
                gate: gate@,
            },
            StatusEventInput::GateArrival { gate } => StatusEventInputModel::GateArrival {
                gate: gate@,
            },
        }
    }
}

impl DeepView for StatusEventInput {
    type V = StatusEventInputModel;

    open spec fn deep_view(&self) -> StatusEventInputModel {
        self@
    }
}

/// Projects every element of a batch.
fn project_all(data: Vec<FlightData>) -> (r: Vec<FlightView>)
    ensures
        r.deep_view() == views_of(data.deep_view()),
{
    let mut out: Vec<FlightView> = Vec::new();
    let mut i: usize = 0;
    proof {
        assert(out.deep_view() =~= views_of(data.deep_view().subrange(0, 0)));
    }
    while i < data.len()
        invariant
            i <= data.len(),
            out.deep_view() == views_of(data.deep_view().subrange(0, i as int)),
        decreases data.len() - i,
    {
        let ghost out0 = out.deep_view();
        let v = data[i].project();
        out.push(v);
        proof {
            assert(out.deep_view() =~= out0.push(projection(data.deep_view()[i as int])));
            assert(out.deep_view() =~= views_of(data.deep_view().subrange(0, i as int + 1)));
        }
        i += 1;
    }
    proof {
        assert(data.deep_view().subrange(0, data.len() as int) =~= data.deep_view());
    }
    out
}

/// The views of all flights, with or without the cancelled ones.
pub fn list_flights(db: &Datastore, include_cancelled: bool) -> (r: Vec<FlightView>)
    ensures
        include_cancelled ==> r.deep_view() == views_of(flights_data_seq(*db, db.flights_m())),
        !include_cancelled ==> r.deep_view() == views_of(
            flights_data_seq(
                *db,
                filter_rows(db.flights_m(), flight_not_cancelled(db.cancellations_m())),
            ),
        ),
{
    let rows = if include_cancelled {
        db.list_flights_with_cancelled()
    } else {
        db.list_flights()
    };
    proof {
        assert(rows@ =~= rows.deep_view());
    }
    let data = load_flights_data(db, rows);
    project_all(data)
}

/// The views of the flights from one airport to another departing on the
/// same calendar day as the given instant; each input is validated first.
pub fn search_flights(
    db: &Datastore,
    origin_id: &str,
    destination_id: &str,
    departure_day: Option<Timestamp>,
) -> (r: Result<Vec<FlightView>, ApiError>)
    requires
        db.wf(),
    ensures
        uuid_parse(origin_id@) is None ==> (r matches Err(e) && e is InvalidArgument),
        uuid_parse(origin_id@) is Some && uuid_parse(destination_id@) is None ==> (r matches Err(e)
            && e is InvalidArgument),
        uuid_parse(origin_id@) is Some && uuid_parse(destination_id@) is Some && !parse_timestamp_ok(
            departure_day,
        ) ==> (r matches Err(e) && e is InvalidArgument),
        uuid_parse(origin_id@) matches Some(o) ==> (uuid_parse(destination_id@) matches Some(d)
            ==> (parse_timestamp_ok(departure_day) ==> (r matches Ok(v) && v.deep_view()
            == views_of(
            flights_data_seq(
                *db,
                filter_rows(
                    db.flights_m(),
                    flight_search_hit(o, d, normalized(departure_day->Some_0)),
                ),
            ),
        )))),
{
    let o = match parse_id(origin_id) {
        Ok(v) => v,
        Err(e) => {
            return Err(e);
        },
    };
    let d = match parse_id(destination_id) {
        Ok(v) => v,
        Err(e) => {
            return Err(e);
        },
    };
    let day = match parse_timestamp(departure_day) {
        Ok(t) => t,
        Err(e) => {
            return Err(e);
        },
    };
    let rows = db.search_flights(o, d, day);
    proof {
        assert(rows@ =~= rows.deep_view());
    }
    let data = load_flights_data(db, rows);
    Ok(project_all(data))
}

/// The view of one flight, looked up by its wire id.
pub fn get_flight(db: &Datastore, id: &str) -> (r: Result<FlightView, ApiError>)
    ensures
        uuid_parse(id@) is None ==> (r matches Err(e) && e is InvalidArgument),
        uuid_parse(id@) matches Some(v) ==> match find_by(db.flights_m(), flight_with_id(v)) {
            None => r matches Err(e) && e is NotFound,
            Some(f) => r matches Ok(view) && view@ == projection(flight_data_of(*db, f)),
        },
{
    let v = match parse_id(id) {
        Ok(v) => v,
        Err(e) => {
            return Err(e);
        },
    };
    let row = match db.get_flight(v) {
        Ok(f) => f,
        Err(e) => {
            return Err(ApiError::from_query(e));
        },
    };
    let mut rows: Vec<Flight> = Vec::new();
    rows.push(row);
    proof {
        assert(rows@ =~= rows.deep_view());
    }
    let data = load_flights_data(db, rows);
    proof {
        assert(data.deep_view().len() == data@.len());
        assert(data.deep_view().len() == 1);
        assert(data.deep_view()[0] == data@[0]@);
        assert(data.deep_view()[0] == flight_data_of(*db, rows@[0]));
    }
    let view = data[0].project();
    Ok(view)
}

/// Creates a flight with empty event streams from parsed wire inputs; its
/// view therefore computes no cancellation, expected times or gates.
pub fn create_flight(
    db: &mut Datastore,
    plane_id: &str,
    origin_id: &str,
    destination_id: &str,
    departure_time: Option<Timestamp>,
    arrival_time: Option<Timestamp>,
) -> (r: Result<FlightView, ApiError>)
    requires
        old(db).wf(),
    ensures
        final(db).wf(),
        uuid_parse(plane_id@) is None ==> ((r matches Err(e) && e is InvalidArgument) && *final(db)
            == *old(db)),
        uuid_parse(plane_id@) is Some && uuid_parse(origin_id@) is None ==> ((r matches Err(e)
            && e is InvalidArgument) && *final(db) == *old(db)),
        uuid_parse(plane_id@) is Some && uuid_parse(origin_id@) is Some && uuid_parse(
            destination_id@,
        ) is None ==> ((r matches Err(e) && e is InvalidArgument) && *final(db) == *old(db)),
        uuid_parse(plane_id@) is Some && uuid_parse(origin_id@) is Some && uuid_parse(
            destination_id@,
        ) is Some && !parse_timestamp_ok(departure_time) ==> ((r matches Err(e)
            && e is InvalidArgument) && *final(db) == *old(db)),
        uuid_parse(plane_id@) is Some && uuid_parse(origin_id@) is Some && uuid_parse(
            destination_id@,
        ) is Some && parse_timestamp_ok(departure_time) && !parse_timestamp_ok(arrival_time) ==> ((
        r matches Err(e) && e is InvalidArgument) && *final(db) == *old(db)),
        uuid_parse(plane_id@) matches Some(p) ==> (uuid_parse(origin_id@) matches Some(o) ==> (
        uuid_parse(destination_id@) matches Some(d) ==> (parse_timestamp_ok(departure_time)
            && parse_timestamp_ok(arrival_time) ==> {
            if !flight_refs_ok(*old(db), p, o, d) {
                (r matches Err(e) && e is Internal) && *final(db) == *old(db)
            } else if old(db).next_id == u128::MAX {
                (r matches Err(e) && e is Internal) && *final(db) == *old(db)
            } else {
                let f = Flight {
                    id: old(db).next_id,
                    plane_id: p,
                    origin_id: o,
                    destination_id: d,
                    departure_time: normalized(departure_time->Some_0),
                    arrival_time: normalized(arrival_time->Some_0),
                };
                r matches Ok(view) && {
                    &&& view@ == projection(
                        FlightDataModel {
                            flight: f,
                            cancellations: Seq::empty(),
                            delays: Seq::empty(),
                            departure_gates: Seq::empty(),
                            arrival_gates: Seq::empty(),
                        },
                    )
                    &&& final(db).flights_m() == old(db).flights_m().push(f)
                    &&& final(db).airports_m() == old(db).airports_m()
                    &&& final(db).planes_m() == old(db).planes_m()
                    &&& Datastore::same_events(*old(db), *final(db))
                    &&& final(db).next_id == old(db).next_id + 1
                }
            }
        }))),
{
    let p = match parse_id(plane_id) {
        Ok(v) => v,
        Err(e) => {
            return Err(e);
        },
    };
    let o = match parse_id(origin_id) {
        Ok(v) => v,
        Err(e) => {
            return Err(e);
        },
    };
    let d = match parse_id(destination_id) {
        Ok(v) => v,
        Err(e) => {
            return Err(e);
        },
    };
    let dep = match parse_timestamp(departure_time) {
        Ok(t) => t,
        Err(e) => {
            return Err(e);
        },
    };
    let arr = match parse_timestamp(arrival_time) {
        Ok(t) => t,
        Err(e) => {
            return Err(e);
        },
    };
    let f = match db.create_flight(p, o, d, dep, arr) {
        Ok(f) => f,
        Err(e) => {
            return Err(ApiError::from_query(e));
        },
    };
    let mut rows: Vec<Flight> = Vec::new();
    rows.push(f);
    proof {
        assert(rows@ =~= rows.deep_view());
        let db1 = *db;
        assert(db1.cancellations_m() == old(db).cancellations_m());
        assert(db1.delays_m() == old(db).delays_m());
        assert(db1.departure_gates_m() == old(db).departure_gates_m());
        assert(db1.arrival_gates_m() == old(db).arrival_gates_m());
        assert forall|k: int|
            0 <= k < db1.cancellations_m().len() implies !(crate::projection::cancellation_of_flight(
            f.id,
        )(#[trigger] db1.cancellations_m()[k])) by {
            assert(cancellation_flight_of()(old(db).cancellations_m()[k]) < old(db).next_id);
        }
        assert forall|k: int|
            0 <= k < db1.delays_m().len() implies !(crate::projection::delay_of_flight(f.id)(
            #[trigger] db1.delays_m()[k])) by {
            assert(delay_flight_of()(old(db).delays_m()[k]) < old(db).next_id);
        }
        assert forall|k: int|
            0 <= k < db1.departure_gates_m().len() implies !(crate::projection::gate_of_flight(
            f.id,
        )(#[trigger] db1.departure_gates_m()[k])) by {
            assert(gate_flight_of()(old(db).departure_gates_m()[k]) < old(db).next_id);
        }
        assert forall|k: int|
            0 <= k < db1.arrival_gates_m().len() implies !(crate::projection::gate_of_flight(f.id)(
            #[trigger] db1.arrival_gates_m()[k])) by {
            assert(gate_flight_of()(old(db).arrival_gates_m()[k]) < old(db).next_id);
        }
        lemma_filter_rows_none(
            db1.cancellations_m(),
            crate::projection::cancellation_of_flight(f.id),
        );
        lemma_filter_rows_none(db1.delays_m(), crate::projection::delay_of_flight(f.id));
        lemma_filter_rows_none(db1.departure_gates_m(), crate::projection::gate_of_flight(f.id));
        lemma_filter_rows_none(db1.arrival_gates_m(), crate::projection::gate_of_flight(f.id));
        assert(flight_data_of(db1, f) == (FlightDataModel {
            flight: f,
            cancellations: Seq::empty(),
            delays: Seq::empty(),
            departure_gates: Seq::empty(),
            arrival_gates: Seq::empty(),
        }));
    }
    let data = load_flights_data(db, rows);
    proof {
        assert(data.deep_view().len() == data@.len());
        assert(data.deep_view().len() == 1);
        assert(data.deep_view()[0] == data@[0]@);
        assert(data.deep_view()[0] == flight_data_of(*db, rows@[0]));
    }
    let view = data[0].project();
    Ok(view)
}

/// The store after exactly one requested event was appended for the
/// flight, stamped with the given instant, and nothing else moved.
pub open spec fn event_appended(
    db0: Datastore,
    db1: Datastore,
    id: u128,
    input: StatusEventInputModel,
    now: Timestamp,
) -> bool {
    &&& db1.airports_m() == db0.airports_m()
    &&& db1.planes_m() == db0.planes_m()
    &&& db1.flights_m() == db0.flights_m()
    &&& db1.next_id == db0.next_id
    &&& match input {
        StatusEventInputModel::Cancelled { reason } => {
            &&& db1.cancellations_m() == db0.cancellations_m().push(
                EventCancelledModel { flight_id: id, timestamp: now, reason: Some(reason) },
            )
            &&& db1.delays_m() == db0.delays_m()
            &&& db1.departure_gates_m() == db0.departure_gates_m()
            &&& db1.arrival_gates_m() == db0.arrival_gates_m()
        },
        StatusEventInputModel::Delayed { departure_time, arrival_time } => {
            &&& db1.delays_m() == db0.delays_m().push(
                EventDelayed {
                    flight_id: id,
                    timestamp: now,
                    departure_time: normalized(departure_time->Some_0),
                    arrival_time: normalized(arrival_time->Some_0),
                },
            )
            &&& db1.cancellations_m() == db0.cancellations_m()
            &&& db1.departure_gates_m() == db0.departure_gates_m()
            &&& db1.arrival_gates_m() == db0.arrival_gates_m()
        },
        StatusEventInputModel::GateDeparture { gate } => {
            &&& db1.departure_gates_m() == db0.departure_gates_m().push(
                GateEventModel { flight_id: id, timestamp: now, gate },
            )
            &&& db1.cancellations_m() == db0.cancellations_m()
            &&& db1.delays_m() == db0.delays_m()
            &&& db1.arrival_gates_m() == db0.arrival_gates_m()
        },
        StatusEventInputModel::GateArrival { gate } => {
            &&& db1.arrival_gates_m() == db0.arrival_gates_m().push(
                GateEventModel { flight_id: id, timestamp: now, gate },
            )
            &&& db1.cancellations_m() == db0.cancellations_m()
            &&& db1.delays_m() == db0.delays_m()
            &&& db1.departure_gates_m() == db0.departure_gates_m()
        },
    }
}

/// Appends one lifecycle event to a flight's log and answers with the
/// re-projected view; the log itself is append-only, so nothing is ever
/// rewritten.  A missing or malformed input is rejected before any store
/// access, a missing flight is `NotFound`, and every rejection leaves the
/// store unchanged.
pub fn update_flight(
    db: &mut Datastore,
    id: &str,
    status_event: Option<StatusEventInput>,
    now: Timestamp,
) -> (r: Result<FlightView, ApiError>)
    requires
        old(db).wf(),
        ts_well_formed(now),
    ensures
        final(db).wf(),
        uuid_parse(id@) is None ==> ((r matches Err(e) && e is InvalidArgument) && *final(db)
            == *old(db)),
        uuid_parse(id@) matches Some(v) ==> match status_event.deep_view() {
            None => (r matches Err(e) && e is InvalidArgument) && *final(db) == *old(db),
            Some(input) => {
                if (input matches StatusEventInputModel::Delayed { departure_time, arrival_time }
                    && !(parse_timestamp_ok(departure_time) && parse_timestamp_ok(arrival_time))) {
                    (r matches Err(e) && e is InvalidArgument) && *final(db) == *old(db)
                } else {
                    match find_by(old(db).flights_m(), flight_with_id(v)) {
                        None => (r matches Err(e) && e is NotFound) && *final(db) == *old(db),
                        Some(f) => r matches Ok(view) && event_appended(
                            *old(db),
                            *final(db),
                            v,
                            input,
                            now,
                        ) && view@ == projection(flight_data_of(*final(db), f)),
                    }
                }
            },
        },
{
    let v = match parse_id(id) {
        Ok(v) => v,
        Err(e) => {
            return Err(e);
        },
    };
    let ev = match status_event {
        Some(ev) => ev,
        None => {
            return Err(ApiError::invalid("'status_event' is required"));
        },
    };
    match ev {
        StatusEventInput::Cancelled { reason } => {
            match db.add_event_cancelled(v, reason, now) {
                Ok(_) => {},
                Err(e) => {
                    return Err(ApiError::from_query(e));
                },
            }
        },
        StatusEventInput::Delayed { departure_time, arrival_time } => {
            let arr = match parse_timestamp(arrival_time) {
                Ok(t) => t,
                Err(e) => {
                    return Err(e);
                },
            };
            let dep = match parse_timestamp(departure_time) {
                Ok(t) => t,
                Err(e) => {
                    return Err(e);
                },
            };
            match db.add_event_delayed(v, dep, arr, now) {
                Ok(_) => {},
                Err(e) => {
                    return Err(ApiError::from_query(e));
                },
            }
        },
        StatusEventInput::GateDeparture { gate } => {
            match db.add_event_gate_dep_set(v, gate, now) {
                Ok(_) => {},
                Err(e) => {
                    return Err(ApiError::from_query(e));
                },
            }
        },
        StatusEventInput::GateArrival { gate } => {
            match db.add_event_gate_arr_set(v, gate, now) {
                Ok(_) => {},
                Err(e) => {
                    return Err(ApiError::from_query(e));
                },
            }
        },
    }
    let row = match db.get_flight(v) {
        Ok(f) => f,
        Err(e) => {
            proof {
                assert(false);
            }
            return Err(ApiError::from_query(e));
        },
    };
    let mut rows: Vec<Flight> = Vec::new();
    rows.push(row);
    proof {
        assert(rows@ =~= rows.deep_view());
    }
    let data = load_flights_data(db, rows);
    proof {
        assert(data.deep_view().len() == data@.len());
        assert(data.deep_view().len() == 1);
        assert(data.deep_view()[0] == data@[0]@);
        assert(data.deep_view()[0] == flight_data_of(*db, rows@[0]));
    }
    let view = data[0].project();
    Ok(view)
}

} // verus!
