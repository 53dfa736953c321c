//! The flight projector: one base row plus its four event streams, reduced
//! to the computed current-state view.
//!
//! The view is a pure function of the data: cancellation is existence of
//! any cancellation event, expected times and gates come from the latest
//! event of the matching stream (the last one on a timestamp tie, matching
//! an append-order scan), and the full event history is kept.  The
//! single-flight read is the batch read on a one-element list, so the two
//! can never diverge.

use vstd::prelude::*;

use crate::store::{
    cancellation_for_flights, delay_for_flights, filter_rows, gate_for_flights, Datastore,
    EventCancelled, EventCancelledModel, EventDelayed, EventGateArrivalSet, EventGateDepartureSet,
    Flight, GateEventModel,
};
use crate::timestamp::{ts_le, ts_le_exec, ts_lt, Timestamp};

verus! {

/// One flight's base row together with its four event streams.
pub struct FlightData(
    pub Flight,
    pub Vec<EventCancelled>,
    pub Vec<EventDelayed>,
    pub Vec<EventGateDepartureSet>,
    pub Vec<EventGateArrivalSet>,
);

/// Mathematical value of [`FlightData`].
pub struct FlightDataModel {
    pub flight: Flight,
    pub cancellations: Seq<EventCancelledModel>,
    pub delays: Seq<EventDelayed>,
    pub departure_gates: Seq<GateEventModel>,
    pub arrival_gates: Seq<GateEventModel>,
}

impl View for FlightData {
    type V = FlightDataModel;

    open spec fn view(&self) -> FlightDataModel {
        FlightDataModel {
            flight: self.0,
            cancellations: self.1.deep_view(),
            delays: self.2.deep_view(),
            departure_gates: self.3.deep_view(),
            arrival_gates: self.4.deep_view(),
        }
    }
}

impl DeepView for FlightData {
    type V = FlightDataModel;

    open spec fn deep_view(&self) -> FlightDataModel {
        self@
    }
}

/// One entry of a flight's status history.
#[derive(Debug, PartialEq, Eq)]
pub enum StatusEvent {
    Cancelled { reason: String },
    Delayed { departure_time: Timestamp, arrival_time: Timestamp },
    GateDeparture { gate: String },
    GateArrival { gate: String },
}

/// Mathematical value of [`StatusEvent`].
pub enum StatusEventModel {
    Cancelled { reason: Seq<char> },
    Delayed { departure_time: Timestamp, arrival_time: Timestamp },
    GateDeparture { gate: Seq<char> },
    GateArrival { gate: Seq<char> },
}

impl View for StatusEvent {
    type V = StatusEventModel;

    open spec fn view(&self) -> StatusEventModel {
        match self {
            StatusEvent::Cancelled { reason } => StatusEventModel::Cancelled { reason: reason@ },
            StatusEvent::Delayed { departure_time, arrival_time } => StatusEventModel::Delayed {
                departure_time: *departure_time,
                arrival_time: *arrival_time,
            },
            StatusEvent::GateDeparture { gate } => StatusEventModel::GateDeparture { gate: gate@ },
            StatusEvent::GateArrival { gate } => StatusEventModel::GateArrival { gate: gate@ },
        }
    }
}

impl Clone for StatusEvent {
    fn clone(&self) -> (r: Self)
        ensures
            r@ == self@,
    {
        match self {
            StatusEvent::Cancelled { reason } => StatusEvent::Cancelled { reason: reason.clone() },
            StatusEvent::Delayed { departure_time, arrival_time } => StatusEvent::Delayed {
                departure_time: *departure_time,
                arrival_time: *arrival_time,
            },
            StatusEvent::GateDeparture { gate } => StatusEvent::GateDeparture {
                gate: gate.clone(),
            },
            StatusEvent::GateArrival { gate } => StatusEvent::GateArrival { gate: gate.clone() },
        }
    }
}

/// A status entry: the server-assigned instant and the event itself.
#[derive(Debug, PartialEq, Eq)]
pub struct FlightStatusEvent {
    pub timestamp: Timestamp,
    pub event: StatusEvent,
}

/// Mathematical value of [`FlightStatusEvent`].
pub struct FlightStatusEventModel {
    pub timestamp: Timestamp,
    pub event: StatusEventModel,
}

impl View for FlightStatusEvent {
    type V = FlightStatusEventModel;

    open spec fn view(&self) -> FlightStatusEventModel {
        FlightStatusEventModel { timestamp: self.timestamp, event: self.event@ }
    }
}

impl DeepView for FlightStatusEvent {
    type V = FlightStatusEventModel;

    open spec fn deep_view(&self) -> FlightStatusEventModel {
        self@
    }
}

impl Clone for FlightStatusEvent {
    fn clone(&self) -> (r: Self)
        ensures
            r@ == self@,
    {
        FlightStatusEvent { timestamp: self.timestamp, event: self.event.clone() }
    }
}

/// The computed current-state view of a flight.
#[derive(Debug, PartialEq, Eq)]
pub struct FlightView {
    pub id: u128,
    pub plane_id: u128,
    pub origin_id: u128,
    pub destination_id: u128,
    pub departure_time: Timestamp,
    pub arrival_time: Timestamp,
    pub status_events: Vec<FlightStatusEvent>,
    pub is_cancelled: bool,
    pub expected_departure_time: Option<Timestamp>,
    pub expected_arrival_time: Option<Timestamp>,
    pub departure_gate: Option<String>,
    pub arrival_gate: Option<String>,
}

/// Mathematical value of [`FlightView`].
pub struct FlightViewModel {
    pub id: u128,
    pub plane_id: u128,
    pub origin_id: u128,
    pub destination_id: u128,
    pub departure_time: Timestamp,
    pub arrival_time: Timestamp,
    pub status_events: Seq<FlightStatusEventModel>,
    pub is_cancelled: bool,
    pub expected_departure_time: Option<Timestamp>,
    pub expected_arrival_time: Option<Timestamp>,
    pub departure_gate: Option<Seq<char>>,
    pub arrival_gate: Option<Seq<char>>,
}

impl View for FlightView {
    type V = FlightViewModel;

    open spec fn view(&self) -> FlightViewModel {
        FlightViewModel {
            id: self.id,
            plane_id: self.plane_id,
            origin_id: self.origin_id,
            destination_id: self.destination_id,
            departure_time: self.departure_time,
            arrival_time: self.arrival_time,
            status_events: self.status_events.deep_view(),
            is_cancelled: self.is_cancelled,
            expected_departure_time: self.expected_departure_time,
            expected_arrival_time: self.expected_arrival_time,
            departure_gate: match &self.departure_gate {
                Some(g) => Some(g@),
                None => None,
            },
            arrival_gate: match &self.arrival_gate {
                Some(g) => Some(g@),
                None => None,
            },
        }
    }
}

impl DeepView for FlightView {
    type V = FlightViewModel;

    open spec fn deep_view(&self) -> FlightViewModel {
        self@
    }
}

impl Clone for FlightView {
    fn clone(&self) -> (r: Self)
        ensures
            r@ == self@,
    {
        let status_events = clone_status_events(&self.status_events);
        FlightView {
            id: self.id,
            plane_id: self.plane_id,
            origin_id: self.origin_id,
            destination_id: self.destination_id,
            departure_time: self.departure_time,
            arrival_time: self.arrival_time,
            status_events,
            is_cancelled: self.is_cancelled,
            expected_departure_time: self.expected_departure_time,
            expected_arrival_time: self.expected_arrival_time,
            departure_gate: match &self.departure_gate {
                Some(g) => Some(g.clone()),
                None => None,
            },
            arrival_gate: match &self.arrival_gate {
                Some(g) => Some(g.clone()),
                None => None,
            },
        }
    }
}

fn clone_status_events(v: &Vec<FlightStatusEvent>) -> (r: Vec<FlightStatusEvent>)
    ensures
        r.deep_view() == v.deep_view(),
{
    let mut out: Vec<FlightStatusEvent> = Vec::new();
    let mut i: usize = 0;
    proof {
        assert(out.deep_view() =~= v.deep_view().subrange(0, 0));
    }
    while i < v.len()
        invariant
            i <= v.len(),
            out.deep_view() == v.deep_view().subrange(0, i as int),
        decreases v.len() - i,
    {
        let ghost out0 = out.deep_view();
        out.push(v[i].clone());
        proof {
            assert(out.deep_view() =~= out0.push(v.deep_view()[i as int]));
            assert(out.deep_view() =~= v.deep_view().subrange(0, i as int + 1));
        }
        i += 1;
    }
    proof {
        assert(v.deep_view().subrange(0, v.len() as int) =~= v.deep_view());
    }
    out
}

/// The recorded reason of a cancellation, or the empty text.
pub open spec fn reason_or_empty(r: Option<Seq<char>>) -> Seq<char> {
    match r {
        Some(s) => s,
        None => Seq::empty(),
    }
}

/// Status entries of the individual streams.
pub open spec fn cancellation_status() -> spec_fn(EventCancelledModel) -> FlightStatusEventModel {
    |e: EventCancelledModel|
        FlightStatusEventModel {
            timestamp: e.timestamp,
            event: StatusEventModel::Cancelled { reason: reason_or_empty(e.reason) },
        }
}

pub open spec fn delay_status() -> spec_fn(EventDelayed) -> FlightStatusEventModel {
    |e: EventDelayed|
        FlightStatusEventModel {
            timestamp: e.timestamp,
            event: StatusEventModel::Delayed {
                departure_time: e.departure_time,
                arrival_time: e.arrival_time,
            },
        }
}

pub open spec fn departure_gate_status() -> spec_fn(GateEventModel) -> FlightStatusEventModel {
    |e: GateEventModel|
        FlightStatusEventModel {
            timestamp: e.timestamp,
            event: StatusEventModel::GateDeparture { gate: e.gate },
        }
}

pub open spec fn arrival_gate_status() -> spec_fn(GateEventModel) -> FlightStatusEventModel {
    |e: GateEventModel|
        FlightStatusEventModel {
            timestamp: e.timestamp,
            event: StatusEventModel::GateArrival { gate: e.gate },
        }
}

/// The full status history: the four streams, stream by stream, each in
/// append order.
pub open spec fn status_events_of(d: FlightDataModel) -> Seq<FlightStatusEventModel> {
    d.cancellations.map_values(cancellation_status()) + d.delays.map_values(delay_status())
        + d.departure_gates.map_values(departure_gate_status()) + d.arrival_gates.map_values(
        arrival_gate_status(),
    )
}

/// The delay event with the greatest timestamp, the last such on a tie;
/// nothing on an empty stream.
pub open spec fn last_max_delay(s: Seq<EventDelayed>) -> Option<EventDelayed>
    decreases s.len(),
{
    if s.len() == 0 {
        None
    } else {
        match last_max_delay(s.drop_last()) {
            None => Some(s.last()),
            Some(b) => if ts_le(b.timestamp, s.last().timestamp) {
                Some(s.last())
            } else {
                Some(b)
            },
        }
    }
}

/// Latest gate assignment of a stream: greatest timestamp, later entry on
/// equal stamps, nothing when the stream is empty.
pub open spec fn last_max_gate(s: Seq<GateEventModel>) -> Option<GateEventModel>
    decreases s.len(),
{
    if s.len() == 0 {
        None
    } else {
        match last_max_gate(s.drop_last()) {
            None => Some(s.last()),
            Some(b) => if ts_le(b.timestamp, s.last().timestamp) {
                Some(s.last())
            } else {
                Some(b)
            },
        }
    }
}

/// The projection itself: what the computed view of one flight's data is.
pub open spec fn projection(d: FlightDataModel) -> FlightViewModel {
    FlightViewModel {
        id: d.flight.id,
        plane_id: d.flight.plane_id,
        origin_id: d.flight.origin_id,
        destination_id: d.flight.destination_id,
        departure_time: d.flight.departure_time,
        arrival_time: d.flight.arrival_time,
        status_events: status_events_of(d),
        is_cancelled: d.cancellations.len() > 0,
        expected_departure_time: match last_max_delay(d.delays) {
            Some(e) => Some(e.departure_time),
            None => None,
        },
        expected_arrival_time: match last_max_delay(d.delays) {
            Some(e) => Some(e.arrival_time),
            None => None,
        },
        departure_gate: match last_max_gate(d.departure_gates) {
            Some(e) => Some(e.gate),
            None => None,
        },
        arrival_gate: match last_max_gate(d.arrival_gates) {
            Some(e) => Some(e.gate),
            None => None,
        },
    }
}

impl EventCancelled {
    /// Status entry of a cancellation; a missing reason reads as empty text.
    pub fn to_status_event(&self) -> (r: FlightStatusEvent)
        ensures
            r@ == cancellation_status()(self@),
    {
        FlightStatusEvent {
            timestamp: self.timestamp,
            event: StatusEvent::Cancelled {
                reason: match &self.reason {
                    Some(s) => s.clone(),
                    None => String::new(),
                },
            },
        }
    }
}

impl EventDelayed {
    /// Status entry of a delay announcement.
    pub fn to_status_event(&self) -> (r: FlightStatusEvent)
        ensures
            r@ == delay_status()(*self),
    {
        FlightStatusEvent {
            timestamp: self.timestamp,
            event: StatusEvent::Delayed {
                departure_time: self.departure_time,
                arrival_time: self.arrival_time,
            },
        }
    }
}

impl EventGateDepartureSet {
    /// Status entry of a departure-gate assignment.
    pub fn to_status_event(&self) -> (r: FlightStatusEvent)
        ensures
            r@ == departure_gate_status()(self@),
    {
        FlightStatusEvent {
            timestamp: self.timestamp,
            event: StatusEvent::GateDeparture { gate: self.gate.clone() },
        }
    }
}

impl EventGateArrivalSet {
    /// Status entry of an arrival-gate assignment.
    pub fn to_status_event(&self) -> (r: FlightStatusEvent)
        ensures
            r@ == arrival_gate_status()(self@),
    {
        FlightStatusEvent {
            timestamp: self.timestamp,
            event: StatusEvent::GateArrival { gate: self.gate.clone() },
        }
    }
}

/// Append-order scan for the latest delay; the last one wins a tie.
fn latest_delay(delays: &Vec<EventDelayed>) -> (r: Option<EventDelayed>)
    ensures
        r == last_max_delay(delays.deep_view()),
{
    let mut best: Option<EventDelayed> = None;
    let mut i: usize = 0;
    proof {
        assert(delays.deep_view().subrange(0, 0) =~= Seq::<EventDelayed>::empty());
    }
    while i < delays.len()
        invariant
            i <= delays.len(),
            best == last_max_delay(delays.deep_view().subrange(0, i as int)),
        decreases delays.len() - i,
    {
        let ghost pre = delays.deep_view().subrange(0, i as int);
        let ghost cur = delays.deep_view().subrange(0, i as int + 1);
        proof {
            assert(cur.drop_last() =~= pre);
            assert(cur.last() == delays.deep_view()[i as int]);
        }
        let e = delays[i];
        best = match best {
            None => Some(e),
            Some(b) => if ts_le_exec(&b.timestamp, &e.timestamp) {
                Some(e)
            } else {
                Some(b)
            },
        };
        proof {
            assert(best == last_max_delay(cur));
        }
        i += 1;
    }
    proof {
        assert(delays.deep_view().subrange(0, delays.len() as int) =~= delays.deep_view());
    }
    best
}

/// Append-order scan for the latest departure-gate assignment.
fn latest_departure_gate(gates: &Vec<EventGateDepartureSet>) -> (r: Option<EventGateDepartureSet>)
    ensures
        match last_max_gate(gates.deep_view()) {
            Some(g) => r matches Some(e) && e@ == g,
            None => r is None,
        },
{
    let mut best: Option<usize> = None;
    let mut i: usize = 0;
    proof {
        assert(gates.deep_view().subrange(0, 0) =~= Seq::<GateEventModel>::empty());
    }
    while i < gates.len()
        invariant
            i <= gates.len(),
            match last_max_gate(gates.deep_view().subrange(0, i as int)) {
                Some(g) => best matches Some(bi) && bi < i && gates.deep_view()[bi as int] == g,
                None => best is None,
            },
        decreases gates.len() - i,
    {
        let ghost pre = gates.deep_view().subrange(0, i as int);
        let ghost cur = gates.deep_view().subrange(0, i as int + 1);
        proof {
            assert(cur.drop_last() =~= pre);
            assert(cur.last() == gates.deep_view()[i as int]);
        }
        best = match best {
            None => Some(i),
            Some(bi) => if ts_le_exec(&gates[bi].timestamp, &gates[i].timestamp) {
                Some(i)
            } else {
                Some(bi)
            },
        };
        proof {
            assert(last_max_gate(cur) matches Some(g) && best matches Some(bi) && bi < i + 1
                && gates.deep_view()[bi as int] == g);
        }
        i += 1;
    }
    proof {
        assert(gates.deep_view().subrange(0, gates.len() as int) =~= gates.deep_view());
    }
    match best {
        Some(bi) => Some(gates[bi].clone()),
        None => None,
    }
}

/// Append-order scan for the latest arrival-gate assignment.
fn latest_arrival_gate(gates: &Vec<EventGateArrivalSet>) -> (r: Option<EventGateArrivalSet>)
    ensures
        match last_max_gate(gates.deep_view()) {
            Some(g) => r matches Some(e) && e@ == g,
            None => r is None,
        },
{
    let mut best: Option<usize> = None;
    let mut i: usize = 0;
    proof {
        assert(gates.deep_view().subrange(0, 0) =~= Seq::<GateEventModel>::empty());
    }
    while i < gates.len()
        invariant
            i <= gates.len(),
            match last_max_gate(gates.deep_view().subrange(0, i as int)) {
                Some(g) => best matches Some(bi) && bi < i && gates.deep_view()[bi as int] == g,
                None => best is None,
            },
        decreases gates.len() - i,
    {
        let ghost pre = gates.deep_view().subrange(0, i as int);
        let ghost cur = gates.deep_view().subrange(0, i as int + 1);
        proof {
            assert(cur.drop_last() =~= pre);
            assert(cur.last() == gates.deep_view()[i as int]);
        }
        best = match best {
            None => Some(i),
            Some(bi) => if ts_le_exec(&gates[bi].timestamp, &gates[i].timestamp) {
                Some(i)
            } else {
                Some(bi)
            },
        };
        proof {
            assert(last_max_gate(cur) matches Some(g) && best matches Some(bi) && bi < i + 1
                && gates.deep_view()[bi as int] == g);
        }
        i += 1;
    }
    proof {
        assert(gates.deep_view().subrange(0, gates.len() as int) =~= gates.deep_view());
    }
    match best {
        Some(bi) => Some(gates[bi].clone()),
        None => None,
    }
}

/// The full status history of one flight's data, stream by stream.
fn build_status_events(d: &FlightData) -> (r: Vec<FlightStatusEvent>)
    ensures
        r.deep_view() == status_events_of(d@),
{
    let ghost c_all = d@.cancellations.map_values(cancellation_status());
    let ghost d_all = d@.delays.map_values(delay_status());
    let ghost dg_all = d@.departure_gates.map_values(departure_gate_status());
    let ghost ag_all = d@.arrival_gates.map_values(arrival_gate_status());
    let mut out: Vec<FlightStatusEvent> = Vec::new();
    let mut i: usize = 0;
    proof {
        assert(out.deep_view() =~= d@.cancellations.subrange(0, 0).map_values(
            cancellation_status(),
        ));
    }
    while i < d.1.len()
        invariant
            i <= d.1.len(),
            out.deep_view() == d@.cancellations.subrange(0, i as int).map_values(
                cancellation_status(),
            ),
        decreases d.1.len() - i,
    {
        let ghost out0 = out.deep_view();
        out.push(d.1[i].to_status_event());
        proof {
            assert(out.deep_view() =~= out0.push(cancellation_status()(d@.cancellations[i as int])));
            assert(out.deep_view() =~= d@.cancellations.subrange(0, i as int + 1).map_values(
                cancellation_status(),
            ));
        }
        i += 1;
    }
    proof {
        assert(d@.cancellations.subrange(0, d.1.len() as int) =~= d@.cancellations);
        assert(out.deep_view() == c_all);
    }
    let mut i: usize = 0;
    while i < d.2.len()
        invariant
            i <= d.2.len(),
            out.deep_view() == c_all + d@.delays.subrange(0, i as int).map_values(delay_status()),
        decreases d.2.len() - i,
    {
        let ghost out0 = out.deep_view();
        out.push(d.2[i].to_status_event());
        proof {
            assert(out.deep_view() =~= out0.push(delay_status()(d@.delays[i as int])));
            assert(out.deep_view() =~= c_all + d@.delays.subrange(0, i as int + 1).map_values(
                delay_status(),
            ));
        }
        i += 1;
    }
    proof {
        assert(d@.delays.subrange(0, d.2.len() as int) =~= d@.delays);
        assert(out.deep_view() == c_all + d_all);
    }
    let mut i: usize = 0;
    while i < d.3.len()
        invariant
            i <= d.3.len(),
            out.deep_view() == c_all + d_all + d@.departure_gates.subrange(0, i as int).map_values(
                departure_gate_status(),
            ),
        decreases d.3.len() - i,
    {
        let ghost out0 = out.deep_view();
        out.push(d.3[i].to_status_event());
        proof {
            assert(out.deep_view() =~= out0.push(
                departure_gate_status()(d@.departure_gates[i as int]),
            ));
            assert(out.deep_view() =~= c_all + d_all + d@.departure_gates.subrange(
                0,
                i as int + 1,
            ).map_values(departure_gate_status()));
        }
        i += 1;
    }
    proof {
        assert(d@.departure_gates.subrange(0, d.3.len() as int) =~= d@.departure_gates);
        assert(out.deep_view() == c_all + d_all + dg_all);
    }
    let mut i: usize = 0;
    while i < d.4.len()
        invariant
            i <= d.4.len(),
            out.deep_view() == c_all + d_all + dg_all + d@.arrival_gates.subrange(
                0,
                i as int,
            ).map_values(arrival_gate_status()),
        decreases d.4.len() - i,
    {
        let ghost out0 = out.deep_view();
        out.push(d.4[i].to_status_event());
        proof {
            assert(out.deep_view() =~= out0.push(
                arrival_gate_status()(d@.arrival_gates[i as int]),
            ));
            assert(out.deep_view() =~= c_all + d_all + dg_all + d@.arrival_gates.subrange(
                0,
                i as int + 1,
            ).map_values(arrival_gate_status()));
        }
        i += 1;
    }
    proof {
        assert(d@.arrival_gates.subrange(0, d.4.len() as int) =~= d@.arrival_gates);
        assert(out.deep_view() == c_all + d_all + dg_all + ag_all);
    }
    out
}

impl FlightData {
    /// Reduces this flight's data to its computed view, exactly as
    /// [`projection`] states.
    pub fn project(&self) -> (v: FlightView)
        ensures
            v@ == projection(self@),
    {
        let is_cancelled = self.1.len() > 0;
        let last_delay = latest_delay(&self.2);
        let expected_departure_time = match &last_delay {
            Some(e) => Some(e.departure_time),
            None => None,
        };
        let expected_arrival_time = match &last_delay {
            Some(e) => Some(e.arrival_time),
            None => None,
        };
        let departure_gate = match latest_departure_gate(&self.3) {
            Some(e) => Some(e.gate),
            None => None,
        };
        let arrival_gate = match latest_arrival_gate(&self.4) {
            Some(e) => Some(e.gate),
            None => None,
        };
        let status_events = build_status_events(self);
        FlightView {
            id: self.0.id,
            plane_id: self.0.plane_id,
            origin_id: self.0.origin_id,
            destination_id: self.0.destination_id,
            departure_time: self.0.departure_time,
            arrival_time: self.0.arrival_time,
            status_events,
            is_cancelled,
            expected_departure_time,
            expected_arrival_time,
            departure_gate,
            arrival_gate,
        }
    }
}

/// Per-flight stream selection.
pub open spec fn cancellation_of_flight(id: u128) -> spec_fn(EventCancelledModel) -> bool {
    |e: EventCancelledModel| e.flight_id == id
}

pub open spec fn delay_of_flight(id: u128) -> spec_fn(EventDelayed) -> bool {
    |e: EventDelayed| e.flight_id == id
}

pub open spec fn gate_of_flight(id: u128) -> spec_fn(GateEventModel) -> bool {
    |e: GateEventModel| e.flight_id == id
}

/// One flight's data as held by the store: the base row plus its four
/// streams in append order.
pub open spec fn flight_data_of(db: Datastore, f: Flight) -> FlightDataModel {
    FlightDataModel {
        flight: f,
        cancellations: filter_rows(db.cancellations_m(), cancellation_of_flight(f.id)),
        delays: filter_rows(db.delays_m(), delay_of_flight(f.id)),
        departure_gates: filter_rows(db.departure_gates_m(), gate_of_flight(f.id)),
        arrival_gates: filter_rows(db.arrival_gates_m(), gate_of_flight(f.id)),
    }
}

/// Data of a list of base rows, in order.
pub open spec fn flights_data_seq(db: Datastore, fs: Seq<Flight>) -> Seq<FlightDataModel> {
    Seq::new(fs.len(), |i: int| flight_data_of(db, fs[i]))
}

/// Selection by pointwise-equal predicates is the same selection.
pub proof fn lemma_filter_rows_ext<T>(s: Seq<T>, p: spec_fn(T) -> bool, q: spec_fn(T) -> bool)
    requires
        forall|i: int| 0 <= i < s.len() ==> p(#[trigger] s[i]) == q(s[i]),
    ensures
        filter_rows(s, p) == filter_rows(s, q),
    decreases s.len(),
{
    if s.len() > 0 {
        assert(forall|i: int|
            0 <= i < s.drop_last().len() ==> p(#[trigger] s.drop_last()[i]) == q(
                s.drop_last()[i],
            ));
        lemma_filter_rows_ext(s.drop_last(), p, q);
        assert(p(s.last()) == q(s.last()));
    }
}

/// Cancellations of one flight: the batch read on a one-element id list.
fn cancellations_of(db: &Datastore, id: u128) -> (r: Vec<EventCancelled>)
    ensures
        r.deep_view() == filter_rows(db.cancellations_m(), cancellation_of_flight(id)),
{
    let mut ids: Vec<u128> = Vec::new();
    ids.push(id);
    let r = db.get_event_cancelled(&ids);
    proof {
        assert forall|i: int|
            0 <= i < db.cancellations_m().len() implies cancellation_for_flights(ids@)(
            #[trigger] db.cancellations_m()[i]) == cancellation_of_flight(id)(
            db.cancellations_m()[i],
        ) by {
            let e = db.cancellations_m()[i];
            if e.flight_id == id {
                assert(ids@[0] == e.flight_id);
                assert(ids@.contains(e.flight_id));
            } else {
                assert(forall|k: int| 0 <= k < ids@.len() ==> ids@[k] != e.flight_id);
            }
        }
        lemma_filter_rows_ext(
            db.cancellations_m(),
            cancellation_for_flights(ids@),
            cancellation_of_flight(id),
        );
    }
    r
}

/// Delays of one flight: the batch read on a one-element id list.
fn delays_of(db: &Datastore, id: u128) -> (r: Vec<EventDelayed>)
    ensures
        r.deep_view() == filter_rows(db.delays_m(), delay_of_flight(id)),
{
    let mut ids: Vec<u128> = Vec::new();
    ids.push(id);
    let r = db.get_event_delayed(&ids);
    proof {
        assert forall|i: int|
            0 <= i < db.delays_m().len() implies delay_for_flights(ids@)(
            #[trigger] db.delays_m()[i]) == delay_of_flight(id)(db.delays_m()[i]) by {
            let e = db.delays_m()[i];
            if e.flight_id == id {
                assert(ids@[0] == e.flight_id);
                assert(ids@.contains(e.flight_id));
            } else {
                assert(forall|k: int| 0 <= k < ids@.len() ==> ids@[k] != e.flight_id);
            }
        }
        lemma_filter_rows_ext(db.delays_m(), delay_for_flights(ids@), delay_of_flight(id));
    }
    r
}

/// Departure gates of one flight: the batch read on a one-element id list.
fn departure_gates_of(db: &Datastore, id: u128) -> (r: Vec<EventGateDepartureSet>)
    ensures
        r.deep_view() == filter_rows(db.departure_gates_m(), gate_of_flight(id)),
{
    let mut ids: Vec<u128> = Vec::new();
    ids.push(id);
    let r = db.get_event_gate_dep(&ids);
    proof {
        assert forall|i: int|
            0 <= i < db.departure_gates_m().len() implies gate_for_flights(ids@)(
            #[trigger] db.departure_gates_m()[i]) == gate_of_flight(id)(
            db.departure_gates_m()[i],
        ) by {
            let e = db.departure_gates_m()[i];
            if e.flight_id == id {
                assert(ids@[0] == e.flight_id);
                assert(ids@.contains(e.flight_id));
            } else {
                assert(forall|k: int| 0 <= k < ids@.len() ==> ids@[k] != e.flight_id);
            }
        }
        lemma_filter_rows_ext(db.departure_gates_m(), gate_for_flights(ids@), gate_of_flight(id));
    }
    r
}

/// Arrival gates of one flight: the batch read on a one-element id list.
fn arrival_gates_of(db: &Datastore, id: u128) -> (r: Vec<EventGateArrivalSet>)
    ensures
        r.deep_view() == filter_rows(db.arrival_gates_m(), gate_of_flight(id)),
{
    let mut ids: Vec<u128> = Vec::new();
    ids.push(id);
    let r = db.get_event_gate_arr(&ids);
    proof {
        assert forall|i: int|
            0 <= i < db.arrival_gates_m().len() implies gate_for_flights(ids@)(
            #[trigger] db.arrival_gates_m()[i]) == gate_of_flight(id)(db.arrival_gates_m()[i]) by {
            let e = db.arrival_gates_m()[i];
            if e.flight_id == id {
                assert(ids@[0] == e.flight_id);
                assert(ids@.contains(e.flight_id));
            } else {
                assert(forall|k: int| 0 <= k < ids@.len() ==> ids@[k] != e.flight_id);
            }
        }
        lemma_filter_rows_ext(db.arrival_gates_m(), gate_for_flights(ids@), gate_of_flight(id));
    }
    r
}

/// Pairs every base row with its four event streams.  Absence of events is
/// an empty stream, never an error; the single-flight read is this on a
/// one-element list.
pub fn load_flights_data(db: &Datastore, flights: Vec<Flight>) -> (r: Vec<FlightData>)
    ensures
        r.deep_view() == flights_data_seq(*db, flights@),
{
    let mut out: Vec<FlightData> = Vec::new();
    let mut i: usize = 0;
    proof {
        assert(out.deep_view() =~= flights_data_seq(*db, flights@.subrange(0, 0)));
    }
    while i < flights.len()
        invariant
            i <= flights.len(),
            out.deep_view() == flights_data_seq(*db, flights@.subrange(0, i as int)),
        decreases flights.len() - i,
    {
        let f = flights[i];
        let cancellations = cancellations_of(db, f.id);
        let delays = delays_of(db, f.id);
        let departure_gates = departure_gates_of(db, f.id);
        let arrival_gates = arrival_gates_of(db, f.id);
        let fd = FlightData(f, cancellations, delays, departure_gates, arrival_gates);
        proof {
            assert(fd@ == flight_data_of(*db, f));
        }
        let ghost out0 = out.deep_view();
        out.push(fd);
        proof {
            assert(out.deep_view() =~= out0.push(flight_data_of(*db, flights@[i as int])));
            assert(out.deep_view() =~= flights_data_seq(*db, flights@.subrange(0, i as int + 1)));
        }
        i += 1;
    }
    proof {
        assert(flights@.subrange(0, flights.len() as int) =~= flights@);
    }
    out
}

/// The projection, as a value to map over a batch.
pub open spec fn projection_fn() -> spec_fn(FlightDataModel) -> FlightViewModel {
    |d: FlightDataModel| projection(d)
}

/// The views of a batch of flight data, in order.
pub open spec fn views_of(ds: Seq<FlightDataModel>) -> Seq<FlightViewModel> {
    ds.map_values(projection_fn())
}

/// The latest delay, if any, is itself one of the recorded delays.
pub proof fn lemma_last_max_delay_in(s: Seq<EventDelayed>)
    ensures
        s.len() == 0 ==> last_max_delay(s) is None,
        s.len() > 0 ==> (last_max_delay(s) matches Some(b) && s.contains(b)),
    decreases s.len(),
{
    if s.len() > 0 {
        lemma_last_max_delay_in(s.drop_last());
        if s.len() > 1 {
            let b = last_max_delay(s.drop_last())->Some_0;
            let k = choose|k: int| 0 <= k < s.drop_last().len() && s.drop_last()[k] == b;
            assert(s[k] == b);
        }
        assert(s[s.len() - 1] == s.last());
    }
}

/// The latest gate assignment, if any, is itself one of the recorded ones.
pub proof fn lemma_last_max_gate_in(s: Seq<GateEventModel>)
    ensures
        s.len() == 0 ==> last_max_gate(s) is None,
        s.len() > 0 ==> (last_max_gate(s) matches Some(b) && s.contains(b)),
    decreases s.len(),
{
    if s.len() > 0 {
        lemma_last_max_gate_in(s.drop_last());
        if s.len() > 1 {
            let b = last_max_gate(s.drop_last())->Some_0;
            let k = choose|k: int| 0 <= k < s.drop_last().len() && s.drop_last()[k] == b;
            assert(s[k] == b);
        }
        assert(s[s.len() - 1] == s.last());
    }
}

/// A delay whose instant strictly dominates every other one is the latest.
pub proof fn lemma_last_max_delay_dominant(s: Seq<EventDelayed>, i: int)
    requires
        0 <= i < s.len(),
        forall|k: int|
            0 <= k < s.len() && k != i ==> ts_lt((#[trigger] s[k]).timestamp, s[i].timestamp),
    ensures
        last_max_delay(s) == Some(s[i]),
    decreases s.len(),
{
    if i == s.len() - 1 {
        if s.len() > 1 {
            lemma_last_max_delay_in(s.drop_last());
            let b = last_max_delay(s.drop_last())->Some_0;
            let k = choose|k: int| 0 <= k < s.drop_last().len() && s.drop_last()[k] == b;
            assert(s[k] == b && k != i);
            assert(ts_lt(b.timestamp, s[i].timestamp));
        }
    } else {
        assert(forall|k: int|
            0 <= k < s.drop_last().len() && k != i ==> ts_lt(
                (#[trigger] s.drop_last()[k]).timestamp,
                s.drop_last()[i].timestamp,
            ));
        lemma_last_max_delay_dominant(s.drop_last(), i);
        assert(ts_lt(s.last().timestamp, s[i].timestamp));
        assert(!ts_le(s[i].timestamp, s.last().timestamp));
    }
}

/// A gate assignment no earlier than every other one, standing last in the
/// stream, is the latest.
pub proof fn lemma_last_max_gate_last_wins(s: Seq<GateEventModel>)
    requires
        s.len() > 0,
        forall|k: int|
            0 <= k < s.len() ==> ts_le((#[trigger] s[k]).timestamp, s.last().timestamp),
    ensures
        last_max_gate(s) == Some(s.last()),
{
    if s.len() > 1 {
        lemma_last_max_gate_in(s.drop_last());
        let b = last_max_gate(s.drop_last())->Some_0;
        let k = choose|k: int| 0 <= k < s.drop_last().len() && s.drop_last()[k] == b;
        assert(s[k] == b);
        assert(ts_le(b.timestamp, s.last().timestamp));
    }
}

/// The history carries every recorded event: one entry per event of each
/// stream, stream by stream.
pub proof fn lemma_status_events_complete(d: FlightDataModel)
    ensures
        status_events_of(d).len() == d.cancellations.len() + d.delays.len()
            + d.departure_gates.len() + d.arrival_gates.len(),
{
}

/// Projection is idempotent: the same base row and event set always yield
/// the identical view, however often it is recomputed.
pub proof fn lemma_projection_idempotent(
    d: FlightDataModel,
    v1: FlightViewModel,
    v2: FlightViewModel,
)
    requires
        v1 == projection(d),
        v2 == projection(d),
    ensures
        v1 == v2,
{
}

/// A stream with no events leaves its computed field absent, never a
/// default stand-in.
pub proof fn lemma_empty_stream_absent(d: FlightDataModel)
    ensures
        d.cancellations.len() == 0 ==> !projection(d).is_cancelled,
        d.delays.len() == 0 ==> projection(d).expected_departure_time is None && projection(
            d,
        ).expected_arrival_time is None,
        d.departure_gates.len() == 0 ==> projection(d).departure_gate is None,
        d.arrival_gates.len() == 0 ==> projection(d).arrival_gate is None,
{
}

/// With one delay announced strictly later than every other, the view's
/// expected times are that announcement's times.
pub proof fn lemma_latest_delay_wins(d: FlightDataModel, i: int)
    requires
        0 <= i < d.delays.len(),
        forall|k: int|
            0 <= k < d.delays.len() && k != i ==> ts_lt(
                (#[trigger] d.delays[k]).timestamp,
                d.delays[i].timestamp,
            ),
    ensures
        projection(d).expected_departure_time == Some(d.delays[i].departure_time),
        projection(d).expected_arrival_time == Some(d.delays[i].arrival_time),
{
    lemma_last_max_delay_dominant(d.delays, i);
}

/// Whenever the newest entry of a gate stream carries an instant no
/// earlier than the rest, the view shows that entry's gate, for departures
/// and arrivals alike.
pub proof fn lemma_last_gate_assignment_wins(d: FlightDataModel)
    ensures
        d.departure_gates.len() > 0 && (forall|k: int|
            0 <= k < d.departure_gates.len() ==> ts_le(
                (#[trigger] d.departure_gates[k]).timestamp,
                d.departure_gates.last().timestamp,
            )) ==> projection(d).departure_gate == Some(d.departure_gates.last().gate),
        d.arrival_gates.len() > 0 && (forall|k: int|
            0 <= k < d.arrival_gates.len() ==> ts_le(
                (#[trigger] d.arrival_gates[k]).timestamp,
                d.arrival_gates.last().timestamp,
            )) ==> projection(d).arrival_gate == Some(d.arrival_gates.last().gate),
{
    if d.departure_gates.len() > 0 && (forall|k: int|
        0 <= k < d.departure_gates.len() ==> ts_le(
            (#[trigger] d.departure_gates[k]).timestamp,
            d.departure_gates.last().timestamp,
        )) {
        lemma_last_max_gate_last_wins(d.departure_gates);
    }
    if d.arrival_gates.len() > 0 && (forall|k: int|
        0 <= k < d.arrival_gates.len() ==> ts_le(
            (#[trigger] d.arrival_gates[k]).timestamp,
            d.arrival_gates.last().timestamp,
        )) {
        lemma_last_max_gate_last_wins(d.arrival_gates);
    }
}

} // verus!
