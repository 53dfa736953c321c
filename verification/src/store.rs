//! The datastore: base rows for planes, airports and flights, and the four
//! append-only event streams of a flight.
//!
//! Rows live in insertion order.  Ids are assigned by the store and never
//! reused; planes and airports are soft-deleted through a flag; flight
//! events are only ever appended, each carrying the server-assigned
//! timestamp handed in at the insert.

use vstd::prelude::*;

use crate::errors::QueryError;
use crate::timestamp::{same_day, same_day_exec, ts_well_formed, Timestamp};

verus! {

/// Base airport row.
#[derive(Debug, PartialEq, Eq)]
pub struct Airport {
    pub id: u128,
    pub icao: String,
    pub iata: String,
    pub name: String,
    pub country: String,
    pub city: String,
    pub deleted: bool,
}

/// Mathematical value of an airport row.
pub struct AirportModel {
    pub id: u128,
    pub icao: Seq<char>,
    pub iata: Seq<char>,
    pub name: Seq<char>,
    pub country: Seq<char>,
    pub city: Seq<char>,
    pub deleted: bool,
}

impl View for Airport {
    type V = AirportModel;

    open spec fn view(&self) -> AirportModel {
        AirportModel {
            id: self.id,
            icao: self.icao@,
            iata: self.iata@,
            name: self.name@,
            country: self.country@,
            city: self.city@,
            deleted: self.deleted,
        }
    }
}

impl DeepView for Airport {
    type V = AirportModel;

    open spec fn deep_view(&self) -> AirportModel {
        self@
    }
}

impl Clone for Airport {
    fn clone(&self) -> (r: Self)
        ensures
            r@ == self@,
    {
        Airport {
            id: self.id,
            icao: self.icao.clone(),
            iata: self.iata.clone(),
            name: self.name.clone(),
            country: self.country.clone(),
            city: self.city.clone(),
            deleted: self.deleted,
        }
    }
}

/// Base plane row.
#[derive(Debug, PartialEq, Eq)]
pub struct Plane {
    pub id: u128,
    pub model: String,
    pub cabin_capacity: i32,
    pub cargo_capacity_kg: i32,
    pub deleted: bool,
}

/// Mathematical value of a plane row.
pub struct PlaneModel {
    pub id: u128,
    pub model: Seq<char>,
    pub cabin_capacity: i32,
    pub cargo_capacity_kg: i32,
    pub deleted: bool,
}

impl View for Plane {
    type V = PlaneModel;

    open spec fn view(&self) -> PlaneModel {
        PlaneModel {
            id: self.id,
            model: self.model@,
            cabin_capacity: self.cabin_capacity,
            cargo_capacity_kg: self.cargo_capacity_kg,
            deleted: self.deleted,
        }
    }
}

impl DeepView for Plane {
    type V = PlaneModel;

    open spec fn deep_view(&self) -> PlaneModel {
        self@
    }
}

impl Clone for Plane {
    fn clone(&self) -> (r: Self)
        ensures
            r@ == self@,
    {
        Plane {
            id: self.id,
            model: self.model.clone(),
            cabin_capacity: self.cabin_capacity,
            cargo_capacity_kg: self.cargo_capacity_kg,
            deleted: self.deleted,
        }
    }
}

/// Base flight row.  Never deleted: events keep referencing it.
#[derive(Clone, Copy, Debug, PartialEq, Eq, Structural)]
pub struct Flight {
    pub id: u128,
    pub plane_id: u128,
    pub origin_id: u128,
    pub destination_id: u128,
    pub departure_time: Timestamp,
    pub arrival_time: Timestamp,
}

impl DeepView for Flight {
    type V = Flight;

    open spec fn deep_view(&self) -> Flight {
        *self
    }
}

/// A cancellation of a flight, with an optional reason.
#[derive(Debug, PartialEq, Eq)]
pub struct EventCancelled {
    pub flight_id: u128,
    pub timestamp: Timestamp,
    pub reason: Option<String>,
}

/// Mathematical value of a cancellation event.
pub struct EventCancelledModel {
    pub flight_id: u128,
    pub timestamp: Timestamp,
    pub reason: Option<Seq<char>>,
}

impl View for EventCancelled {
    type V = EventCancelledModel;

    open spec fn view(&self) -> EventCancelledModel {
        EventCancelledModel {
            flight_id: self.flight_id,
            timestamp: self.timestamp,
            reason: match self.reason {
                Some(r) => Some(r@),
                None => None,
            },
        }
    }
}

impl DeepView for EventCancelled {
    type V = EventCancelledModel;

    open spec fn deep_view(&self) -> EventCancelledModel {
        self@
    }
}

impl Clone for EventCancelled {
    fn clone(&self) -> (r: Self)
        ensures
            r@ == self@,
    {
        EventCancelled {
            flight_id: self.flight_id,
            timestamp: self.timestamp,
            reason: match &self.reason {
                Some(r) => Some(r.clone()),
                None => None,
            },
        }
    }
}

/// A delay announcement: new expected departure and arrival times.
#[derive(Clone, Copy, Debug, PartialEq, Eq, Structural)]
pub struct EventDelayed {
    pub flight_id: u128,
    pub timestamp: Timestamp,
    pub departure_time: Timestamp,
    pub arrival_time: Timestamp,
}

impl DeepView for EventDelayed {
    type V = EventDelayed;

    open spec fn deep_view(&self) -> EventDelayed {
        *self
    }
}

/// Assignment of a departure gate.
#[derive(Debug, PartialEq, Eq)]
pub struct EventGateDepartureSet {
    pub flight_id: u128,
    pub timestamp: Timestamp,
    pub gate: String,
}

/// Assignment of an arrival gate.
#[derive(Debug, PartialEq, Eq)]
pub struct EventGateArrivalSet {
    pub flight_id: u128,
    pub timestamp: Timestamp,
    pub gate: String,
}

/// Mathematical value of either gate assignment event.
pub struct GateEventModel {
    pub flight_id: u128,
    pub timestamp: Timestamp,
    pub gate: Seq<char>,
}

impl View for EventGateDepartureSet {
    type V = GateEventModel;

    open spec fn view(&self) -> GateEventModel {
        GateEventModel { flight_id: self.flight_id, timestamp: self.timestamp, gate: self.gate@ }
    }
}

impl DeepView for EventGateDepartureSet {
    type V = GateEventModel;

    open spec fn deep_view(&self) -> GateEventModel {
        self@
    }
}

impl Clone for EventGateDepartureSet {
    fn clone(&self) -> (r: Self)
        ensures
            r@ == self@,
    {
        EventGateDepartureSet {
            flight_id: self.flight_id,
            timestamp: self.timestamp,
            gate: self.gate.clone(),
        }
    }
}

impl View for EventGateArrivalSet {
    type V = GateEventModel;

    open spec fn view(&self) -> GateEventModel {
        GateEventModel { flight_id: self.flight_id, timestamp: self.timestamp, gate: self.gate@ }
    }
}

impl DeepView for EventGateArrivalSet {
    type V = GateEventModel;

    open spec fn deep_view(&self) -> GateEventModel {
        self@
    }
}

impl Clone for EventGateArrivalSet {
    fn clone(&self) -> (r: Self)
        ensures
            r@ == self@,
    {
        EventGateArrivalSet {
            flight_id: self.flight_id,
            timestamp: self.timestamp,
            gate: self.gate.clone(),
        }
    }
}

/// First element of a sequence satisfying a predicate.
pub open spec fn find_by<T>(s: Seq<T>, p: spec_fn(T) -> bool) -> Option<T>
    decreases s.len(),
{
    if s.len() == 0 {
        None
    } else if p(s[0]) {
        Some(s[0])
    } else {
        find_by(s.drop_first(), p)
    }
}

/// The elements satisfying a predicate, in order.
pub open spec fn filter_rows<T>(s: Seq<T>, p: spec_fn(T) -> bool) -> Seq<T>
    decreases s.len(),
{
    if s.len() == 0 {
        Seq::empty()
    } else {
        let rest = filter_rows(s.drop_last(), p);
        if p(s.last()) {
            rest.push(s.last())
        } else {
            rest
        }
    }
}

/// If nothing satisfies `p`, the selection is empty.
pub proof fn lemma_filter_rows_none<T>(s: Seq<T>, p: spec_fn(T) -> bool)
    requires
        forall|k: int| 0 <= k < s.len() ==> !p(#[trigger] s[k]),
    ensures
        filter_rows(s, p) == Seq::<T>::empty(),
    decreases s.len(),
{
    if s.len() > 0 {
        assert(forall|k: int| 0 <= k < s.drop_last().len() ==> !p(#[trigger] s.drop_last()[k]));
        lemma_filter_rows_none(s.drop_last(), p);
        assert(!p(s.last()));
    }
}

/// Every selected element satisfies the predicate and comes from the table.
pub proof fn lemma_filter_rows_sub<T>(s: Seq<T>, p: spec_fn(T) -> bool)
    ensures
        forall|k: int|
            0 <= k < filter_rows(s, p).len() ==> p(#[trigger] filter_rows(s, p)[k]) && s.contains(
                filter_rows(s, p)[k],
            ),
    decreases s.len(),
{
    if s.len() > 0 {
        lemma_filter_rows_sub(s.drop_last(), p);
        let f0 = filter_rows(s.drop_last(), p);
        let f1 = filter_rows(s, p);
        assert forall|k: int| 0 <= k < f1.len() implies p(f1[k]) && s.contains(f1[k]) by {
            if k < f0.len() {
                assert(p(f0[k]));
                assert(s.drop_last().contains(f0[k]));
                let j = choose|j: int| 0 <= j < s.drop_last().len() && s.drop_last()[j] == f0[k];
                assert(s[j] == f0[k]);
            } else {
                assert(s[s.len() - 1] == s.last());
            }
        }
    }
}

/// Every element satisfies the predicate.
pub open spec fn all_rows<T>(s: Seq<T>, p: spec_fn(T) -> bool) -> bool {
    forall|i: int| 0 <= i < s.len() ==> p(#[trigger] s[i])
}

/// The key is distinct across the sequence.
pub open spec fn ids_unique<T>(s: Seq<T>, f: spec_fn(T) -> u128) -> bool {
    forall|i: int, j: int| 0 <= i < j < s.len() ==> f(#[trigger] s[i]) != f(#[trigger] s[j])
}

/// Every key lies below the assignment counter.
pub open spec fn ids_below<T>(s: Seq<T>, f: spec_fn(T) -> u128, next: u128) -> bool {
    forall|i: int| 0 <= i < s.len() ==> f(#[trigger] s[i]) < next
}

pub proof fn lemma_ids_below_weaken<T>(s: Seq<T>, f: spec_fn(T) -> u128, n1: u128, n2: u128)
    requires
        ids_below(s, f, n1),
        n1 <= n2,
    ensures
        ids_below(s, f, n2),
{
}

/// Appending a fresh key keeps uniqueness and the bound.
pub proof fn lemma_ids_push<T>(s: Seq<T>, f: spec_fn(T) -> u128, n: u128, x: T, m: u128)
    requires
        ids_unique(s, f),
        ids_below(s, f, n),
        n <= f(x) < m,
        n <= m,
    ensures
        ids_unique(s.push(x), f),
        ids_below(s.push(x), f, m),
{
    let s1 = s.push(x);
    assert forall|i: int, j: int| 0 <= i < j < s1.len() implies f(s1[i]) != f(s1[j]) by {
        if j < s.len() {
            assert(f(s[i]) != f(s[j]));
        } else {
            assert(f(s[i]) < n);
        }
    }
    assert forall|i: int| 0 <= i < s1.len() implies f(s1[i]) < m by {
        if i < s.len() {
            assert(f(s[i]) < n);
        }
    }
}

/// A pointwise key-preserving rewrite keeps uniqueness and the bound.
pub proof fn lemma_ids_pointwise<T>(s1: Seq<T>, s2: Seq<T>, f: spec_fn(T) -> u128, n: u128)
    requires
        s1.len() == s2.len(),
        forall|k: int| 0 <= k < s1.len() ==> f(#[trigger] s2[k]) == f(s1[k]),
        ids_unique(s1, f),
        ids_below(s1, f, n),
    ensures
        ids_unique(s2, f),
        ids_below(s2, f, n),
{
    assert forall|i: int, j: int| 0 <= i < j < s2.len() implies f(s2[i]) != f(s2[j]) by {
        assert(f(s1[i]) != f(s1[j]));
    }
    assert forall|i: int| 0 <= i < s2.len() implies f(s2[i]) < n by {
        assert(f(s1[i]) < n);
    }
}

pub proof fn lemma_all_rows_push<T>(s: Seq<T>, p: spec_fn(T) -> bool, x: T)
    requires
        all_rows(s, p),
        p(x),
    ensures
        all_rows(s.push(x), p),
{
    let s1 = s.push(x);
    assert forall|i: int| 0 <= i < s1.len() implies p(s1[i]) by {
        if i < s.len() {
            assert(p(s[i]));
        }
    }
}

/// If `i` is the first index satisfying `p`, the search returns `s[i]`.
pub proof fn lemma_find_by_match<T>(s: Seq<T>, p: spec_fn(T) -> bool, i: int)
    requires
        0 <= i < s.len(),
        p(s[i]),
        forall|k: int| 0 <= k < i ==> !p(s[k]),
    ensures
        find_by(s, p) == Some(s[i]),
    decreases i,
{
    if i > 0 {
        assert(!p(s[0]));
        assert(s.drop_first()[i - 1] == s[i]);
        assert(forall|k: int| 0 <= k < i - 1 ==> !p(#[trigger] s.drop_first()[k]));
        lemma_find_by_match(s.drop_first(), p, i - 1);
    }
}

/// A found element satisfies the predicate and lies in the sequence.
pub proof fn lemma_find_by_some<T>(s: Seq<T>, p: spec_fn(T) -> bool)
    ensures
        find_by(s, p) matches Some(x) ==> p(x) && s.contains(x),
    decreases s.len(),
{
    if s.len() > 0 && !p(s[0]) {
        lemma_find_by_some(s.drop_first(), p);
        if find_by(s.drop_first(), p) is Some {
            let x = find_by(s.drop_first(), p)->Some_0;
            let k = choose|k: int| 0 <= k < s.drop_first().len() && s.drop_first()[k] == x;
            assert(s[k + 1] == x);
        }
    }
}

/// If nothing satisfies `p`, the search comes back empty.
pub proof fn lemma_find_by_none<T>(s: Seq<T>, p: spec_fn(T) -> bool)
    requires
        forall|k: int| 0 <= k < s.len() ==> !p(s[k]),
    ensures
        find_by(s, p) is None,
    decreases s.len(),
{
    if s.len() > 0 {
        assert(forall|k: int| 0 <= k < s.len() - 1 ==> !p(#[trigger] s.drop_first()[k]));
        lemma_find_by_none(s.drop_first(), p);
    }
}

/// Row-selection predicates, named so every contract speaks of one term.
pub open spec fn airport_with_id(id: u128) -> spec_fn(AirportModel) -> bool {
    |a: AirportModel| a.id == id
}

pub open spec fn airport_live() -> spec_fn(AirportModel) -> bool {
    |a: AirportModel| !a.deleted
}

pub open spec fn plane_with_id(id: u128) -> spec_fn(PlaneModel) -> bool {
    |p: PlaneModel| p.id == id
}

pub open spec fn plane_live() -> spec_fn(PlaneModel) -> bool {
    |p: PlaneModel| !p.deleted
}

pub open spec fn flight_with_id(id: u128) -> spec_fn(Flight) -> bool {
    |f: Flight| f.id == id
}

/// Key projections and timestamp conditions, named so that congruence
/// carries them across unchanged tables.
pub open spec fn airport_id_of() -> spec_fn(AirportModel) -> u128 {
    |a: AirportModel| a.id
}

pub open spec fn plane_id_of() -> spec_fn(PlaneModel) -> u128 {
    |p: PlaneModel| p.id
}

pub open spec fn flight_id_of() -> spec_fn(Flight) -> u128 {
    |f: Flight| f.id
}

pub open spec fn flight_ts_ok() -> spec_fn(Flight) -> bool {
    |f: Flight| ts_well_formed(f.departure_time) && ts_well_formed(f.arrival_time)
}

pub open spec fn cancellation_ts_ok() -> spec_fn(EventCancelledModel) -> bool {
    |e: EventCancelledModel| ts_well_formed(e.timestamp)
}

pub open spec fn delay_ts_ok() -> spec_fn(EventDelayed) -> bool {
    |e: EventDelayed|
        ts_well_formed(e.timestamp) && ts_well_formed(e.departure_time) && ts_well_formed(
            e.arrival_time,
        )
}

pub open spec fn gate_ts_ok() -> spec_fn(GateEventModel) -> bool {
    |e: GateEventModel| ts_well_formed(e.timestamp)
}

/// Flight references carried by the event streams.
pub open spec fn cancellation_flight_of() -> spec_fn(EventCancelledModel) -> u128 {
    |e: EventCancelledModel| e.flight_id
}

pub open spec fn delay_flight_of() -> spec_fn(EventDelayed) -> u128 {
    |e: EventDelayed| e.flight_id
}

pub open spec fn gate_flight_of() -> spec_fn(GateEventModel) -> u128 {
    |e: GateEventModel| e.flight_id
}

/// The datastore.  The fields are exposed for specification; mutate them
/// only through the operations below, which keep [`Datastore::wf`].
pub struct Datastore {
    pub airports: Vec<Airport>,
    pub planes: Vec<Plane>,
    pub flights: Vec<Flight>,
    pub cancellations: Vec<EventCancelled>,
    pub delays: Vec<EventDelayed>,
    pub departure_gates: Vec<EventGateDepartureSet>,
    pub arrival_gates: Vec<EventGateArrivalSet>,
    pub next_id: u128,
}

impl Datastore {
    pub open spec fn airports_m(self) -> Seq<AirportModel> {
        self.airports.deep_view()
    }

    pub open spec fn planes_m(self) -> Seq<PlaneModel> {
        self.planes.deep_view()
    }

    pub open spec fn flights_m(self) -> Seq<Flight> {
        self.flights.deep_view()
    }

    pub open spec fn cancellations_m(self) -> Seq<EventCancelledModel> {
        self.cancellations.deep_view()
    }

    pub open spec fn delays_m(self) -> Seq<EventDelayed> {
        self.delays.deep_view()
    }

    pub open spec fn departure_gates_m(self) -> Seq<GateEventModel> {
        self.departure_gates.deep_view()
    }

    pub open spec fn arrival_gates_m(self) -> Seq<GateEventModel> {
        self.arrival_gates.deep_view()
    }

    /// The event streams, unchanged between two states.
    pub open spec fn same_events(a: Datastore, b: Datastore) -> bool {
        &&& a.cancellations_m() == b.cancellations_m()
        &&& a.delays_m() == b.delays_m()
        &&& a.departure_gates_m() == b.departure_gates_m()
        &&& a.arrival_gates_m() == b.arrival_gates_m()
    }

    /// Well-formedness: ids are unique within each table and below the
    /// assignment counter, and every stored timestamp is normalized.
    pub open spec fn wf(self) -> bool {
        &&& ids_unique(self.airports_m(), airport_id_of())
        &&& ids_unique(self.planes_m(), plane_id_of())
        &&& ids_unique(self.flights_m(), flight_id_of())
        &&& ids_below(self.airports_m(), airport_id_of(), self.next_id)
        &&& ids_below(self.planes_m(), plane_id_of(), self.next_id)
        &&& ids_below(self.flights_m(), flight_id_of(), self.next_id)
        &&& ids_below(self.cancellations_m(), cancellation_flight_of(), self.next_id)
        &&& ids_below(self.delays_m(), delay_flight_of(), self.next_id)
        &&& ids_below(self.departure_gates_m(), gate_flight_of(), self.next_id)
        &&& ids_below(self.arrival_gates_m(), gate_flight_of(), self.next_id)
        &&& all_rows(self.flights_m(), flight_ts_ok())
        &&& all_rows(self.cancellations_m(), cancellation_ts_ok())
        &&& all_rows(self.delays_m(), delay_ts_ok())
        &&& all_rows(self.departure_gates_m(), gate_ts_ok())
        &&& all_rows(self.arrival_gates_m(), gate_ts_ok())
    }

    /// A flight on record has an id below the assignment counter.
    pub proof fn lemma_flight_id_bounded(self, id: u128)
        requires
            self.wf(),
            find_by(self.flights_m(), flight_with_id(id)) is Some,
        ensures
            id < self.next_id,
    {
        lemma_find_by_some(self.flights_m(), flight_with_id(id));
        let row = find_by(self.flights_m(), flight_with_id(id))->Some_0;
        assert(flight_with_id(id)(row));
        let k = choose|k: int| 0 <= k < self.flights_m().len() && self.flights_m()[k] == row;
        assert(flight_id_of()(self.flights_m()[k]) < self.next_id);
    }

    /// An empty store.
    pub fn new() -> (r: Datastore)
        ensures
            r.wf(),
            r.airports_m() == Seq::<AirportModel>::empty(),
            r.planes_m() == Seq::<PlaneModel>::empty(),
            r.flights_m() == Seq::<Flight>::empty(),
            r.cancellations_m() == Seq::<EventCancelledModel>::empty(),
            r.delays_m() == Seq::<EventDelayed>::empty(),
            r.departure_gates_m() == Seq::<GateEventModel>::empty(),
            r.arrival_gates_m() == Seq::<GateEventModel>::empty(),
    {
        let r = Datastore {
            airports: Vec::new(),
            planes: Vec::new(),
            flights: Vec::new(),
            cancellations: Vec::new(),
            delays: Vec::new(),
            departure_gates: Vec::new(),
            arrival_gates: Vec::new(),
            next_id: 1,
        };
        proof {
            assert(r.airports_m() =~= Seq::<AirportModel>::empty());
            assert(r.planes_m() =~= Seq::<PlaneModel>::empty());
            assert(r.flights_m() =~= Seq::<Flight>::empty());
            assert(r.cancellations_m() =~= Seq::<EventCancelledModel>::empty());
            assert(r.delays_m() =~= Seq::<EventDelayed>::empty());
            assert(r.departure_gates_m() =~= Seq::<GateEventModel>::empty());
            assert(r.arrival_gates_m() =~= Seq::<GateEventModel>::empty());
        }
        r
    }
}

/// A table after soft-deleting the row with the given id.
pub open spec fn mark_airport_deleted(s: Seq<AirportModel>, id: u128) -> Seq<AirportModel> {
    s.map_values(
        |a: AirportModel|
            if a.id == id {
                AirportModel { deleted: true, ..a }
            } else {
                a
            },
    )
}

/// A table after replacing the row that shares the new row's id.
pub open spec fn replace_airport_row(s: Seq<AirportModel>, a: AirportModel) -> Seq<AirportModel> {
    s.map_values(
        |x: AirportModel|
            if x.id == a.id {
                a
            } else {
                x
            },
    )
}

/// Replacing the row that shares the new row's id moves the lookup of that
/// id to the new row, and nothing else.
pub proof fn lemma_find_by_replace_airport(s: Seq<AirportModel>, a: AirportModel)
    ensures
        find_by(replace_airport_row(s, a), airport_with_id(a.id)) == (
        if find_by(s, airport_with_id(a.id)) is Some {
            Some(a)
        } else {
            None::<AirportModel>
        }),
    decreases s.len(),
{
    let s1 = replace_airport_row(s, a);
    if s.len() > 0 {
        assert(s1[0] == (if s[0].id == a.id {
            a
        } else {
            s[0]
        }));
        if s[0].id != a.id {
            assert(s1.drop_first() =~= replace_airport_row(s.drop_first(), a));
            lemma_find_by_replace_airport(s.drop_first(), a);
        }
    } else {
        assert(s1.len() == 0);
    }
}

/// Soft-deleting a row moves the lookup of its id to the flagged copy.
pub proof fn lemma_find_by_mark_airport(s: Seq<AirportModel>, id: u128)
    ensures
        find_by(mark_airport_deleted(s, id), airport_with_id(id)) == (match find_by(
            s,
            airport_with_id(id),
        ) {
            Some(a) => Some(AirportModel { deleted: true, ..a }),
            None => None,
        }),
    decreases s.len(),
{
    let s1 = mark_airport_deleted(s, id);
    if s.len() > 0 {
        assert(s1[0] == (if s[0].id == id {
            AirportModel { deleted: true, ..s[0] }
        } else {
            s[0]
        }));
        if s[0].id != id {
            assert(s1.drop_first() =~= mark_airport_deleted(s.drop_first(), id));
            lemma_find_by_mark_airport(s.drop_first(), id);
        }
    } else {
        assert(s1.len() == 0);
    }
}

/// The plane analogue of [`lemma_find_by_replace_airport`].
pub proof fn lemma_find_by_replace_plane(s: Seq<PlaneModel>, a: PlaneModel)
    ensures
        find_by(replace_plane_row(s, a), plane_with_id(a.id)) == (
        if find_by(s, plane_with_id(a.id)) is Some {
            Some(a)
        } else {
            None::<PlaneModel>
        }),
    decreases s.len(),
{
    let s1 = replace_plane_row(s, a);
    if s.len() > 0 {
        assert(s1[0] == (if s[0].id == a.id {
            a
        } else {
            s[0]
        }));
        if s[0].id != a.id {
            assert(s1.drop_first() =~= replace_plane_row(s.drop_first(), a));
            lemma_find_by_replace_plane(s.drop_first(), a);
        }
    } else {
        assert(s1.len() == 0);
    }
}

impl Datastore {
    /// Airports that are not soft-deleted, in insertion order.
    pub fn list_airports(&self) -> (r: Vec<Airport>)
        ensures
            r.deep_view() == filter_rows(self.airports_m(), airport_live()),
    {
        let mut out: Vec<Airport> = Vec::new();
        let mut i: usize = 0;
        proof {
            assert(filter_rows(self.airports_m().subrange(0, 0), airport_live()) =~= Seq::<
                AirportModel,
            >::empty());
            assert(out.deep_view() =~= Seq::<AirportModel>::empty());
        }
        while i < self.airports.len()
            invariant
                i <= self.airports.len(),
                out.deep_view() == filter_rows(
                    self.airports_m().subrange(0, i as int),
                    airport_live(),
                ),
            decreases self.airports.len() - i,
        {
            let ghost pre = self.airports_m().subrange(0, i as int);
            let ghost cur = self.airports_m().subrange(0, i as int + 1);
            proof {
                assert(cur.drop_last() =~= pre);
                assert(cur.last() == self.airports_m()[i as int]);
            }
            let ghost out0 = out.deep_view();
            if !self.airports[i].deleted {
                out.push(self.airports[i].clone());
                proof {
                    assert(out.deep_view() =~= out0.push(self.airports_m()[i as int]));
                    assert(filter_rows(cur, airport_live()) == filter_rows(
                        pre,
                        airport_live(),
                    ).push(cur.last()));
                }
            } else {
                proof {
                    assert(filter_rows(cur, airport_live()) == filter_rows(pre, airport_live()));
                }
            }
            i += 1;
        }
        proof {
            assert(self.airports_m().subrange(0, self.airports.len() as int) =~= self.airports_m());
        }
        out
    }

    /// All airports, soft-deleted ones included.
    pub fn list_airports_with_deleted(&self) -> (r: Vec<Airport>)
        ensures
            r.deep_view() == self.airports_m(),
    {
        let mut out: Vec<Airport> = Vec::new();
        let mut i: usize = 0;
        proof {
            assert(out.deep_view() =~= self.airports_m().subrange(0, 0));
        }
        while i < self.airports.len()
            invariant
                i <= self.airports.len(),
                out.deep_view() == self.airports_m().subrange(0, i as int),
            decreases self.airports.len() - i,
        {
            let ghost out0 = out.deep_view();
            out.push(self.airports[i].clone());
            proof {
                assert(out.deep_view() =~= out0.push(self.airports_m()[i as int]));
                assert(out.deep_view() =~= self.airports_m().subrange(0, i as int + 1));
            }
            i += 1;
        }
        proof {
            assert(self.airports_m().subrange(0, self.airports.len() as int) =~= self.airports_m());
        }
        out
    }

    /// The airport with the given id, deleted or not; `NotFound` otherwise.
    pub fn get_airport(&self, id: u128) -> (r: Result<Airport, QueryError>)
        ensures
            match find_by(self.airports_m(), airport_with_id(id)) {
                Some(a) => r matches Ok(row) && row@ == a,
                None => r == Err::<Airport, QueryError>(QueryError::NotFound),
            },
    {
        let mut i: usize = 0;
        while i < self.airports.len()
            invariant
                i <= self.airports.len(),
                forall|k: int| 0 <= k < i ==> self.airports_m()[k].id != id,
            decreases self.airports.len() - i,
        {
            if self.airports[i].id == id {
                proof {
                    assert(airport_with_id(id)(self.airports_m()[i as int]));
                    lemma_find_by_match(self.airports_m(), airport_with_id(id), i as int);
                }
                return Ok(self.airports[i].clone());
            }
            i += 1;
        }
        proof {
            lemma_find_by_none(self.airports_m(), airport_with_id(id));
        }
        Err(QueryError::NotFound)
    }

    /// Inserts a new airport; the store assigns the id.
    pub fn create_airport(
        &mut self,
        icao: String,
        iata: String,
        name: String,
        country: String,
        city: String,
    ) -> (r: Result<Airport, QueryError>)
        requires
            old(self).wf(),
        ensures
            final(self).wf(),
            old(self).next_id == u128::MAX ==> ((r matches Err(e) && e is Unexpected)
                && *final(self) == *old(self)),
            old(self).next_id < u128::MAX ==> (r matches Ok(a) && {
                &&& a@ == (AirportModel {
                    id: old(self).next_id,
                    icao: icao@,
                    iata: iata@,
                    name: name@,
                    country: country@,
                    city: city@,
                    deleted: false,
                })
                &&& forall|k: int|
                    0 <= k < old(self).airports_m().len() ==> (#[trigger] old(
                        self,
                    ).airports_m()[k]).id != a@.id
                &&& final(self).airports_m() == old(self).airports_m().push(a@)
                &&& final(self).planes_m() == old(self).planes_m()
                &&& final(self).flights_m() == old(self).flights_m()
                &&& Datastore::same_events(*old(self), *final(self))
                &&& final(self).next_id == old(self).next_id + 1
            }),
    {
        if self.next_id == u128::MAX {
            return Err(QueryError::Unexpected("id space exhausted".to_owned()));
        }
        let a = Airport { id: self.next_id, icao, iata, name, country, city, deleted: false };
        let row = a.clone();
        self.airports.push(row);
        self.next_id = self.next_id + 1;
        proof {
            let s0 = old(self).airports_m();
            let s1 = self.airports.deep_view();
            assert(s1 =~= s0.push(a@));
            lemma_ids_push(s0, airport_id_of(), old(self).next_id, a@, self.next_id);
            lemma_ids_below_weaken(
                self.cancellations_m(),
                cancellation_flight_of(),
                old(self).next_id,
                self.next_id,
            );
            lemma_ids_below_weaken(
                self.delays_m(),
                delay_flight_of(),
                old(self).next_id,
                self.next_id,
            );
            lemma_ids_below_weaken(
                self.departure_gates_m(),
                gate_flight_of(),
                old(self).next_id,
                self.next_id,
            );
            lemma_ids_below_weaken(
                self.arrival_gates_m(),
                gate_flight_of(),
                old(self).next_id,
                self.next_id,
            );
            lemma_ids_below_weaken(self.planes_m(), plane_id_of(), old(self).next_id, self.next_id);
            lemma_ids_below_weaken(
                self.flights_m(),
                flight_id_of(),
                old(self).next_id,
                self.next_id,
            );
            assert forall|k: int| 0 <= k < s0.len() implies (#[trigger] s0[k]).id != a@.id by {
                assert(airport_id_of()(s0[k]) < old(self).next_id);
            }
        }
        Ok(a)
    }

    /// Soft-deletes the airport with the given id; touching no row is
    /// `NotFound`, the row stays visible to reads.
    pub fn delete_airport(&mut self, id: u128) -> (r: Result<(), QueryError>)
        requires
            old(self).wf(),
        ensures
            final(self).wf(),
            find_by(old(self).airports_m(), airport_with_id(id)) is None ==> (r == Err::<
                (),
                QueryError,
            >(QueryError::NotFound) && *final(self) == *old(self)),
            find_by(old(self).airports_m(), airport_with_id(id)) is Some ==> (r == Ok::<
                (),
                QueryError,
            >(()) && {
                &&& final(self).airports_m() == mark_airport_deleted(old(self).airports_m(), id)
                &&& final(self).planes_m() == old(self).planes_m()
                &&& final(self).flights_m() == old(self).flights_m()
                &&& Datastore::same_events(*old(self), *final(self))
                &&& final(self).next_id == old(self).next_id
            }),
    {
        let n = self.airports.len();
        let mut i: usize = 0;
        while i < n
            invariant
                i <= n,
                n == self.airports.len(),
                *self == *old(self),
                old(self).wf(),
                forall|k: int| 0 <= k < i ==> self.airports_m()[k].id != id,
            decreases n - i,
        {
            if self.airports[i].id == id {
                proof {
                    assert(airport_with_id(id)(self.airports_m()[i as int]));
                    lemma_find_by_match(self.airports_m(), airport_with_id(id), i as int);
                }
                self.airports[i].deleted = true;
                proof {
                    let s0 = old(self).airports_m();
                    let s1 = self.airports.deep_view();
                    assert(forall|k: int|
                        0 <= k < s0.len() && k != i ==> s1[k] == s0[k] && (#[trigger] s0[k]).id
                            != id);
                    assert(s1[i as int] == (AirportModel { deleted: true, ..s0[i as int] }));
                    assert(s1 =~= mark_airport_deleted(s0, id));
                    assert forall|k: int|
                        0 <= k < s1.len() implies airport_id_of()(#[trigger] s1[k])
                        == airport_id_of()(s0[k]) by {}
                    lemma_ids_pointwise(s0, s1, airport_id_of(), old(self).next_id);
                }
                return Ok(());
            }
            i += 1;
        }
        proof {
            lemma_find_by_none(self.airports_m(), airport_with_id(id));
        }
        Err(QueryError::NotFound)
    }

    /// Replaces the airport row sharing the new row's id, for a committed
    /// field update; touching no row is `NotFound`.
    pub fn replace_airport(&mut self, row: Airport) -> (r: Result<(), QueryError>)
        requires
            old(self).wf(),
        ensures
            final(self).wf(),
            find_by(old(self).airports_m(), airport_with_id(row.id)) is None ==> (r == Err::<
                (),
                QueryError,
            >(QueryError::NotFound) && *final(self) == *old(self)),
            find_by(old(self).airports_m(), airport_with_id(row.id)) is Some ==> (r == Ok::<
                (),
                QueryError,
            >(()) && {
                &&& final(self).airports_m() == replace_airport_row(old(self).airports_m(), row@)
                &&& final(self).planes_m() == old(self).planes_m()
                &&& final(self).flights_m() == old(self).flights_m()
                &&& Datastore::same_events(*old(self), *final(self))
                &&& final(self).next_id == old(self).next_id
            }),
    {
        let n = self.airports.len();
        let mut i: usize = 0;
        while i < n
            invariant
                i <= n,
                n == self.airports.len(),
                *self == *old(self),
                old(self).wf(),
                forall|k: int| 0 <= k < i ==> self.airports_m()[k].id != row.id,
            decreases n - i,
        {
            if self.airports[i].id == row.id {
                proof {
                    assert(airport_with_id(row.id)(self.airports_m()[i as int]));
                    lemma_find_by_match(self.airports_m(), airport_with_id(row.id), i as int);
                }
                let ghost rid = row@.id;
                let ghost rowm = row@;
                self.airports[i] = row;
                proof {
                    let s0 = old(self).airports_m();
                    let s1 = self.airports.deep_view();
                    assert(forall|k: int|
                        0 <= k < s0.len() && k != i ==> s1[k] == s0[k] && (#[trigger] s0[k]).id
                            != rid);
                    assert(s1[i as int] == rowm);
                    assert(rowm.id == s0[i as int].id);
                    assert(s1 =~= replace_airport_row(s0, rowm));
                    assert forall|k: int|
                        0 <= k < s1.len() implies airport_id_of()(#[trigger] s1[k])
                        == airport_id_of()(s0[k]) by {}
                    lemma_ids_pointwise(s0, s1, airport_id_of(), old(self).next_id);
                }
                return Ok(());
            }
            i += 1;
        }
        proof {
            lemma_find_by_none(self.airports_m(), airport_with_id(row.id));
        }
        Err(QueryError::NotFound)
    }
}

/// A plane table after soft-deleting the row with the given id.
pub open spec fn mark_plane_deleted(s: Seq<PlaneModel>, id: u128) -> Seq<PlaneModel> {
    s.map_values(
        |p: PlaneModel|
            if p.id == id {
                PlaneModel { deleted: true, ..p }
            } else {
                p
            },
    )
}

/// A plane table after replacing the row that shares the new row's id.
pub open spec fn replace_plane_row(s: Seq<PlaneModel>, p: PlaneModel) -> Seq<PlaneModel> {
    s.map_values(
        |x: PlaneModel|
            if x.id == p.id {
                p
            } else {
                x
            },
    )
}

impl Datastore {
    /// Planes that are not soft-deleted, in insertion order.
    pub fn list_planes(&self) -> (r: Vec<Plane>)
        ensures
            r.deep_view() == filter_rows(self.planes_m(), plane_live()),
    {
        let mut out: Vec<Plane> = Vec::new();
        let mut i: usize = 0;
        proof {
            assert(filter_rows(self.planes_m().subrange(0, 0), plane_live()) =~= Seq::<
                PlaneModel,
            >::empty());
            assert(out.deep_view() =~= Seq::<PlaneModel>::empty());
        }
        while i < self.planes.len()
            invariant
                i <= self.planes.len(),
                out.deep_view() == filter_rows(self.planes_m().subrange(0, i as int), plane_live()),
            decreases self.planes.len() - i,
        {
            let ghost pre = self.planes_m().subrange(0, i as int);
            let ghost cur = self.planes_m().subrange(0, i as int + 1);
            proof {
                assert(cur.drop_last() =~= pre);
                assert(cur.last() == self.planes_m()[i as int]);
            }
            let ghost out0 = out.deep_view();
            if !self.planes[i].deleted {
                out.push(self.planes[i].clone());
                proof {
                    assert(out.deep_view() =~= out0.push(self.planes_m()[i as int]));
                    assert(filter_rows(cur, plane_live()) == filter_rows(pre, plane_live()).push(
                        cur.last(),
                    ));
                }
            } else {
                proof {
                    assert(filter_rows(cur, plane_live()) == filter_rows(pre, plane_live()));
                }
            }
            i += 1;
        }
        proof {
            assert(self.planes_m().subrange(0, self.planes.len() as int) =~= self.planes_m());
        }
        out
    }

    /// All planes, soft-deleted ones included.
    pub fn list_planes_with_deleted(&self) -> (r: Vec<Plane>)
        ensures
            r.deep_view() == self.planes_m(),
    {
        let mut out: Vec<Plane> = Vec::new();
        let mut i: usize = 0;
        proof {
            assert(out.deep_view() =~= self.planes_m().subrange(0, 0));
        }
        while i < self.planes.len()
            invariant
                i <= self.planes.len(),
                out.deep_view() == self.planes_m().subrange(0, i as int),
            decreases self.planes.len() - i,
        {
            let ghost out0 = out.deep_view();
            out.push(self.planes[i].clone());
            proof {
                assert(out.deep_view() =~= out0.push(self.planes_m()[i as int]));
                assert(out.deep_view() =~= self.planes_m().subrange(0, i as int + 1));
            }
            i += 1;
        }
        proof {
            assert(self.planes_m().subrange(0, self.planes.len() as int) =~= self.planes_m());
        }
        out
    }

    /// The plane with the given id, deleted or not; `NotFound` otherwise.
    pub fn get_plane(&self, id: u128) -> (r: Result<Plane, QueryError>)
        ensures
            match find_by(self.planes_m(), plane_with_id(id)) {
                Some(p) => r matches Ok(row) && row@ == p,
                None => r == Err::<Plane, QueryError>(QueryError::NotFound),
            },
    {
        let mut i: usize = 0;
        while i < self.planes.len()
            invariant
                i <= self.planes.len(),
                forall|k: int| 0 <= k < i ==> self.planes_m()[k].id != id,
            decreases self.planes.len() - i,
        {
            if self.planes[i].id == id {
                proof {
                    assert(plane_with_id(id)(self.planes_m()[i as int]));
                    lemma_find_by_match(self.planes_m(), plane_with_id(id), i as int);
                }
                return Ok(self.planes[i].clone());
            }
            i += 1;
        }
        proof {
            lemma_find_by_none(self.planes_m(), plane_with_id(id));
        }
        Err(QueryError::NotFound)
    }

    /// Inserts a new plane; the store assigns the id.
    pub fn create_plane(&mut self, model: String, cabin_capacity: i32, cargo_capacity_kg: i32) -> (r:
        Result<Plane, QueryError>)
        requires
            old(self).wf(),
        ensures
            final(self).wf(),
            old(self).next_id == u128::MAX ==> ((r matches Err(e) && e is Unexpected)
                && *final(self) == *old(self)),
            old(self).next_id < u128::MAX ==> (r matches Ok(p) && {
                &&& p@ == (PlaneModel {
                    id: old(self).next_id,
                    model: model@,
                    cabin_capacity: cabin_capacity,
                    cargo_capacity_kg: cargo_capacity_kg,
                    deleted: false,
                })
                &&& forall|k: int|
                    0 <= k < old(self).planes_m().len() ==> (#[trigger] old(
                        self,
                    ).planes_m()[k]).id != p@.id
                &&& final(self).planes_m() == old(self).planes_m().push(p@)
                &&& final(self).airports_m() == old(self).airports_m()
                &&& final(self).flights_m() == old(self).flights_m()
                &&& Datastore::same_events(*old(self), *final(self))
                &&& final(self).next_id == old(self).next_id + 1
            }),
    {
        if self.next_id == u128::MAX {
            return Err(QueryError::Unexpected("id space exhausted".to_owned()));
        }
        let p = Plane { id: self.next_id, model, cabin_capacity, cargo_capacity_kg, deleted: false };
        let row = p.clone();
        self.planes.push(row);
        self.next_id = self.next_id + 1;
        proof {
            let s0 = old(self).planes_m();
            let s1 = self.planes.deep_view();
            assert(s1 =~= s0.push(p@));
            lemma_ids_push(s0, plane_id_of(), old(self).next_id, p@, self.next_id);
            lemma_ids_below_weaken(
                self.cancellations_m(),
                cancellation_flight_of(),
                old(self).next_id,
                self.next_id,
            );
            lemma_ids_below_weaken(
                self.delays_m(),
                delay_flight_of(),
                old(self).next_id,
                self.next_id,
            );
            lemma_ids_below_weaken(
                self.departure_gates_m(),
                gate_flight_of(),
                old(self).next_id,
                self.next_id,
            );
            lemma_ids_below_weaken(
                self.arrival_gates_m(),
                gate_flight_of(),
                old(self).next_id,
                self.next_id,
            );
            lemma_ids_below_weaken(
                self.airports_m(),
                airport_id_of(),
                old(self).next_id,
                self.next_id,
            );
            lemma_ids_below_weaken(
                self.flights_m(),
                flight_id_of(),
                old(self).next_id,
                self.next_id,
            );
            assert forall|k: int| 0 <= k < s0.len() implies (#[trigger] s0[k]).id != p@.id by {
                assert(plane_id_of()(s0[k]) < old(self).next_id);
            }
        }
        Ok(p)
    }

    /// Soft-deletes the plane with the given id; touching no row is
    /// `NotFound`.
    pub fn delete_plane(&mut self, id: u128) -> (r: Result<(), QueryError>)
        requires
            old(self).wf(),
        ensures
            final(self).wf(),
            find_by(old(self).planes_m(), plane_with_id(id)) is None ==> (r == Err::<
                (),
                QueryError,
            >(QueryError::NotFound) && *final(self) == *old(self)),
            find_by(old(self).planes_m(), plane_with_id(id)) is Some ==> (r == Ok::<
                (),
                QueryError,
            >(()) && {
                &&& final(self).planes_m() == mark_plane_deleted(old(self).planes_m(), id)
                &&& final(self).airports_m() == old(self).airports_m()
                &&& final(self).flights_m() == old(self).flights_m()
                &&& Datastore::same_events(*old(self), *final(self))
                &&& final(self).next_id == old(self).next_id
            }),
    {
        let n = self.planes.len();
        let mut i: usize = 0;
        while i < n
            invariant
                i <= n,
                n == self.planes.len(),
                *self == *old(self),
                old(self).wf(),
                forall|k: int| 0 <= k < i ==> self.planes_m()[k].id != id,
            decreases n - i,
        {
            if self.planes[i].id == id {
                proof {
                    assert(plane_with_id(id)(self.planes_m()[i as int]));
                    lemma_find_by_match(self.planes_m(), plane_with_id(id), i as int);
                }
                self.planes[i].deleted = true;
                proof {
                    let s0 = old(self).planes_m();
                    let s1 = self.planes.deep_view();
                    assert(forall|k: int|
                        0 <= k < s0.len() && k != i ==> s1[k] == s0[k] && (#[trigger] s0[k]).id
                            != id);
                    assert(s1[i as int] == (PlaneModel { deleted: true, ..s0[i as int] }));
                    assert(s1 =~= mark_plane_deleted(s0, id));
                    assert forall|k: int|
                        0 <= k < s1.len() implies plane_id_of()(#[trigger] s1[k]) == plane_id_of()(
                        s0[k],
                    ) by {}
                    lemma_ids_pointwise(s0, s1, plane_id_of(), old(self).next_id);
                }
                return Ok(());
            }
            i += 1;
        }
        proof {
            lemma_find_by_none(self.planes_m(), plane_with_id(id));
        }
        Err(QueryError::NotFound)
    }

    /// Replaces the plane row sharing the new row's id, for a committed
    /// field update; touching no row is `NotFound`.
    pub fn replace_plane(&mut self, row: Plane) -> (r: Result<(), QueryError>)
        requires
            old(self).wf(),
        ensures
            final(self).wf(),
            find_by(old(self).planes_m(), plane_with_id(row.id)) is None ==> (r == Err::<
                (),
                QueryError,
            >(QueryError::NotFound) && *final(self) == *old(self)),
            find_by(old(self).planes_m(), plane_with_id(row.id)) is Some ==> (r == Ok::<
                (),
                QueryError,
            >(()) && {
                &&& final(self).planes_m() == replace_plane_row(old(self).planes_m(), row@)
                &&& final(self).airports_m() == old(self).airports_m()
                &&& final(self).flights_m() == old(self).flights_m()
                &&& Datastore::same_events(*old(self), *final(self))
                &&& final(self).next_id == old(self).next_id
            }),
    {
        let n = self.planes.len();
        let mut i: usize = 0;
        while i < n
            invariant
                i <= n,
                n == self.planes.len(),
                *self == *old(self),
                old(self).wf(),
                forall|k: int| 0 <= k < i ==> self.planes_m()[k].id != row.id,
            decreases n - i,
        {
            if self.planes[i].id == row.id {
                proof {
                    assert(plane_with_id(row.id)(self.planes_m()[i as int]));
                    lemma_find_by_match(self.planes_m(), plane_with_id(row.id), i as int);
                }
                let ghost rid = row@.id;
                let ghost rowm = row@;
                self.planes[i] = row;
                proof {
                    let s0 = old(self).planes_m();
                    let s1 = self.planes.deep_view();
                    assert(forall|k: int|
                        0 <= k < s0.len() && k != i ==> s1[k] == s0[k] && (#[trigger] s0[k]).id
                            != rid);
                    assert(s1[i as int] == rowm);
                    assert(rowm.id == s0[i as int].id);
                    assert(s1 =~= replace_plane_row(s0, rowm));
                    assert forall|k: int|
                        0 <= k < s1.len() implies plane_id_of()(#[trigger] s1[k]) == plane_id_of()(
                        s0[k],
                    ) by {}
                    lemma_ids_pointwise(s0, s1, plane_id_of(), old(self).next_id);
                }
                return Ok(());
            }
            i += 1;
        }
        proof {
            lemma_find_by_none(self.planes_m(), plane_with_id(row.id));
        }
        Err(QueryError::NotFound)
    }
}

/// A cancellation for the given flight exists.
pub open spec fn has_cancellation_for(cs: Seq<EventCancelledModel>, id: u128) -> bool {
    exists|k: int| 0 <= k < cs.len() && (#[trigger] cs[k]).flight_id == id
}

/// A flight with no cancellation on record.
pub open spec fn flight_not_cancelled(cs: Seq<EventCancelledModel>) -> spec_fn(Flight) -> bool {
    |f: Flight| !has_cancellation_for(cs, f.id)
}

/// The search predicate: airport equality plus calendar-day containment of
/// the departure time.
pub open spec fn flight_search_hit(o: u128, d: u128, day: Timestamp) -> spec_fn(Flight) -> bool {
    |f: Flight| f.origin_id == o && f.destination_id == d && same_day(f.departure_time, day)
}

/// Batch-read selection: events of any flight in the id set.
pub open spec fn cancellation_for_flights(ids: Seq<u128>) -> spec_fn(EventCancelledModel) -> bool {
    |e: EventCancelledModel| ids.contains(e.flight_id)
}

pub open spec fn delay_for_flights(ids: Seq<u128>) -> spec_fn(EventDelayed) -> bool {
    |e: EventDelayed| ids.contains(e.flight_id)
}

pub open spec fn gate_for_flights(ids: Seq<u128>) -> spec_fn(GateEventModel) -> bool {
    |e: GateEventModel| ids.contains(e.flight_id)
}

/// The referenced plane and airports all exist (deleted or not), as the
/// store's referential guard for a new flight demands.
pub open spec fn flight_refs_ok(s: Datastore, plane_id: u128, origin_id: u128, destination_id: u128) -> bool {
    &&& find_by(s.planes_m(), plane_with_id(plane_id)) is Some
    &&& find_by(s.airports_m(), airport_with_id(origin_id)) is Some
    &&& find_by(s.airports_m(), airport_with_id(destination_id)) is Some
}

/// Membership in a plain id list.
fn contains_id(ids: &Vec<u128>, x: u128) -> (r: bool)
    ensures
        r == ids@.contains(x),
{
    let mut i: usize = 0;
    while i < ids.len()
        invariant
            i <= ids.len(),
            forall|k: int| 0 <= k < i ==> ids@[k] != x,
        decreases ids.len() - i,
    {
        if ids[i] == x {
            return true;
        }
        i += 1;
    }
    false
}

impl Datastore {
    /// Whether a flight row with the given id exists.
    pub fn flight_exists(&self, id: u128) -> (r: bool)
        ensures
            r == (find_by(self.flights_m(), flight_with_id(id)) is Some),
    {
        let mut i: usize = 0;
        while i < self.flights.len()
            invariant
                i <= self.flights.len(),
                forall|k: int| 0 <= k < i ==> self.flights_m()[k].id != id,
            decreases self.flights.len() - i,
        {
            if self.flights[i].id == id {
                proof {
                    assert(flight_with_id(id)(self.flights_m()[i as int]));
                    lemma_find_by_match(self.flights_m(), flight_with_id(id), i as int);
                }
                return true;
            }
            i += 1;
        }
        proof {
            lemma_find_by_none(self.flights_m(), flight_with_id(id));
        }
        false
    }

    /// Whether an airport row with the given id exists.
    pub fn airport_exists(&self, id: u128) -> (r: bool)
        ensures
            r == (find_by(self.airports_m(), airport_with_id(id)) is Some),
    {
        let mut i: usize = 0;
        while i < self.airports.len()
            invariant
                i <= self.airports.len(),
                forall|k: int| 0 <= k < i ==> self.airports_m()[k].id != id,
            decreases self.airports.len() - i,
        {
            if self.airports[i].id == id {
                proof {
                    assert(airport_with_id(id)(self.airports_m()[i as int]));
                    lemma_find_by_match(self.airports_m(), airport_with_id(id), i as int);
                }
                return true;
            }
            i += 1;
        }
        proof {
            lemma_find_by_none(self.airports_m(), airport_with_id(id));
        }
        false
    }

    /// Whether a plane row with the given id exists.
    pub fn plane_exists(&self, id: u128) -> (r: bool)
        ensures
            r == (find_by(self.planes_m(), plane_with_id(id)) is Some),
    {
        let mut i: usize = 0;
        while i < self.planes.len()
            invariant
                i <= self.planes.len(),
                forall|k: int| 0 <= k < i ==> self.planes_m()[k].id != id,
            decreases self.planes.len() - i,
        {
            if self.planes[i].id == id {
                proof {
                    assert(plane_with_id(id)(self.planes_m()[i as int]));
                    lemma_find_by_match(self.planes_m(), plane_with_id(id), i as int);
                }
                return true;
            }
            i += 1;
        }
        proof {
            lemma_find_by_none(self.planes_m(), plane_with_id(id));
        }
        false
    }

    /// Whether any cancellation is on record for the flight.
    pub fn has_cancellation(&self, id: u128) -> (r: bool)
        ensures
            r == has_cancellation_for(self.cancellations_m(), id),
    {
        let mut i: usize = 0;
        while i < self.cancellations.len()
            invariant
                i <= self.cancellations.len(),
                forall|k: int| 0 <= k < i ==> self.cancellations_m()[k].flight_id != id,
            decreases self.cancellations.len() - i,
        {
            if self.cancellations[i].flight_id == id {
                proof {
                    assert(self.cancellations_m()[i as int].flight_id == id);
                }
                return true;
            }
            i += 1;
        }
        false
    }

    /// Flights with no cancellation on record, in insertion order.
    pub fn list_flights(&self) -> (r: Vec<Flight>)
        ensures
            r.deep_view() == filter_rows(
                self.flights_m(),
                flight_not_cancelled(self.cancellations_m()),
            ),
    {
        let ghost p = flight_not_cancelled(self.cancellations_m());
        let mut out: Vec<Flight> = Vec::new();
        let mut i: usize = 0;
        proof {
            assert(filter_rows(self.flights_m().subrange(0, 0), p) =~= Seq::<Flight>::empty());
            assert(out.deep_view() =~= Seq::<Flight>::empty());
        }
        while i < self.flights.len()
            invariant
                i <= self.flights.len(),
                p == flight_not_cancelled(self.cancellations_m()),
                out.deep_view() == filter_rows(self.flights_m().subrange(0, i as int), p),
            decreases self.flights.len() - i,
        {
            let ghost pre = self.flights_m().subrange(0, i as int);
            let ghost cur = self.flights_m().subrange(0, i as int + 1);
            proof {
                assert(cur.drop_last() =~= pre);
                assert(cur.last() == self.flights_m()[i as int]);
            }
            let ghost out0 = out.deep_view();
            let f = self.flights[i];
            if !self.has_cancellation(f.id) {
                out.push(f);
                proof {
                    assert(out.deep_view() =~= out0.push(self.flights_m()[i as int]));
                    assert(filter_rows(cur, p) == filter_rows(pre, p).push(cur.last()));
                }
            } else {
                proof {
                    assert(!p(cur.last()));
                    assert(filter_rows(cur, p) == filter_rows(pre, p));
                }
            }
            i += 1;
        }
        proof {
            assert(self.flights_m().subrange(0, self.flights.len() as int) =~= self.flights_m());
        }
        out
    }

    /// All flights, cancelled ones included.
    pub fn list_flights_with_cancelled(&self) -> (r: Vec<Flight>)
        ensures
            r.deep_view() == self.flights_m(),
    {
        let mut out: Vec<Flight> = Vec::new();
        let mut i: usize = 0;
        proof {
            assert(out.deep_view() =~= self.flights_m().subrange(0, 0));
        }
        while i < self.flights.len()
            invariant
                i <= self.flights.len(),
                out.deep_view() == self.flights_m().subrange(0, i as int),
            decreases self.flights.len() - i,
        {
            let ghost out0 = out.deep_view();
            out.push(self.flights[i]);
            proof {
                assert(out.deep_view() =~= out0.push(self.flights_m()[i as int]));
                assert(out.deep_view() =~= self.flights_m().subrange(0, i as int + 1));
            }
            i += 1;
        }
        proof {
            assert(self.flights_m().subrange(0, self.flights.len() as int) =~= self.flights_m());
        }
        out
    }

    /// The flight with the given id; `NotFound` otherwise.
    pub fn get_flight(&self, id: u128) -> (r: Result<Flight, QueryError>)
        ensures
            match find_by(self.flights_m(), flight_with_id(id)) {
                Some(f) => r == Ok::<Flight, QueryError>(f),
                None => r == Err::<Flight, QueryError>(QueryError::NotFound),
            },
    {
        let mut i: usize = 0;
        while i < self.flights.len()
            invariant
                i <= self.flights.len(),
                forall|k: int| 0 <= k < i ==> self.flights_m()[k].id != id,
            decreases self.flights.len() - i,
        {
            if self.flights[i].id == id {
                proof {
                    assert(flight_with_id(id)(self.flights_m()[i as int]));
                    lemma_find_by_match(self.flights_m(), flight_with_id(id), i as int);
                }
                return Ok(self.flights[i]);
            }
            i += 1;
        }
        proof {
            lemma_find_by_none(self.flights_m(), flight_with_id(id));
        }
        Err(QueryError::NotFound)
    }

    /// Flights from one airport to another departing on the same calendar
    /// day as the given instant.
    pub fn search_flights(&self, origin_id: u128, destination_id: u128, day: Timestamp) -> (r: Vec<
        Flight,
    >)
        requires
            self.wf(),
            ts_well_formed(day),
        ensures
            r.deep_view() == filter_rows(
                self.flights_m(),
                flight_search_hit(origin_id, destination_id, day),
            ),
    {
        let ghost p = flight_search_hit(origin_id, destination_id, day);
        let mut out: Vec<Flight> = Vec::new();
        let mut i: usize = 0;
        proof {
            assert(filter_rows(self.flights_m().subrange(0, 0), p) =~= Seq::<Flight>::empty());
            assert(out.deep_view() =~= Seq::<Flight>::empty());
        }
        while i < self.flights.len()
            invariant
                self.wf(),
                ts_well_formed(day),
                i <= self.flights.len(),
                p == flight_search_hit(origin_id, destination_id, day),
                out.deep_view() == filter_rows(self.flights_m().subrange(0, i as int), p),
            decreases self.flights.len() - i,
        {
            let ghost pre = self.flights_m().subrange(0, i as int);
            let ghost cur = self.flights_m().subrange(0, i as int + 1);
            proof {
                assert(cur.drop_last() =~= pre);
                assert(cur.last() == self.flights_m()[i as int]);
                assert(flight_ts_ok()(self.flights_m()[i as int]));
            }
            let ghost out0 = out.deep_view();
            let f = self.flights[i];
            if f.origin_id == origin_id && f.destination_id == destination_id && same_day_exec(
                &f.departure_time,
                &day,
            ) {
                out.push(f);
                proof {
                    assert(out.deep_view() =~= out0.push(self.flights_m()[i as int]));
                    assert(filter_rows(cur, p) == filter_rows(pre, p).push(cur.last()));
                }
            } else {
                proof {
                    assert(!p(cur.last()));
                    assert(filter_rows(cur, p) == filter_rows(pre, p));
                }
            }
            i += 1;
        }
        proof {
            assert(self.flights_m().subrange(0, self.flights.len() as int) =~= self.flights_m());
        }
        out
    }

    /// Inserts a new flight with empty event streams; the store assigns the
    /// id.  A dangling plane or airport reference is refused, as the
    /// store's referential guard, and surfaces as an unclassified error.
    pub fn create_flight(
        &mut self,
        plane_id: u128,
        origin_id: u128,
        destination_id: u128,
        departure_time: Timestamp,
        arrival_time: Timestamp,
    ) -> (r: Result<Flight, QueryError>)
        requires
            old(self).wf(),
            ts_well_formed(departure_time),
            ts_well_formed(arrival_time),
        ensures
            final(self).wf(),
            !flight_refs_ok(*old(self), plane_id, origin_id, destination_id) ==> ((r matches Err(e)
                && e is Other) && *final(self) == *old(self)),
            flight_refs_ok(*old(self), plane_id, origin_id, destination_id) && old(self).next_id
                == u128::MAX ==> ((r matches Err(e) && e is Unexpected) && *final(self) == *old(
                self,
            )),
            flight_refs_ok(*old(self), plane_id, origin_id, destination_id) && old(self).next_id
                < u128::MAX ==> (r matches Ok(f) && {
                &&& f == (Flight {
                    id: old(self).next_id,
                    plane_id,
                    origin_id,
                    destination_id,
                    departure_time,
                    arrival_time,
                })
                &&& forall|k: int|
                    0 <= k < old(self).flights_m().len() ==> (#[trigger] old(
                        self,
                    ).flights_m()[k]).id != f.id
                &&& final(self).flights_m() == old(self).flights_m().push(f)
                &&& final(self).airports_m() == old(self).airports_m()
                &&& final(self).planes_m() == old(self).planes_m()
                &&& Datastore::same_events(*old(self), *final(self))
                &&& final(self).next_id == old(self).next_id + 1
            }),
    {
        if !self.plane_exists(plane_id) || !self.airport_exists(origin_id) || !self.airport_exists(
            destination_id,
        ) {
            return Err(QueryError::Other("flight references a missing row".to_owned()));
        }
        if self.next_id == u128::MAX {
            return Err(QueryError::Unexpected("id space exhausted".to_owned()));
        }
        let f = Flight {
            id: self.next_id,
            plane_id,
            origin_id,
            destination_id,
            departure_time,
            arrival_time,
        };
        self.flights.push(f);
        self.next_id = self.next_id + 1;
        proof {
            let s0 = old(self).flights_m();
            let s1 = self.flights.deep_view();
            assert(s1 =~= s0.push(f));
            lemma_ids_push(s0, flight_id_of(), old(self).next_id, f, self.next_id);
            lemma_ids_below_weaken(
                self.cancellations_m(),
                cancellation_flight_of(),
                old(self).next_id,
                self.next_id,
            );
            lemma_ids_below_weaken(
                self.delays_m(),
                delay_flight_of(),
                old(self).next_id,
                self.next_id,
            );
            lemma_ids_below_weaken(
                self.departure_gates_m(),
                gate_flight_of(),
                old(self).next_id,
                self.next_id,
            );
            lemma_ids_below_weaken(
                self.arrival_gates_m(),
                gate_flight_of(),
                old(self).next_id,
                self.next_id,
            );
            lemma_ids_below_weaken(
                self.airports_m(),
                airport_id_of(),
                old(self).next_id,
                self.next_id,
            );
            lemma_ids_below_weaken(
                self.planes_m(),
                plane_id_of(),
                old(self).next_id,
                self.next_id,
            );
            lemma_all_rows_push(s0, flight_ts_ok(), f);
            assert forall|k: int| 0 <= k < s0.len() implies (#[trigger] s0[k]).id != f.id by {
                assert(flight_id_of()(s0[k]) < old(self).next_id);
            }
        }
        Ok(f)
    }
}

impl Datastore {
    /// All cancellations of any flight in the id set, in insertion order.
    pub fn get_event_cancelled(&self, ids: &Vec<u128>) -> (r: Vec<EventCancelled>)
        ensures
            r.deep_view() == filter_rows(self.cancellations_m(), cancellation_for_flights(ids@)),
    {
        let ghost p = cancellation_for_flights(ids@);
        let mut out: Vec<EventCancelled> = Vec::new();
        let mut i: usize = 0;
        proof {
            assert(filter_rows(self.cancellations_m().subrange(0, 0), p) =~= Seq::<
                EventCancelledModel,
            >::empty());
            assert(out.deep_view() =~= Seq::<EventCancelledModel>::empty());
        }
        while i < self.cancellations.len()
            invariant
                i <= self.cancellations.len(),
                p == cancellation_for_flights(ids@),
                out.deep_view() == filter_rows(self.cancellations_m().subrange(0, i as int), p),
            decreases self.cancellations.len() - i,
        {
            let ghost pre = self.cancellations_m().subrange(0, i as int);
            let ghost cur = self.cancellations_m().subrange(0, i as int + 1);
            proof {
                assert(cur.drop_last() =~= pre);
                assert(cur.last() == self.cancellations_m()[i as int]);
            }
            let ghost out0 = out.deep_view();
            if contains_id(ids, self.cancellations[i].flight_id) {
                out.push(self.cancellations[i].clone());
                proof {
                    assert(out.deep_view() =~= out0.push(self.cancellations_m()[i as int]));
                    assert(filter_rows(cur, p) == filter_rows(pre, p).push(cur.last()));
                }
            } else {
                proof {
                    assert(!p(cur.last()));
                    assert(filter_rows(cur, p) == filter_rows(pre, p));
                }
            }
            i += 1;
        }
        proof {
            assert(self.cancellations_m().subrange(0, self.cancellations.len() as int)
                =~= self.cancellations_m());
        }
        out
    }

    /// All delays of any flight in the id set, in insertion order.
    pub fn get_event_delayed(&self, ids: &Vec<u128>) -> (r: Vec<EventDelayed>)
        ensures
            r.deep_view() == filter_rows(self.delays_m(), delay_for_flights(ids@)),
    {
        let ghost p = delay_for_flights(ids@);
        let mut out: Vec<EventDelayed> = Vec::new();
        let mut i: usize = 0;
        proof {
            assert(filter_rows(self.delays_m().subrange(0, 0), p) =~= Seq::<
                EventDelayed,
            >::empty());
            assert(out.deep_view() =~= Seq::<EventDelayed>::empty());
        }
        while i < self.delays.len()
            invariant
                i <= self.delays.len(),
                p == delay_for_flights(ids@),
                out.deep_view() == filter_rows(self.delays_m().subrange(0, i as int), p),
            decreases self.delays.len() - i,
        {
            let ghost pre = self.delays_m().subrange(0, i as int);
            let ghost cur = self.delays_m().subrange(0, i as int + 1);
            proof {
                assert(cur.drop_last() =~= pre);
                assert(cur.last() == self.delays_m()[i as int]);
            }
            let ghost out0 = out.deep_view();
            if contains_id(ids, self.delays[i].flight_id) {
                out.push(self.delays[i]);
                proof {
                    assert(out.deep_view() =~= out0.push(self.delays_m()[i as int]));
                    assert(filter_rows(cur, p) == filter_rows(pre, p).push(cur.last()));
                }
            } else {
                proof {
                    assert(!p(cur.last()));
                    assert(filter_rows(cur, p) == filter_rows(pre, p));
                }
            }
            i += 1;
        }
        proof {
            assert(self.delays_m().subrange(0, self.delays.len() as int) =~= self.delays_m());
        }
        out
    }

    /// All departure-gate assignments of any flight in the id set.
    pub fn get_event_gate_dep(&self, ids: &Vec<u128>) -> (r: Vec<EventGateDepartureSet>)
        ensures
            r.deep_view() == filter_rows(self.departure_gates_m(), gate_for_flights(ids@)),
    {
        let ghost p = gate_for_flights(ids@);
        let mut out: Vec<EventGateDepartureSet> = Vec::new();
        let mut i: usize = 0;
        proof {
            assert(filter_rows(self.departure_gates_m().subrange(0, 0), p) =~= Seq::<
                GateEventModel,
            >::empty());
            assert(out.deep_view() =~= Seq::<GateEventModel>::empty());
        }
        while i < self.departure_gates.len()
            invariant
                i <= self.departure_gates.len(),
                p == gate_for_flights(ids@),
                out.deep_view() == filter_rows(self.departure_gates_m().subrange(0, i as int), p),
            decreases self.departure_gates.len() - i,
        {
            let ghost pre = self.departure_gates_m().subrange(0, i as int);
            let ghost cur = self.departure_gates_m().subrange(0, i as int + 1);
            proof {
                assert(cur.drop_last() =~= pre);
                assert(cur.last() == self.departure_gates_m()[i as int]);
            }
            let ghost out0 = out.deep_view();
            if contains_id(ids, self.departure_gates[i].flight_id) {
                out.push(self.departure_gates[i].clone());
                proof {
                    assert(out.deep_view() =~= out0.push(self.departure_gates_m()[i as int]));
                    assert(filter_rows(cur, p) == filter_rows(pre, p).push(cur.last()));
                }
            } else {
                proof {
                    assert(!p(cur.last()));
                    assert(filter_rows(cur, p) == filter_rows(pre, p));
                }
            }
            i += 1;
        }
        proof {
            assert(self.departure_gates_m().subrange(0, self.departure_gates.len() as int)
                =~= self.departure_gates_m());
        }
        out
    }

    /// All arrival-gate assignments of any flight in the id set.
    pub fn get_event_gate_arr(&self, ids: &Vec<u128>) -> (r: Vec<EventGateArrivalSet>)
        ensures
            r.deep_view() == filter_rows(self.arrival_gates_m(), gate_for_flights(ids@)),
    {
        let ghost p = gate_for_flights(ids@);
        let mut out: Vec<EventGateArrivalSet> = Vec::new();
        let mut i: usize = 0;
        proof {
            assert(filter_rows(self.arrival_gates_m().subrange(0, 0), p) =~= Seq::<
                GateEventModel,
            >::empty());
            assert(out.deep_view() =~= Seq::<GateEventModel>::empty());
        }
        while i < self.arrival_gates.len()
            invariant
                i <= self.arrival_gates.len(),
                p == gate_for_flights(ids@),
                out.deep_view() == filter_rows(self.arrival_gates_m().subrange(0, i as int), p),
            decreases self.arrival_gates.len() - i,
        {
            let ghost pre = self.arrival_gates_m().subrange(0, i as int);
            let ghost cur = self.arrival_gates_m().subrange(0, i as int + 1);
            proof {
                assert(cur.drop_last() =~= pre);
                assert(cur.last() == self.arrival_gates_m()[i as int]);
            }
            let ghost out0 = out.deep_view();
            if contains_id(ids, self.arrival_gates[i].flight_id) {
                out.push(self.arrival_gates[i].clone());
                proof {
                    assert(out.deep_view() =~= out0.push(self.arrival_gates_m()[i as int]));
                    assert(filter_rows(cur, p) == filter_rows(pre, p).push(cur.last()));
                }
            } else {
                proof {
                    assert(!p(cur.last()));
                    assert(filter_rows(cur, p) == filter_rows(pre, p));
                }
            }
            i += 1;
        }
        proof {
            assert(self.arrival_gates_m().subrange(0, self.arrival_gates.len() as int)
                =~= self.arrival_gates_m());
        }
        out
    }

    /// Appends a cancellation for the flight, stamped with the
    /// server-assigned instant handed in; a missing flight is `NotFound`.
    pub fn add_event_cancelled(&mut self, id: u128, reason: String, now: Timestamp) -> (r: Result<
        EventCancelled,
        QueryError,
    >)
        requires
            old(self).wf(),
            ts_well_formed(now),
        ensures
            final(self).wf(),
            find_by(old(self).flights_m(), flight_with_id(id)) is None ==> (r == Err::<
                EventCancelled,
                QueryError,
            >(QueryError::NotFound) && *final(self) == *old(self)),
            find_by(old(self).flights_m(), flight_with_id(id)) is Some ==> (r matches Ok(e) && {
                &&& e@ == (EventCancelledModel { flight_id: id, timestamp: now, reason: Some(
                    reason@,
                ) })
                &&& final(self).cancellations_m() == old(self).cancellations_m().push(e@)
                &&& final(self).airports_m() == old(self).airports_m()
                &&& final(self).planes_m() == old(self).planes_m()
                &&& final(self).flights_m() == old(self).flights_m()
                &&& final(self).delays_m() == old(self).delays_m()
                &&& final(self).departure_gates_m() == old(self).departure_gates_m()
                &&& final(self).arrival_gates_m() == old(self).arrival_gates_m()
                &&& final(self).next_id == old(self).next_id
            }),
    {
        if !self.flight_exists(id) {
            return Err(QueryError::NotFound);
        }
        let e = EventCancelled { flight_id: id, timestamp: now, reason: Some(reason) };
        let row = e.clone();
        self.cancellations.push(row);
        proof {
            let s0 = old(self).cancellations_m();
            let s1 = self.cancellations.deep_view();
            assert(s1 =~= s0.push(e@));
            lemma_all_rows_push(s0, cancellation_ts_ok(), e@);
            old(self).lemma_flight_id_bounded(id);
            assert forall|k: int| 0 <= k < s1.len() implies cancellation_flight_of()(#[trigger] s1[k])
                < self.next_id by {
                if k < s0.len() {
                    assert(cancellation_flight_of()(s0[k]) < self.next_id);
                }
            }
        }
        Ok(e)
    }

    /// Appends a delay announcement for the flight; a missing flight is
    /// `NotFound`.
    pub fn add_event_delayed(
        &mut self,
        id: u128,
        departure_time: Timestamp,
        arrival_time: Timestamp,
        now: Timestamp,
    ) -> (r: Result<EventDelayed, QueryError>)
        requires
            old(self).wf(),
            ts_well_formed(now),
            ts_well_formed(departure_time),
            ts_well_formed(arrival_time),
        ensures
            final(self).wf(),
            find_by(old(self).flights_m(), flight_with_id(id)) is None ==> (r == Err::<
                EventDelayed,
                QueryError,
            >(QueryError::NotFound) && *final(self) == *old(self)),
            find_by(old(self).flights_m(), flight_with_id(id)) is Some ==> (r matches Ok(e) && {
                &&& e == (EventDelayed { flight_id: id, timestamp: now, departure_time, arrival_time })
                &&& final(self).delays_m() == old(self).delays_m().push(e)
                &&& final(self).airports_m() == old(self).airports_m()
                &&& final(self).planes_m() == old(self).planes_m()
                &&& final(self).flights_m() == old(self).flights_m()
                &&& final(self).cancellations_m() == old(self).cancellations_m()
                &&& final(self).departure_gates_m() == old(self).departure_gates_m()
                &&& final(self).arrival_gates_m() == old(self).arrival_gates_m()
                &&& final(self).next_id == old(self).next_id
            }),
    {
        if !self.flight_exists(id) {
            return Err(QueryError::NotFound);
        }
        let e = EventDelayed { flight_id: id, timestamp: now, departure_time, arrival_time };
        self.delays.push(e);
        proof {
            let s0 = old(self).delays_m();
            let s1 = self.delays.deep_view();
            assert(s1 =~= s0.push(e));
            lemma_all_rows_push(s0, delay_ts_ok(), e);
            old(self).lemma_flight_id_bounded(id);
            assert forall|k: int| 0 <= k < s1.len() implies delay_flight_of()(#[trigger] s1[k])
                < self.next_id by {
                if k < s0.len() {
                    assert(delay_flight_of()(s0[k]) < self.next_id);
                }
            }
        }
        Ok(e)
    }

    /// Appends a departure-gate assignment for the flight; a missing flight
    /// is `NotFound`.
    pub fn add_event_gate_dep_set(&mut self, id: u128, gate: String, now: Timestamp) -> (r: Result<
        EventGateDepartureSet,
        QueryError,
    >)
        requires
            old(self).wf(),
            ts_well_formed(now),
        ensures
            final(self).wf(),
            find_by(old(self).flights_m(), flight_with_id(id)) is None ==> (r == Err::<
                EventGateDepartureSet,
                QueryError,
            >(QueryError::NotFound) && *final(self) == *old(self)),
            find_by(old(self).flights_m(), flight_with_id(id)) is Some ==> (r matches Ok(e) && {
                &&& e@ == (GateEventModel { flight_id: id, timestamp: now, gate: gate@ })
                &&& final(self).departure_gates_m() == old(self).departure_gates_m().push(e@)
                &&& final(self).airports_m() == old(self).airports_m()
                &&& final(self).planes_m() == old(self).planes_m()
                &&& final(self).flights_m() == old(self).flights_m()
                &&& final(self).cancellations_m() == old(self).cancellations_m()
                &&& final(self).delays_m() == old(self).delays_m()
                &&& final(self).arrival_gates_m() == old(self).arrival_gates_m()
                &&& final(self).next_id == old(self).next_id
            }),
    {
        if !self.flight_exists(id) {
            return Err(QueryError::NotFound);
        }
        let e = EventGateDepartureSet { flight_id: id, timestamp: now, gate };
        let row = e.clone();
        self.departure_gates.push(row);
        proof {
            let s0 = old(self).departure_gates_m();
            let s1 = self.departure_gates.deep_view();
            assert(s1 =~= s0.push(e@));
            lemma_all_rows_push(s0, gate_ts_ok(), e@);
            old(self).lemma_flight_id_bounded(id);
            assert forall|k: int| 0 <= k < s1.len() implies gate_flight_of()(#[trigger] s1[k])
                < self.next_id by {
                if k < s0.len() {
                    assert(gate_flight_of()(s0[k]) < self.next_id);
                }
            }
        }
        Ok(e)
    }

    /// Appends an arrival-gate assignment for the flight; a missing flight
    /// is `NotFound`.
    pub fn add_event_gate_arr_set(&mut self, id: u128, gate: String, now: Timestamp) -> (r: Result<
        EventGateArrivalSet,
        QueryError,
    >)
        requires
            old(self).wf(),
            ts_well_formed(now),
        ensures
            final(self).wf(),
            find_by(old(self).flights_m(), flight_with_id(id)) is None ==> (r == Err::<
                EventGateArrivalSet,
                QueryError,
            >(QueryError::NotFound) && *final(self) == *old(self)),
            find_by(old(self).flights_m(), flight_with_id(id)) is Some ==> (r matches Ok(e) && {
                &&& e@ == (GateEventModel { flight_id: id, timestamp: now, gate: gate@ })
                &&& final(self).arrival_gates_m() == old(self).arrival_gates_m().push(e@)
                &&& final(self).airports_m() == old(self).airports_m()
                &&& final(self).planes_m() == old(self).planes_m()
                &&& final(self).flights_m() == old(self).flights_m()
                &&& final(self).cancellations_m() == old(self).cancellations_m()
                &&& final(self).delays_m() == old(self).delays_m()
                &&& final(self).departure_gates_m() == old(self).departure_gates_m()
                &&& final(self).next_id == old(self).next_id
            }),
    {
        if !self.flight_exists(id) {
            return Err(QueryError::NotFound);
        }
        let e = EventGateArrivalSet { flight_id: id, timestamp: now, gate };
        let row = e.clone();
        self.arrival_gates.push(row);
        proof {
            let s0 = old(self).arrival_gates_m();
            let s1 = self.arrival_gates.deep_view();
            assert(s1 =~= s0.push(e@));
            lemma_all_rows_push(s0, gate_ts_ok(), e@);
            old(self).lemma_flight_id_bounded(id);
            assert forall|k: int| 0 <= k < s1.len() implies gate_flight_of()(#[trigger] s1[k])
                < self.next_id by {
                if k < s0.len() {
                    assert(gate_flight_of()(s0[k]) < self.next_id);
                }
            }
        }
        Ok(e)
    }
}

} // verus!
