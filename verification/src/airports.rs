//! The airport service: list, get, create, soft-delete, and the masked
//! partial update, each over wire-shaped inputs.
//!
//! A malformed id fails before any store access; a missing row is
//! `NotFound`; every error leaves the store exactly as it was.

use vstd::prelude::*;

use crate::errors::ApiError;
use crate::fieldmask::{
    airport_mask_valid, apply_airport_paths, apply_airport_update, lemma_airport_update_keeps_identity,
    mask_nonempty, parse_update_paths,
};
use crate::ids::{parse_id, uuid_parse};
use crate::store::{
    airport_live, airport_with_id, filter_rows, find_by, lemma_find_by_replace_airport,
    lemma_find_by_some, mark_airport_deleted, replace_airport_row, Airport, AirportModel, Datastore,
};

verus! {

/// Airports as the caller sees them, honouring the soft-deletion flag.
pub fn list_airports(db: &Datastore, show_deleted: bool) -> (r: Vec<Airport>)
    ensures
        show_deleted ==> r.deep_view() == db.airports_m(),
        !show_deleted ==> r.deep_view() == filter_rows(db.airports_m(), airport_live()),
{
    if show_deleted {
        db.list_airports_with_deleted()
    } else {
        db.list_airports()
    }
}

/// Looks an airport up by its wire id; soft-deleted rows stay visible.
pub fn get_airport(db: &Datastore, id: &str) -> (r: Result<Airport, ApiError>)
    ensures
        uuid_parse(id@) is None ==> (r matches Err(e) && e is InvalidArgument),
        uuid_parse(id@) matches Some(v) ==> match find_by(db.airports_m(), airport_with_id(v)) {
            Some(a) => r matches Ok(row) && row@ == a,
            None => r matches Err(e) && e is NotFound,
        },
{
    let v = match parse_id(id) {
        Ok(v) => v,
        Err(e) => {
            return Err(e);
        },
    };
    match db.get_airport(v) {
        Ok(row) => Ok(row),
        Err(e) => Err(ApiError::from_query(e)),
    }
}

/// Creates an airport from the wire payload; the store assigns the id and
/// the row starts live.
pub fn create_airport(db: &mut Datastore, airport: Airport) -> (r: Result<Airport, ApiError>)
    requires
        old(db).wf(),
    ensures
        final(db).wf(),
        old(db).next_id == u128::MAX ==> ((r matches Err(e) && e is Internal) && *final(db)
            == *old(db)),
        old(db).next_id < u128::MAX ==> (r matches Ok(a) && {
            &&& a@ == (AirportModel {
                id: old(db).next_id,
                icao: airport@.icao,
                iata: airport@.iata,
                name: airport@.name,
                country: airport@.country,
                city: airport@.city,
                deleted: false,
            })
            &&& final(db).airports_m() == old(db).airports_m().push(a@)
            &&& final(db).planes_m() == old(db).planes_m()
            &&& final(db).flights_m() == old(db).flights_m()
            &&& Datastore::same_events(*old(db), *final(db))
            &&& final(db).next_id == old(db).next_id + 1
        }),
{
    let Airport { icao, iata, name, country, city, .. } = airport;
    match db.create_airport(icao, iata, name, country, city) {
        Ok(a) => Ok(a),
        Err(e) => Err(ApiError::from_query(e)),
    }
}

/// Soft-deletes an airport by its wire id; the row stays visible to reads
/// with its flag set.
pub fn delete_airport(db: &mut Datastore, id: &str) -> (r: Result<(), ApiError>)
    requires
        old(db).wf(),
    ensures
        final(db).wf(),
        uuid_parse(id@) is None ==> ((r matches Err(e) && e is InvalidArgument) && *final(db)
            == *old(db)),
        uuid_parse(id@) matches Some(v) ==> {
            if find_by(old(db).airports_m(), airport_with_id(v)) is Some {
                &&& r is Ok
                &&& final(db).airports_m() == mark_airport_deleted(old(db).airports_m(), v)
                &&& final(db).planes_m() == old(db).planes_m()
                &&& final(db).flights_m() == old(db).flights_m()
                &&& Datastore::same_events(*old(db), *final(db))
                &&& final(db).next_id == old(db).next_id
            } else {
                (r matches Err(e) && e is NotFound) && *final(db) == *old(db)
            }
        },
{
    let v = match parse_id(id) {
        Ok(v) => v,
        Err(e) => {
            return Err(e);
        },
    };
    match db.delete_airport(v) {
        Ok(()) => Ok(()),
        Err(e) => Err(ApiError::from_query(e)),
    }
}

/// Applies a masked partial update and returns the re-read row: an empty
/// or missing mask, a malformed id or an unknown path is rejected with
/// nothing changed; the whole update lands together or not at all.
pub fn update_airport(
    db: &mut Datastore,
    id: &str,
    patch: &Airport,
    update_mask: Option<Vec<String>>,
) -> (r: Result<Airport, ApiError>)
    requires
        old(db).wf(),
    ensures
        final(db).wf(),
        !mask_nonempty(update_mask.deep_view()) ==> ((r matches Err(e) && e is InvalidArgument)
            && *final(db) == *old(db)),
        mask_nonempty(update_mask.deep_view()) && uuid_parse(id@) is None ==> ((r matches Err(e)
            && e is InvalidArgument) && *final(db) == *old(db)),
        mask_nonempty(update_mask.deep_view()) ==> (uuid_parse(id@) matches Some(v) ==> {
            let paths = update_mask.deep_view()->Some_0;
            match find_by(old(db).airports_m(), airport_with_id(v)) {
                None => (r matches Err(e) && e is NotFound) && *final(db) == *old(db),
                Some(row0) => {
                    if airport_mask_valid(paths) {
                        r matches Ok(a) && {
                            &&& a@ == apply_airport_paths(row0, patch@, paths)
                            &&& final(db).airports_m() == replace_airport_row(
                                old(db).airports_m(),
                                a@,
                            )
                            &&& final(db).planes_m() == old(db).planes_m()
                            &&& final(db).flights_m() == old(db).flights_m()
                            &&& Datastore::same_events(*old(db), *final(db))
                            &&& final(db).next_id == old(db).next_id
                        }
                    } else {
                        (r matches Err(e) && e is InvalidArgument) && *final(db) == *old(db)
                    }
                },
            }
        }),
{
    let paths = match parse_update_paths(update_mask) {
        Ok(p) => p,
        Err(e) => {
            return Err(e);
        },
    };
    let v = match parse_id(id) {
        Ok(v) => v,
        Err(e) => {
            return Err(e);
        },
    };
    let row = match db.get_airport(v) {
        Ok(row) => row,
        Err(e) => {
            return Err(ApiError::from_query(e));
        },
    };
    let updated = match apply_airport_update(&row, patch, &paths) {
        Ok(u) => u,
        Err(e) => {
            return Err(e);
        },
    };
    proof {
        lemma_find_by_some(db.airports_m(), airport_with_id(v));
        lemma_airport_update_keeps_identity(row@, patch@, paths.deep_view());
        assert(updated@.id == v);
    }
    let stored = updated.clone();
    match db.replace_airport(updated) {
        Ok(()) => {},
        Err(e) => {
            proof {
                assert(false);
            }
            return Err(ApiError::from_query(e));
        },
    }
    proof {
        lemma_find_by_replace_airport(old(db).airports_m(), stored@);
    }
    match db.get_airport(v) {
        Ok(fresh) => Ok(fresh),
        Err(e) => {
            proof {
                assert(false);
            }
            Err(ApiError::from_query(e))
        },
    }
}

/// Soft deletion in one law: after an airport is deleted, a lookup still
/// finds it with its flag set, the live listing no longer carries its id,
/// and the full listing keeps every row.
pub proof fn lemma_soft_delete_visibility(db0: Datastore, db1: Datastore, id: u128)
    requires
        db0.wf(),
        find_by(db0.airports_m(), airport_with_id(id)) is Some,
        db1.airports_m() == mark_airport_deleted(db0.airports_m(), id),
    ensures
        (find_by(db1.airports_m(), airport_with_id(id)) matches Some(a) && a.deleted && a.id
            == id),
        db1.airports_m().len() == db0.airports_m().len(),
        forall|k: int|
            0 <= k < filter_rows(db1.airports_m(), airport_live()).len() ==> (
            #[trigger] filter_rows(db1.airports_m(), airport_live())[k]).id != id,
{
    crate::store::lemma_find_by_mark_airport(db0.airports_m(), id);
    lemma_find_by_some(db0.airports_m(), airport_with_id(id));
    crate::store::lemma_filter_rows_sub(db1.airports_m(), airport_live());
    let live = filter_rows(db1.airports_m(), airport_live());
    assert forall|k: int| 0 <= k < live.len() implies (#[trigger] live[k]).id != id by {
        let e = live[k];
        assert(airport_live()(e));
        assert(db1.airports_m().contains(e));
        let j = choose|j: int| 0 <= j < db1.airports_m().len() && db1.airports_m()[j] == e;
        assert(db1.airports_m()[j] == (if db0.airports_m()[j].id == id {
            AirportModel { deleted: true, ..db0.airports_m()[j] }
        } else {
            db0.airports_m()[j]
        }));
    }
}

} // verus!
