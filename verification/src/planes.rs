//! The plane service: list, get, create, soft-delete, and the masked
//! partial update, each over wire-shaped inputs.

use vstd::prelude::*;

use crate::errors::ApiError;
use crate::fieldmask::{
    apply_plane_paths, apply_plane_update, lemma_plane_update_keeps_identity, mask_nonempty,
    parse_update_paths, plane_mask_valid,
};
use crate::ids::{parse_id, uuid_parse};
use crate::store::{
    filter_rows, find_by, lemma_find_by_replace_plane, lemma_find_by_some, mark_plane_deleted,
    plane_live, plane_with_id, replace_plane_row, Datastore, Plane, PlaneModel,
};

verus! {

/// Planes as the caller sees them, honouring the soft-deletion flag.
pub fn list_planes(db: &Datastore, show_deleted: bool) -> (r: Vec<Plane>)
    ensures
        show_deleted ==> r.deep_view() == db.planes_m(),
        !show_deleted ==> r.deep_view() == filter_rows(db.planes_m(), plane_live()),
{
    if show_deleted {
        db.list_planes_with_deleted()
    } else {
        db.list_planes()
    }
}

/// Looks a plane up by its wire id; soft-deleted rows stay visible.
pub fn get_plane(db: &Datastore, id: &str) -> (r: Result<Plane, ApiError>)
    ensures
        uuid_parse(id@) is None ==> (r matches Err(e) && e is InvalidArgument),
        uuid_parse(id@) matches Some(v) ==> match find_by(db.planes_m(), plane_with_id(v)) {
            Some(p) => r matches Ok(row) && row@ == p,
            None => r matches Err(e) && e is NotFound,
        },
{
    let v = match parse_id(id) {
        Ok(v) => v,
        Err(e) => {
            return Err(e);
        },
    };
    match db.get_plane(v) {
        Ok(row) => Ok(row),
        Err(e) => Err(ApiError::from_query(e)),
    }
}

/// Creates a plane from the wire payload; the store assigns the id and the
/// row starts live.
pub fn create_plane(db: &mut Datastore, plane: Plane) -> (r: Result<Plane, ApiError>)
    requires
        old(db).wf(),
    ensures
        final(db).wf(),
        old(db).next_id == u128::MAX ==> ((r matches Err(e) && e is Internal) && *final(db)
            == *old(db)),
        old(db).next_id < u128::MAX ==> (r matches Ok(p) && {
            &&& p@ == (PlaneModel {
                id: old(db).next_id,
                model: plane@.model,
                cabin_capacity: plane@.cabin_capacity,
                cargo_capacity_kg: plane@.cargo_capacity_kg,
                deleted: false,
            })
            &&& final(db).planes_m() == old(db).planes_m().push(p@)
            &&& final(db).airports_m() == old(db).airports_m()
            &&& final(db).flights_m() == old(db).flights_m()
            &&& Datastore::same_events(*old(db), *final(db))
            &&& final(db).next_id == old(db).next_id + 1
        }),
{
    let Plane { model, cabin_capacity, cargo_capacity_kg, .. } = plane;
    match db.create_plane(model, cabin_capacity, cargo_capacity_kg) {
        Ok(p) => Ok(p),
        Err(e) => Err(ApiError::from_query(e)),
    }
}

/// Soft-deletes a plane by its wire id; the row stays visible to reads
/// with its flag set.
pub fn delete_plane(db: &mut Datastore, id: &str) -> (r: Result<(), ApiError>)
    requires
        old(db).wf(),
    ensures
        final(db).wf(),
        uuid_parse(id@) is None ==> ((r matches Err(e) && e is InvalidArgument) && *final(db)
            == *old(db)),
        uuid_parse(id@) matches Some(v) ==> {
            if find_by(old(db).planes_m(), plane_with_id(v)) is Some {
                &&& r is Ok
                &&& final(db).planes_m() == mark_plane_deleted(old(db).planes_m(), v)
                &&& final(db).airports_m() == old(db).airports_m()
                &&& final(db).flights_m() == old(db).flights_m()
                &&& Datastore::same_events(*old(db), *final(db))
                &&& final(db).next_id == old(db).next_id
            } else {
                (r matches Err(e) && e is NotFound) && *final(db) == *old(db)
            }
        },
{
    let v = match parse_id(id) {
        Ok(v) => v,
        Err(e) => {
            return Err(e);
        },
    };
    match db.delete_plane(v) {
        Ok(()) => Ok(()),
        Err(e) => Err(ApiError::from_query(e)),
    }
}

/// Applies a masked partial update and returns the re-read row: an empty
/// or missing mask, a malformed id or an unknown path is rejected with
/// nothing changed; the whole update lands together or not at all.
pub fn update_plane(
    db: &mut Datastore,
    id: &str,
    patch: &Plane,
    update_mask: Option<Vec<String>>,
) -> (r: Result<Plane, ApiError>)
    requires
        old(db).wf(),
    ensures
        final(db).wf(),
        !mask_nonempty(update_mask.deep_view()) ==> ((r matches Err(e) && e is InvalidArgument)
            && *final(db) == *old(db)),
        mask_nonempty(update_mask.deep_view()) && uuid_parse(id@) is None ==> ((r matches Err(e)
            && e is InvalidArgument) && *final(db) == *old(db)),
        mask_nonempty(update_mask.deep_view()) ==> (uuid_parse(id@) matches Some(v) ==> {
            let paths = update_mask.deep_view()->Some_0;
            match find_by(old(db).planes_m(), plane_with_id(v)) {
                None => (r matches Err(e) && e is NotFound) && *final(db) == *old(db),
                Some(row0) => {
                    if plane_mask_valid(paths) {
                        r matches Ok(p) && {
                            &&& p@ == apply_plane_paths(row0, patch@, paths)
                            &&& final(db).planes_m() == replace_plane_row(old(db).planes_m(), p@)
                            &&& final(db).airports_m() == old(db).airports_m()
                            &&& final(db).flights_m() == old(db).flights_m()
                            &&& Datastore::same_events(*old(db), *final(db))
                            &&& final(db).next_id == old(db).next_id
                        }
                    } else {
                        (r matches Err(e) && e is InvalidArgument) && *final(db) == *old(db)
                    }
                },
            }
        }),
{
    let paths = match parse_update_paths(update_mask) {
        Ok(p) => p,
        Err(e) => {
            return Err(e);
        },
    };
    let v = match parse_id(id) {
        Ok(v) => v,
        Err(e) => {
            return Err(e);
        },
    };
    let row = match db.get_plane(v) {
        Ok(row) => row,
        Err(e) => {
            return Err(ApiError::from_query(e));
        },
    };
    let updated = match apply_plane_update(&row, patch, &paths) {
        Ok(u) => u,
        Err(e) => {
            return Err(e);
        },
    };
    proof {
        lemma_find_by_some(db.planes_m(), plane_with_id(v));
        lemma_plane_update_keeps_identity(row@, patch@, paths.deep_view());
        assert(updated@.id == v);
    }
    let stored = updated.clone();
    match db.replace_plane(updated) {
        Ok(()) => {},
        Err(e) => {
            proof {
                assert(false);
            }
            return Err(ApiError::from_query(e));
        },
    }
    proof {
        lemma_find_by_replace_plane(old(db).planes_m(), stored@);
    }
    match db.get_plane(v) {
        Ok(fresh) => Ok(fresh),
        Err(e) => {
            proof {
                assert(false);
            }
            Err(ApiError::from_query(e))
        },
    }
}

} // verus!
