//! The field-mask update engine.
//!
//! A partial update carries a payload shaped like the entity and a mask: a
//! set of field-name strings.  An empty or missing mask is rejected, every
//! path is checked against the entity's fixed allow-list before any
//! mutation, and the masked fields are then applied together, so a request
//! either changes exactly the named fields or changes nothing.

use vstd::prelude::*;

use crate::errors::ApiError;
use crate::store::{Airport, AirportModel, Plane, PlaneModel};

verus! {

/// Whether a wire mask names at least one path.
pub open spec fn mask_nonempty(m: Option<Seq<Seq<char>>>) -> bool {
    m matches Some(ps) && ps.len() > 0
}

/// Accepts a present, non-empty mask and hands its paths back; anything
/// else is `InvalidArgument`.
pub fn parse_update_paths(update_mask: Option<Vec<String>>) -> (r: Result<Vec<String>, ApiError>)
    ensures
        mask_nonempty(update_mask.deep_view()) ==> (r matches Ok(v) && v.deep_view()
            == update_mask.deep_view()->Some_0),
        !mask_nonempty(update_mask.deep_view()) ==> (r matches Err(e) && e is InvalidArgument),
{
    match update_mask {
        None => Err(ApiError::invalid("'update_mask' cannot be empty")),
        Some(paths) => {
            if paths.len() == 0 {
                Err(ApiError::invalid("'update_mask' cannot be empty"))
            } else {
                Ok(paths)
            }
        },
    }
}

/// The airport allow-list.
pub open spec fn is_airport_field(p: Seq<char>) -> bool {
    ||| p == "icao"@
    ||| p == "iata"@
    ||| p == "name"@
    ||| p == "country"@
    ||| p == "city"@
}

/// Every path of the mask stands on the airport allow-list.
pub open spec fn airport_mask_valid(ps: Seq<Seq<char>>) -> bool {
    forall|i: int| 0 <= i < ps.len() ==> is_airport_field(#[trigger] ps[i])
}

/// One masked airport field taken from the payload.
pub open spec fn apply_airport_path(a: AirportModel, patch: AirportModel, p: Seq<char>) -> AirportModel {
    if p == "icao"@ {
        AirportModel { icao: patch.icao, ..a }
    } else if p == "iata"@ {
        AirportModel { iata: patch.iata, ..a }
    } else if p == "name"@ {
        AirportModel { name: patch.name, ..a }
    } else if p == "country"@ {
        AirportModel { country: patch.country, ..a }
    } else if p == "city"@ {
        AirportModel { city: patch.city, ..a }
    } else {
        a
    }
}

/// All masked airport fields taken from the payload, in mask order.
pub open spec fn apply_airport_paths(
    a: AirportModel,
    patch: AirportModel,
    ps: Seq<Seq<char>>,
) -> AirportModel
    decreases ps.len(),
{
    if ps.len() == 0 {
        a
    } else {
        apply_airport_path(apply_airport_paths(a, patch, ps.drop_last()), patch, ps.last())
    }
}

/// A masked update never touches the row's id or its deletion flag.
pub proof fn lemma_airport_update_keeps_identity(
    a: AirportModel,
    patch: AirportModel,
    ps: Seq<Seq<char>>,
)
    ensures
        apply_airport_paths(a, patch, ps).id == a.id,
        apply_airport_paths(a, patch, ps).deleted == a.deleted,
    decreases ps.len(),
{
    if ps.len() > 0 {
        lemma_airport_update_keeps_identity(a, patch, ps.drop_last());
    }
}

/// Exec check of one airport path against the allow-list.
fn airport_field_ok(path: &String) -> (r: bool)
    ensures
        r == is_airport_field(path@),
{
    let icao = "icao".to_owned();
    let iata = "iata".to_owned();
    let name = "name".to_owned();
    let country = "country".to_owned();
    let city = "city".to_owned();
    *path == icao || *path == iata || *path == name || *path == country || *path == city
}

/// Validates the whole mask, then applies every named field: an unknown
/// path aborts with `InvalidArgument` before anything is taken over.
pub fn apply_airport_update(row: &Airport, patch: &Airport, paths: &Vec<String>) -> (r: Result<
    Airport,
    ApiError,
>)
    ensures
        airport_mask_valid(paths.deep_view()) ==> (r matches Ok(a) && a@ == apply_airport_paths(
            row@,
            patch@,
            paths.deep_view(),
        )),
        !airport_mask_valid(paths.deep_view()) ==> (r matches Err(e) && e is InvalidArgument),
{
    let mut i: usize = 0;
    while i < paths.len()
        invariant
            i <= paths.len(),
            forall|k: int| 0 <= k < i ==> is_airport_field(#[trigger] paths.deep_view()[k]),
        decreases paths.len() - i,
    {
        if !airport_field_ok(&paths[i]) {
            proof {
                assert(!is_airport_field(paths.deep_view()[i as int]));
            }
            return Err(ApiError::invalid("'update_mask' contains an unknown path"));
        }
        i += 1;
    }
    let mut out = row.clone();
    let mut i: usize = 0;
    proof {
        assert(paths.deep_view().subrange(0, 0) =~= Seq::<Seq<char>>::empty());
    }
    while i < paths.len()
        invariant
            i <= paths.len(),
            out@ == apply_airport_paths(row@, patch@, paths.deep_view().subrange(0, i as int)),
        decreases paths.len() - i,
    {
        let ghost pre = paths.deep_view().subrange(0, i as int);
        let ghost cur = paths.deep_view().subrange(0, i as int + 1);
        proof {
            assert(cur.drop_last() =~= pre);
            assert(cur.last() == paths.deep_view()[i as int]);
        }
        let p = &paths[i];
        let icao = "icao".to_owned();
        let iata = "iata".to_owned();
        let name = "name".to_owned();
        let country = "country".to_owned();
        let city = "city".to_owned();
        if *p == icao {
            out.icao = patch.icao.clone();
        } else if *p == iata {
            out.iata = patch.iata.clone();
        } else if *p == name {
            out.name = patch.name.clone();
        } else if *p == country {
            out.country = patch.country.clone();
        } else if *p == city {
            out.city = patch.city.clone();
        }
        proof {
            assert(out@ == apply_airport_paths(row@, patch@, cur));
        }
        i += 1;
    }
    proof {
        assert(paths.deep_view().subrange(0, paths.len() as int) =~= paths.deep_view());
    }
    Ok(out)
}

/// The plane allow-list.
pub open spec fn is_plane_field(p: Seq<char>) -> bool {
    ||| p == "model"@
    ||| p == "cabin_capacity"@
    ||| p == "cargo_capacity_kg"@
}

/// Every path of the mask stands on the plane allow-list.
pub open spec fn plane_mask_valid(ps: Seq<Seq<char>>) -> bool {
    forall|i: int| 0 <= i < ps.len() ==> is_plane_field(#[trigger] ps[i])
}

/// One masked plane field taken from the payload.
pub open spec fn apply_plane_path(a: PlaneModel, patch: PlaneModel, p: Seq<char>) -> PlaneModel {
    if p == "model"@ {
        PlaneModel { model: patch.model, ..a }
    } else if p == "cabin_capacity"@ {
        PlaneModel { cabin_capacity: patch.cabin_capacity, ..a }
    } else if p == "cargo_capacity_kg"@ {
        PlaneModel { cargo_capacity_kg: patch.cargo_capacity_kg, ..a }
    } else {
        a
    }
}

/// All masked plane fields taken from the payload, in mask order.
pub open spec fn apply_plane_paths(a: PlaneModel, patch: PlaneModel, ps: Seq<Seq<char>>) -> PlaneModel
    decreases ps.len(),
{
    if ps.len() == 0 {
        a
    } else {
        apply_plane_path(apply_plane_paths(a, patch, ps.drop_last()), patch, ps.last())
    }
}

/// A masked update never touches the row's id or its deletion flag.
pub proof fn lemma_plane_update_keeps_identity(a: PlaneModel, patch: PlaneModel, ps: Seq<Seq<char>>)
    ensures
        apply_plane_paths(a, patch, ps).id == a.id,
        apply_plane_paths(a, patch, ps).deleted == a.deleted,
    decreases ps.len(),
{
    if ps.len() > 0 {
        lemma_plane_update_keeps_identity(a, patch, ps.drop_last());
    }
}

/// Exec check of one plane path against the allow-list.
fn plane_field_ok(path: &String) -> (r: bool)
    ensures
        r == is_plane_field(path@),
{
    let model = "model".to_owned();
    let cabin = "cabin_capacity".to_owned();
    let cargo = "cargo_capacity_kg".to_owned();
    *path == model || *path == cabin || *path == cargo
}

/// Validates the whole mask, then applies every named field: an unknown
/// path aborts with `InvalidArgument` before anything is taken over.
pub fn apply_plane_update(row: &Plane, patch: &Plane, paths: &Vec<String>) -> (r: Result<
    Plane,
    ApiError,
>)
    ensures
        plane_mask_valid(paths.deep_view()) ==> (r matches Ok(a) && a@ == apply_plane_paths(
            row@,
            patch@,
            paths.deep_view(),
        )),
        !plane_mask_valid(paths.deep_view()) ==> (r matches Err(e) && e is InvalidArgument),
{
    let mut i: usize = 0;
    while i < paths.len()
        invariant
            i <= paths.len(),
            forall|k: int| 0 <= k < i ==> is_plane_field(#[trigger] paths.deep_view()[k]),
        decreases paths.len() - i,
    {
        if !plane_field_ok(&paths[i]) {
            proof {
                assert(!is_plane_field(paths.deep_view()[i as int]));
            }
            return Err(ApiError::invalid("'update_mask' contains an unknown path"));
        }
        i += 1;
    }
    let mut out = row.clone();
    let mut i: usize = 0;
    proof {
        assert(paths.deep_view().subrange(0, 0) =~= Seq::<Seq<char>>::empty());
    }
    while i < paths.len()
        invariant
            i <= paths.len(),
            out@ == apply_plane_paths(row@, patch@, paths.deep_view().subrange(0, i as int)),
        decreases paths.len() - i,
    {
        let ghost pre = paths.deep_view().subrange(0, i as int);
        let ghost cur = paths.deep_view().subrange(0, i as int + 1);
        proof {
            assert(cur.drop_last() =~= pre);
            assert(cur.last() == paths.deep_view()[i as int]);
        }
        let p = &paths[i];
        let model = "model".to_owned();
        let cabin = "cabin_capacity".to_owned();
        let cargo = "cargo_capacity_kg".to_owned();
        if *p == model {
            out.model = patch.model.clone();
        } else if *p == cabin {
            out.cabin_capacity = patch.cabin_capacity;
        } else if *p == cargo {
            out.cargo_capacity_kg = patch.cargo_capacity_kg;
        }
        proof {
            assert(out@ == apply_plane_paths(row@, patch@, cur));
        }
        i += 1;
    }
    proof {
        assert(paths.deep_view().subrange(0, paths.len() as int) =~= paths.deep_view());
    }
    Ok(out)
}

} // verus!
