use vstd::prelude::*;

verus! {

/// The screens the tracker can show.
#[derive(Debug, Clone, Copy, PartialEq, Eq, Structural)]
pub enum View {
    Overhead,
    Sky,
    GlobeBands,
}

/// Orbital regime of a satellite, by altitude; it decides its colour.
#[derive(Debug, Clone, Copy, PartialEq, Eq, Structural)]
pub enum Regime {
    /// Low Earth orbit, below 2,000 km.
    Leo,
    /// Medium Earth orbit, below 35,000 km.
    Meo,
    /// Geostationary band, below 37,000 km.
    Geo,
    /// Anything higher, or an altitude that is not a number.
    Heo,
}

/// The regime of an altitude whose floor, in whole kilometres, is `alt_km`.
/// The thresholds are whole kilometres, so `alt < t` holds exactly when
/// `floor(alt) < t`.
pub open spec fn regime_of(alt_km: int) -> Regime {
    if alt_km < 2000 {
        Regime::Leo
    } else if alt_km < 35000 {
        Regime::Meo
    } else if alt_km < 37000 {
        Regime::Geo
    } else {
        Regime::Heo
    }
}

/// Classifies a satellite by the floor of its altitude in kilometres.
pub fn regime_for_altitude(alt_floor_km: i64) -> (r: Regime)
    ensures
        r == regime_of(alt_floor_km as int),
{
    if alt_floor_km < 2000 {
        Regime::Leo
    } else if alt_floor_km < 35000 {
        Regime::Meo
    } else if alt_floor_km < 37000 {
        Regime::Geo
    } else {
        Regime::Heo
    }
}

/// The rank of a regime, from lowest to highest orbit.
pub open spec fn regime_rank(r: Regime) -> int {
    match r {
        Regime::Leo => 0,
        Regime::Meo => 1,
        Regime::Geo => 2,
        Regime::Heo => 3,
    }
}

/// A higher altitude never falls in a lower regime.
pub proof fn lemma_regime_monotone(lower_km: int, higher_km: int)
    requires
        lower_km <= higher_km,
    ensures
        regime_rank(regime_of(lower_km)) <= regime_rank(regime_of(higher_km)),
{
}

/// The regimes are altitude bands with fixed edges: below 2,000 km is LEO,
/// from 2,000 km to below 35,000 km MEO, from 35,000 km to below 37,000 km
/// GEO, and 37,000 km and above HEO.
pub proof fn lemma_regime_bands(alt_km: int)
    ensures
        alt_km < 2000 ==> regime_of(alt_km) == Regime::Leo,
        2000 <= alt_km < 35000 ==> regime_of(alt_km) == Regime::Meo,
        35000 <= alt_km < 37000 ==> regime_of(alt_km) == Regime::Geo,
        37000 <= alt_km ==> regime_of(alt_km) == Regime::Heo,
{
}

} // verus!
