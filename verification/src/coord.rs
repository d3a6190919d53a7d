use vstd::prelude::*;

verus! {

/// A geographic coordinate in fixed-point form: latitude and longitude in
/// units of 1e-5 degree (about 1.1 m), the precision every coordinate is
/// rounded to when it is extracted. Fixed-point values cannot be NaN or
/// infinite, so validity is purely a matter of range and of the (0, 0)
/// "no fix" sentinel.
#[derive(Clone, Copy, PartialEq, Eq, Structural, Debug)]
pub struct Coordinate {
    pub lat_e5: i64,
    pub lon_e5: i64,
}

pub const LAT_MAX_E5: i64 = 9_000_000;
pub const LON_MAX_E5: i64 = 18_000_000;

/// A latitude/longitude pair is valid when both are in range and they are
/// not both exactly zero (a common sentinel for "no fix").
pub open spec fn valid_coordinate(lat: int, lon: int) -> bool {
    &&& -9_000_000 <= lat <= 9_000_000
    &&& -18_000_000 <= lon <= 18_000_000
    &&& !(lat == 0 && lon == 0)
}

impl Coordinate {
    pub open spec fn wf(self) -> bool {
        valid_coordinate(self.lat_e5 as int, self.lon_e5 as int)
    }
}

/// Validity predicate for raw fixed-point pairs: rejects out-of-range
/// values and the (0, 0) sentinel.
pub fn is_valid_coordinate(lat_e5: i64, lon_e5: i64) -> (r: bool)
    ensures
        r == valid_coordinate(lat_e5 as int, lon_e5 as int),
{
    if lat_e5 < -LAT_MAX_E5 || lat_e5 > LAT_MAX_E5 || lon_e5 < -LON_MAX_E5 || lon_e5 > LON_MAX_E5 {
        return false;
    }
    if lat_e5 == 0 && lon_e5 == 0 {
        return false;
    }
    true
}

} // verus!
