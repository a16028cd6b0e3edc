use vstd::prelude::*;

verus! {

/// A point on the globe, in units of 1e-7 degree.
#[derive(Clone, Copy, Debug, PartialEq, Eq, Structural)]
pub struct Location {
    pub latitude: i32,
    pub longitude: i32,
}

impl Location {
    pub fn new(latitude: i32, longitude: i32) -> (r: Location)
        ensures
            r.latitude == latitude,
            r.longitude == longitude,
    {
        Location { latitude, longitude }
    }
}

} // verus!
