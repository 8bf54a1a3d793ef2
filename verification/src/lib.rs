//! Summary statistics over GPS track recordings: a GPX document is
//! turned into an ordered sequence of timestamped geodetic samples,
//! and three single-pass reducers derive the elapsed duration, the
//! cumulative positive elevation gain and the great-circle distance
//! traveled. Lengths are carried in millimeters and coordinates in
//! microdegrees, so every computation is exact integer arithmetic.

pub mod geo;
pub mod gpx;
pub mod metrics;
pub mod report;
pub mod sample;
pub mod text;
pub mod xmldoc;

use vstd::prelude::*;

verus! {

/// Why a run over a document cannot produce a report.
#[derive(Clone, Copy, Debug, PartialEq, Eq, Structural)]
pub enum GpxError {
    /// A required structural element, attribute or field is absent or
    /// unparsable.
    MalformedDocument,
    /// The document holds no track points, so there is no first or
    /// last sample to report on.
    EmptyTrack,
}

impl GpxError {
    /// A short human-readable account of the error.
    pub fn message(&self) -> (r: String)
        ensures
            *self is MalformedDocument ==> r@ == "malformed document"@,
            *self is EmptyTrack ==> r@ == "empty track"@,
    {
        match self {
            GpxError::MalformedDocument => "malformed document".to_owned(),
            GpxError::EmptyTrack => "empty track".to_owned(),
        }
    }
}

} // verus!
