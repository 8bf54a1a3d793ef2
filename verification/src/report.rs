use vstd::prelude::*;
use crate::GpxError;
use crate::sample::{Sample, Timestamp};
use crate::gpx::{spec_title, spec_samples, get_title, get_points};
use crate::metrics::{
    spec_duration_seconds, spec_elevation_gain_mm, spec_total_distance_mm, get_duration,
    get_elevation, get_distance,
};
use crate::xmldoc::{ElemModel, elem_model, parsed_doc, parse_element};

verus! {

/// The per-track figures the run reports: the title, the sample
/// count, the first sample's instant, and the three reduced metrics.
#[derive(Clone, Debug, PartialEq, Eq)]
pub struct TrackReport {
    pub title: String,
    pub num_samples: usize,
    pub start: Timestamp,
    pub duration_seconds: i64,
    pub elevation_gain_mm: i128,
    pub distance_mm: u128,
}

/// What a document yields: its title and its samples, or the error —
/// a malformed document, or a track with no point to report on.
pub open spec fn spec_analyze(m: ElemModel) -> Result<(Seq<char>, Seq<Sample>), GpxError> {
    match spec_title(m) {
        None => Err(GpxError::MalformedDocument),
        Some(title) => match spec_samples(m) {
            None => Err(GpxError::MalformedDocument),
            Some(s) => if s.len() == 0 {
                Err(GpxError::EmptyTrack)
            } else {
                Ok((title, s))
            },
        },
    }
}

/// Whether a report carries exactly the figures of a title and a
/// sample sequence.
pub open spec fn report_matches(r: TrackReport, title: Seq<char>, s: Seq<Sample>) -> bool {
    &&& r.title@ == title
    &&& r.num_samples == s.len()
    &&& r.start == s[0].time
    &&& r.duration_seconds == spec_duration_seconds(s)
    &&& r.elevation_gain_mm == spec_elevation_gain_mm(s)
    &&& r.distance_mm == spec_total_distance_mm(s)
}

/// Extracts the track of a parsed document and reduces it to its
/// report, exactly as `spec_analyze` describes.
pub fn analyze(doc: &xmltree::Element) -> (r: Result<TrackReport, GpxError>)
    ensures
        r is Ok <==> spec_analyze(elem_model(*doc)) is Ok,
        r matches Ok(rep) ==> (spec_analyze(elem_model(*doc)) matches Ok(ts) && report_matches(
            rep,
            ts.0,
            ts.1,
        )),
        r matches Err(e) ==> spec_analyze(elem_model(*doc)) == Err::<
            (Seq<char>, Seq<Sample>),
            GpxError,
        >(e),
{
    let title = match get_title(doc) {
        Ok(t) => t,
        Err(e) => {
            return Err(e);
        },
    };
    let points = match get_points(doc) {
        Ok(p) => p,
        Err(e) => {
            return Err(e);
        },
    };
    if points.len() == 0 {
        return Err(GpxError::EmptyTrack);
    }
    let duration_seconds = get_duration(&points);
    let elevation_gain_mm = get_elevation(&points);
    let distance_mm = get_distance(&points);
    Ok(
        TrackReport {
            title,
            num_samples: points.len(),
            start: points[0].time,
            duration_seconds,
            elevation_gain_mm,
            distance_mm,
        },
    )
}

/// Parses one document from raw bytes and reduces it to its report;
/// bytes that are not an XML document are a malformed document.
pub fn analyze_bytes(bytes: &[u8]) -> (r: Result<TrackReport, GpxError>)
    ensures
        parsed_doc(bytes@) is None ==> r == Err::<TrackReport, GpxError>(
            GpxError::MalformedDocument,
        ),
        parsed_doc(bytes@) matches Some(m) ==> {
            &&& r is Ok <==> spec_analyze(m) is Ok
            &&& (r matches Ok(rep) ==> (spec_analyze(m) matches Ok(ts) && report_matches(
                rep,
                ts.0,
                ts.1,
            )))
            &&& (r matches Err(e) ==> spec_analyze(m) == Err::<(Seq<char>, Seq<Sample>), GpxError>(
                e,
            ))
        },
{
    match parse_element(bytes) {
        Ok(doc) => analyze(&doc),
        Err(_) => Err(GpxError::MalformedDocument),
    }
}

/// Running totals across the tracks of an archive, accumulated in
/// archive order by the driver.
pub struct Aggregate {
    pub rides: u64,
    pub duration_seconds: i128,
    pub elevation_gain_mm: i128,
    pub distance_mm: u128,
}

impl Aggregate {
    /// Whether one more report fits into the running totals without
    /// leaving the machine's integer ranges.
    pub open spec fn spec_can_add(self, rep: TrackReport) -> bool {
        &&& self.rides < u64::MAX
        &&& i128::MIN <= self.duration_seconds + rep.duration_seconds <= i128::MAX
        &&& i128::MIN <= self.elevation_gain_mm + rep.elevation_gain_mm <= i128::MAX
        &&& self.distance_mm + rep.distance_mm <= u128::MAX
    }

    pub fn new() -> (r: Aggregate)
        ensures
            r.rides == 0,
            r.duration_seconds == 0,
            r.elevation_gain_mm == 0,
            r.distance_mm == 0,
    {
        Aggregate { rides: 0, duration_seconds: 0, elevation_gain_mm: 0, distance_mm: 0 }
    }

    /// Folds one track's report into the totals; reports whether it
    /// fit, and changes nothing where it did not.
    pub fn add(&mut self, rep: &TrackReport) -> (ok: bool)
        ensures
            ok == old(self).spec_can_add(*rep),
            ok ==> final(self).rides == old(self).rides + 1 && final(self).duration_seconds == old(
                self,
            ).duration_seconds + rep.duration_seconds && final(self).elevation_gain_mm == old(
                self,
            ).elevation_gain_mm + rep.elevation_gain_mm && final(self).distance_mm == old(
                self,
            ).distance_mm + rep.distance_mm,
            !ok ==> *final(self) == *old(self),
    {
        let dur_ok: bool = if rep.duration_seconds >= 0 {
            self.duration_seconds <= i128::MAX - rep.duration_seconds as i128
        } else {
            self.duration_seconds >= i128::MIN - rep.duration_seconds as i128
        };
        let ele_ok: bool = if rep.elevation_gain_mm >= 0 {
            self.elevation_gain_mm <= i128::MAX - rep.elevation_gain_mm
        } else {
            self.elevation_gain_mm >= i128::MIN - rep.elevation_gain_mm
        };
        let dist_ok: bool = self.distance_mm <= u128::MAX - rep.distance_mm;
        if self.rides < u64::MAX && dur_ok && ele_ok && dist_ok {
            self.rides = self.rides + 1;
            self.duration_seconds = self.duration_seconds + rep.duration_seconds as i128;
            self.elevation_gain_mm = self.elevation_gain_mm + rep.elevation_gain_mm;
            self.distance_mm = self.distance_mm + rep.distance_mm;
            true
        } else {
            false
        }
    }
}

} // verus!
