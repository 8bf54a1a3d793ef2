use vstd::prelude::*;
use crate::GpxError;
use crate::sample::Sample;
use crate::text::{spec_parse_scaled, spec_parse_time, parse_scaled, parse_time};
use crate::xmldoc::{
    ElemModel, elem_model, spec_first_child, get_child, child_count, child_at, get_text, get_attr,
};

verus! {

/// The track title: the text of the name element under the track
/// element, or the fixed placeholder where the name element is empty;
/// nothing where either element is structurally absent.
pub open spec fn spec_title(m: ElemModel) -> Option<Seq<char>> {
    match spec_first_child(m.children, "trk"@) {
        None => None,
        Some(trk) => match spec_first_child(trk.children, "name"@) {
            None => None,
            Some(nm) => match nm.text {
                Some(t) => Some(t),
                None => Some("Unnamed Activity"@),
            },
        },
    }
}

/// One track point read from a point element: the elevation child is
/// required but its text may be absent (an elevation of zero); the
/// time child and its parsable text are mandatory; the lat and lon
/// attributes are mandatory and must parse as decimal degrees.
pub open spec fn spec_point(c: ElemModel) -> Option<Sample> {
    match spec_first_child(c.children, "ele"@) {
        None => None,
        Some(ele_el) => {
            let ele_opt: Option<int> = match ele_el.text {
                None => Some(0),
                Some(t) => spec_parse_scaled(t, 3),
            };
            match ele_opt {
                None => None,
                Some(ele_mm) => match spec_first_child(c.children, "time"@) {
                    None => None,
                    Some(time_el) => match time_el.text {
                        None => None,
                        Some(tt) => match spec_parse_time(tt) {
                            None => None,
                            Some(ts) => {
                                let lat_opt: Option<int> = if c.attrs.dom().contains("lat"@) {
                                    spec_parse_scaled(c.attrs["lat"@], 6)
                                } else {
                                    None
                                };
                                let lon_opt: Option<int> = if c.attrs.dom().contains("lon"@) {
                                    spec_parse_scaled(c.attrs["lon"@], 6)
                                } else {
                                    None
                                };
                                match (lat_opt, lon_opt) {
                                    (Some(la), Some(lo)) => Some(
                                        Sample {
                                            ele_mm: ele_mm as i64,
                                            time: ts,
                                            lat_udeg: la as i64,
                                            lon_udeg: lo as i64,
                                        },
                                    ),
                                    _ => None,
                                }
                            },
                        },
                    },
                },
            }
        },
    }
}

/// The samples of a run of child nodes, in document order: element
/// children are point elements, other nodes are passed over, and the
/// first unreadable point spoils the whole run.
pub open spec fn spec_points(cs: Seq<Option<ElemModel>>) -> Option<Seq<Sample>>
    decreases cs.len(),
{
    if cs.len() == 0 {
        Some(Seq::empty())
    } else {
        match spec_points(cs.drop_last()) {
            None => None,
            Some(pts) => match cs.last() {
                None => Some(pts),
                Some(c) => match spec_point(c) {
                    None => None,
                    Some(p) => Some(pts.push(p)),
                },
            },
        }
    }
}

/// The ordered samples of the document: the children of the first
/// segment element under the first track element.
pub open spec fn spec_samples(m: ElemModel) -> Option<Seq<Sample>> {
    match spec_first_child(m.children, "trk"@) {
        None => None,
        Some(trk) => match spec_first_child(trk.children, "trkseg"@) {
            None => None,
            Some(seg) => spec_points(seg.children),
        },
    }
}

/// A run over a readable point with one bad slot is spoiled, whatever
/// the other slots hold.
pub proof fn lemma_points_err(cs: Seq<Option<ElemModel>>, i: int)
    requires
        0 <= i < cs.len(),
        cs[i] matches Some(c) && spec_point(c) is None,
    ensures
        spec_points(cs) is None,
    decreases cs.len(),
{
    if i < cs.len() - 1 {
        assert(cs.drop_last()[i] == cs[i]);
        lemma_points_err(cs.drop_last(), i);
    }
}

/// A point element without a time child yields no sample.
pub proof fn lemma_point_no_time(c: ElemModel)
    requires
        spec_first_child(c.children, "time"@) is None,
    ensures
        spec_point(c) is None,
{
}

/// A document whose segment holds a point element without a time
/// child yields no sample sequence at all, only an error.
pub proof fn lemma_missing_time_spoils_run(m: ElemModel, i: int)
    requires
        spec_first_child(m.children, "trk"@) matches Some(trk) && (spec_first_child(
            trk.children,
            "trkseg"@,
        ) matches Some(seg) && (0 <= i < seg.children.len() && (seg.children[i] matches Some(c)
            && spec_first_child(c.children, "time"@) is None))),
    ensures
        spec_samples(m) is None,
{
    let trk = spec_first_child(m.children, "trk"@).unwrap();
    let seg = spec_first_child(trk.children, "trkseg"@).unwrap();
    lemma_point_no_time(seg.children[i].unwrap());
    lemma_points_err(seg.children, i);
}

/// A present but empty name element yields the placeholder title.
pub proof fn lemma_empty_name_placeholder(m: ElemModel)
    requires
        spec_first_child(m.children, "trk"@) matches Some(trk) && (spec_first_child(
            trk.children,
            "name"@,
        ) matches Some(nm) && nm.text is None),
    ensures
        spec_title(m) == Some("Unnamed Activity"@),
{
}

/// Locates the track name, as `spec_title` describes.
pub fn get_title(doc: &xmltree::Element) -> (r: Result<String, GpxError>)
    ensures
        r is Ok <==> spec_title(elem_model(*doc)) is Some,
        r matches Ok(t) ==> spec_title(elem_model(*doc)) == Some(t@),
        r matches Err(e) ==> e == GpxError::MalformedDocument,
{
    let trk = match get_child(doc, "trk") {
        Some(t) => t,
        None => {
            return Err(GpxError::MalformedDocument);
        },
    };
    let nm = match get_child(trk, "name") {
        Some(t) => t,
        None => {
            return Err(GpxError::MalformedDocument);
        },
    };
    match get_text(nm) {
        Some(t) => Ok(t),
        None => Ok("Unnamed Activity".to_owned()),
    }
}

/// Reads one point element into a sample, as `spec_point` describes.
fn extract_point(c: &xmltree::Element) -> (r: Result<Sample, GpxError>)
    ensures
        r is Ok <==> spec_point(elem_model(*c)) is Some,
        r matches Ok(p) ==> spec_point(elem_model(*c)) == Some(p) && p.wf(),
        r matches Err(e) ==> e == GpxError::MalformedDocument,
{
    let ele_el = match get_child(c, "ele") {
        Some(x) => x,
        None => {
            return Err(GpxError::MalformedDocument);
        },
    };
    let ele_mm: i64 = match get_text(ele_el) {
        None => 0,
        Some(t) => match parse_scaled(t.as_str(), 3) {
            Some(v) => v,
            None => {
                return Err(GpxError::MalformedDocument);
            },
        },
    };
    let time_el = match get_child(c, "time") {
        Some(x) => x,
        None => {
            return Err(GpxError::MalformedDocument);
        },
    };
    let ts = match get_text(time_el) {
        None => {
            return Err(GpxError::MalformedDocument);
        },
        Some(t) => match parse_time(t.as_str()) {
            Some(ts) => ts,
            None => {
                return Err(GpxError::MalformedDocument);
            },
        },
    };
    let lat_udeg: i64 = match get_attr(c, "lat") {
        None => {
            return Err(GpxError::MalformedDocument);
        },
        Some(t) => match parse_scaled(t.as_str(), 6) {
            Some(v) => v,
            None => {
                return Err(GpxError::MalformedDocument);
            },
        },
    };
    let lon_udeg: i64 = match get_attr(c, "lon") {
        None => {
            return Err(GpxError::MalformedDocument);
        },
        Some(t) => match parse_scaled(t.as_str(), 6) {
            Some(v) => v,
            None => {
                return Err(GpxError::MalformedDocument);
            },
        },
    };
    Ok(Sample { ele_mm, time: ts, lat_udeg, lon_udeg })
}

/// Walks the point elements of the first segment in document order,
/// as `spec_samples` describes; every sample comes out well formed.
pub fn get_points(doc: &xmltree::Element) -> (r: Result<Vec<Sample>, GpxError>)
    ensures
        r is Ok <==> spec_samples(elem_model(*doc)) is Some,
        r matches Ok(v) ==> spec_samples(elem_model(*doc)) == Some(v@) && forall|k: int|
            0 <= k < v@.len() ==> #[trigger] v@[k].wf(),
        r matches Err(e) ==> e == GpxError::MalformedDocument,
{
    let trk = match get_child(doc, "trk") {
        Some(t) => t,
        None => {
            return Err(GpxError::MalformedDocument);
        },
    };
    let seg = match get_child(trk, "trkseg") {
        Some(t) => t,
        None => {
            return Err(GpxError::MalformedDocument);
        },
    };
    let n = child_count(seg);
    let mut pts: Vec<Sample> = Vec::new();
    let mut i: usize = 0;
    while i < n
        invariant
            0 <= i <= n,
            n == elem_model(*seg).children.len(),
            spec_samples(elem_model(*doc)) == spec_points(elem_model(*seg).children),
            spec_points(elem_model(*seg).children.subrange(0, i as int)) == Some(pts@),
            forall|k: int| 0 <= k < pts@.len() ==> #[trigger] pts@[k].wf(),
        decreases n - i,
    {
        let ghost cs = elem_model(*seg).children;
        proof {
            assert(cs.subrange(0, i + 1).drop_last() =~= cs.subrange(0, i as int));
            assert(cs.subrange(0, i + 1).last() == cs[i as int]);
        }
        match child_at(seg, i) {
            None => {},
            Some(el) => {
                match extract_point(el) {
                    Ok(p) => {
                        pts.push(p);
                    },
                    Err(_) => {
                        proof {
                            lemma_points_err(cs, i as int);
                        }
                        return Err(GpxError::MalformedDocument);
                    },
                }
            },
        }
        i = i + 1;
    }
    proof {
        assert(elem_model(*seg).children.subrange(0, n as int) =~= elem_model(*seg).children);
    }
    Ok(pts)
}

} // verus!
