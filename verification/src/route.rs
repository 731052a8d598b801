//! The trajectory data model and its persisted document form.
//!
//! A recording session accumulates immutable route points; on demand the
//! sequence is aggregated with session metadata into a saved-route
//! structure and rendered as a structured, pretty-printed text document.
//! Everything here is pure computation: writing the document to durable
//! storage is the surrounding program's concern, and an empty trajectory
//! is rejected before any of that can happen.

use vstd::prelude::*;
use crate::textfmt::{
    append_json_escaped, append_u64, append_umilli, dec_chars, esc_chars, pad2_chars, pad4_chars,
    append_pad2, append_pad4, umilli_chars,
};

verus! {

/// One sampled point of a trajectory: the tile-local position, the
/// position in the global frame, the packed tile identifier with its
/// readable rendering, milliseconds since the recording started, and the
/// mount flag. Coordinates are fixed-point thousandths of a world unit.
/// Never mutated after creation.
#[derive(Debug)]
pub struct RoutePoint {
    pub x: i64,
    pub y: i64,
    pub z: i64,
    pub global_x: i64,
    pub global_y: i64,
    pub global_z: i64,
    pub map_id: u32,
    pub map_id_str: String,
    pub timestamp_ms: u64,
    pub on_torrent: bool,
}

impl Clone for RoutePoint {
    fn clone(&self) -> (r: Self)
        ensures
            r == *self,
    {
        RoutePoint {
            x: self.x,
            y: self.y,
            z: self.z,
            global_x: self.global_x,
            global_y: self.global_y,
            global_z: self.global_z,
            map_id: self.map_id,
            map_id_str: self.map_id_str.clone(),
            timestamp_ms: self.timestamp_ms,
            on_torrent: self.on_torrent,
        }
    }
}

/// The persisted aggregate: session metadata plus the full ordered point
/// sequence. Derived entirely from a trajectory at save time; the duration
/// is carried in milliseconds and rendered as seconds in the document.
#[derive(Debug)]
pub struct SavedRoute {
    pub name: String,
    pub recorded_at: String,
    pub duration_ms: u64,
    pub interval_ms: u64,
    pub point_count: usize,
    pub points: Vec<RoutePoint>,
}

/// A save was requested with zero recorded points; it is rejected before
/// any output is produced.
#[derive(Clone, Copy, PartialEq, Eq, Structural, Debug)]
pub struct EmptyRouteError;

/// The rendered document and the file name derived for it.
#[derive(Debug)]
pub struct RouteDocument {
    pub filename: String,
    pub json: String,
}

/// The timestamp text for a count of seconds since the Unix epoch. The
/// calendar arithmetic is intentionally approximate (365-day years,
/// 30-day months): the text only names files and sessions, never feeds
/// elapsed-time computation.
pub open spec fn timestamp_chars(secs: nat) -> Seq<char> {
    let days = secs / 86400;
    pad4_chars(1970 + days / 365) + seq!['-'] + pad2_chars(days % 365 / 30 + 1) + seq!['-']
        + pad2_chars(days % 365 % 30 + 1) + seq![' '] + pad2_chars(secs % 86400 / 3600)
        + seq![':'] + pad2_chars(secs % 3600 / 60) + seq![':'] + pad2_chars(secs % 60)
}

/// Render the timestamp text for a count of seconds since the Unix epoch.
pub fn format_timestamp(secs: u64) -> (r: String)
    ensures
        r@ == timestamp_chars(secs as nat),
{
    let days = secs / 86400;
    proof {
        vstd::arithmetic::div_mod::lemma_div_is_ordered(secs as int, u64::MAX as int, 86400);
        vstd::arithmetic::div_mod::lemma_div_nonincreasing(days as int, 365);
    }
    let mut out = String::new();
    append_pad4(&mut out, 1970 + days / 365);
    out.append("-");
    append_pad2(&mut out, days % 365 / 30 + 1);
    out.append("-");
    append_pad2(&mut out, days % 365 % 30 + 1);
    out.append(" ");
    append_pad2(&mut out, secs % 86400 / 3600);
    out.append(":");
    append_pad2(&mut out, secs % 3600 / 60);
    out.append(":");
    append_pad2(&mut out, secs % 60);
    proof {
        reveal_strlit("-");
        reveal_strlit(" ");
        reveal_strlit(":");
        assert(out@ =~= timestamp_chars(secs as nat));
    }
    out
}

/// Relies on std::time::SystemTime::now and duration_since: the seconds of
/// the current wall-clock time since the Unix epoch, zero if the clock
/// reads before the epoch. Nothing further can be promised of a clock.
#[verifier::external_body]
fn unix_time_secs() -> u64 {
    std::time::SystemTime::now().duration_since(std::time::SystemTime::UNIX_EPOCH).unwrap_or_default().as_secs()
}

/// The current wall-clock instant as timestamp text.
pub fn generate_timestamp() -> (r: String)
    ensures
        exists|secs: u64| r@ == timestamp_chars(secs as nat),
{
    let secs = unix_time_secs();
    let r = format_timestamp(secs);
    proof {
        assert(r@ == timestamp_chars(secs as nat));
    }
    r
}

/// How one timestamp character appears in a file name: the characters a
/// file name cannot safely carry are substituted.
pub open spec fn fname_char(c: char) -> char {
    if c == ':' {
        '-'
    } else if c == ' ' {
        '_'
    } else {
        c
    }
}

/// The file name derived from timestamp text.
pub open spec fn filename_chars(ts: Seq<char>) -> Seq<char> {
    "route_"@ + ts.map_values(|c: char| fname_char(c)) + ".json"@
}

/// Derive the output file name from timestamp text, substituting the
/// characters a file name cannot safely carry.
pub fn route_filename(timestamp: &str) -> (r: String)
    ensures
        r@ == filename_chars(timestamp@),
{
    let mut out = String::new();
    out.append("route_");
    let n = timestamp.unicode_len();
    let mut i: usize = 0;
    proof {
        assert(timestamp@.take(0).map_values(|c: char| fname_char(c)) =~= Seq::<char>::empty());
        assert(out@ =~= "route_"@ + timestamp@.take(0).map_values(|c: char| fname_char(c)));
    }
    while i < n
        invariant
            n == timestamp@.len(),
            0 <= i <= n,
            out@ == "route_"@ + timestamp@.take(i as int).map_values(|c: char| fname_char(c)),
        decreases n - i,
    {
        let c = timestamp.get_char(i);
        if c == ':' {
            out.append("-");
            proof {
                reveal_strlit("-");
            }
        } else if c == ' ' {
            out.append("_");
            proof {
                reveal_strlit("_");
            }
        } else {
            let piece = timestamp.substring_char(i, i + 1);
            out.append(piece);
            proof {
                assert(piece@ =~= seq![c]);
            }
        }
        proof {
            assert(out@ =~= "route_"@ + timestamp@.take(i + 1).map_values(
                |c: char| fname_char(c),
            ));
        }
        i += 1;
    }
    out.append(".json");
    proof {
        assert(timestamp@.take(n as int) =~= timestamp@);
        assert(out@ =~= filename_chars(timestamp@));
    }
    out
}

/// The document text of one point.
pub open spec fn point_chars(p: RoutePoint) -> Seq<char> {
    "    {\n      \"x\": "@ + crate::textfmt::milli_chars(p.x as int) + ",\n      \"y\": "@
        + crate::textfmt::milli_chars(p.y as int) + ",\n      \"z\": "@
        + crate::textfmt::milli_chars(p.z as int) + ",\n      \"global_x\": "@
        + crate::textfmt::milli_chars(p.global_x as int) + ",\n      \"global_y\": "@
        + crate::textfmt::milli_chars(p.global_y as int) + ",\n      \"global_z\": "@
        + crate::textfmt::milli_chars(p.global_z as int) + ",\n      \"map_id\": "@ + dec_chars(
        p.map_id as nat,
    ) + ",\n      \"map_id_str\": \""@ + esc_chars(p.map_id_str@)
        + "\",\n      \"timestamp_ms\": "@ + dec_chars(p.timestamp_ms as nat)
        + ",\n      \"on_torrent\": "@ + (if p.on_torrent {
        "true"@
    } else {
        "false"@
    }) + "\n    }"@
}

/// The document text of an ordered point sequence.
pub open spec fn points_list_chars(pts: Seq<RoutePoint>) -> Seq<char>
    decreases pts.len(),
{
    if pts.len() == 0 {
        Seq::empty()
    } else if pts.len() == 1 {
        point_chars(pts[0])
    } else {
        points_list_chars(pts.drop_last()) + ",\n"@ + point_chars(pts.last())
    }
}

/// The document text up to and including the opening of the points array.
pub open spec fn doc_head_chars(
    name: Seq<char>,
    recorded_at: Seq<char>,
    duration_ms: u64,
    interval_ms: u64,
    point_count: nat,
) -> Seq<char> {
    "{\n  \"name\": \""@ + esc_chars(name) + "\",\n  \"recorded_at\": \""@ + esc_chars(
        recorded_at,
    ) + "\",\n  \"duration_secs\": "@ + umilli_chars(duration_ms as nat)
        + ",\n  \"interval_ms\": "@ + dec_chars(interval_ms as nat) + ",\n  \"point_count\": "@
        + dec_chars(point_count) + ",\n  \"points\": ["@
}

/// The full document text of a saved route.
pub open spec fn doc_chars(
    name: Seq<char>,
    recorded_at: Seq<char>,
    duration_ms: u64,
    interval_ms: u64,
    point_count: nat,
    pts: Seq<RoutePoint>,
) -> Seq<char> {
    doc_head_chars(name, recorded_at, duration_ms, interval_ms, point_count) + (if pts.len()
        == 0 {
        "]\n}"@
    } else {
        "\n"@ + points_list_chars(pts) + "\n  ]\n}"@
    })
}

/// Append the document text of one point.
#[verifier::rlimit(60)]
fn append_point(out: &mut String, p: &RoutePoint)
    ensures
        final(out)@ == old(out)@ + point_chars(*p),
{
    out.append("    {\n      \"x\": ");
    crate::textfmt::append_milli(out, p.x);
    out.append(",\n      \"y\": ");
    crate::textfmt::append_milli(out, p.y);
    out.append(",\n      \"z\": ");
    crate::textfmt::append_milli(out, p.z);
    out.append(",\n      \"global_x\": ");
    crate::textfmt::append_milli(out, p.global_x);
    out.append(",\n      \"global_y\": ");
    crate::textfmt::append_milli(out, p.global_y);
    out.append(",\n      \"global_z\": ");
    crate::textfmt::append_milli(out, p.global_z);
    out.append(",\n      \"map_id\": ");
    append_u64(out, p.map_id as u64);
    out.append(",\n      \"map_id_str\": \"");
    append_json_escaped(out, p.map_id_str.as_str());
    out.append("\",\n      \"timestamp_ms\": ");
    append_u64(out, p.timestamp_ms);
    out.append(",\n      \"on_torrent\": ");
    if p.on_torrent {
        out.append("true");
    } else {
        out.append("false");
    }
    out.append("\n    }");
    proof {
        reveal_strlit("    {\n      \"x\": ");
        reveal_strlit(",\n      \"y\": ");
        reveal_strlit(",\n      \"z\": ");
        reveal_strlit(",\n      \"global_x\": ");
        reveal_strlit(",\n      \"global_y\": ");
        reveal_strlit(",\n      \"global_z\": ");
        reveal_strlit(",\n      \"map_id\": ");
        reveal_strlit(",\n      \"map_id_str\": \"");
        reveal_strlit("\",\n      \"timestamp_ms\": ");
        reveal_strlit(",\n      \"on_torrent\": ");
        reveal_strlit("true");
        reveal_strlit("false");
        reveal_strlit("\n    }");
        assert(final(out)@ =~= old(out)@ + point_chars(*p));
    }
}

/// Render a saved route as the pretty-printed structured text document.
#[verifier::rlimit(60)]
pub fn render_route_json(route: &SavedRoute) -> (out: String)
    ensures
        out@ == doc_chars(
            route.name@,
            route.recorded_at@,
            route.duration_ms,
            route.interval_ms,
            route.point_count as nat,
            route.points@,
        ),
{
    let ghost head = doc_head_chars(
        route.name@,
        route.recorded_at@,
        route.duration_ms,
        route.interval_ms,
        route.point_count as nat,
    );
    let mut out = String::new();
    out.append("{\n  \"name\": \"");
    append_json_escaped(&mut out, route.name.as_str());
    out.append("\",\n  \"recorded_at\": \"");
    append_json_escaped(&mut out, route.recorded_at.as_str());
    out.append("\",\n  \"duration_secs\": ");
    append_umilli(&mut out, route.duration_ms);
    out.append(",\n  \"interval_ms\": ");
    append_u64(&mut out, route.interval_ms);
    out.append(",\n  \"point_count\": ");
    let count64: u64 = route.point_count as u64;
    append_u64(&mut out, count64);
    out.append(",\n  \"points\": [");
    proof {
        reveal_strlit("{\n  \"name\": \"");
        reveal_strlit("\",\n  \"recorded_at\": \"");
        reveal_strlit("\",\n  \"duration_secs\": ");
        reveal_strlit(",\n  \"interval_ms\": ");
        reveal_strlit(",\n  \"point_count\": ");
        reveal_strlit(",\n  \"points\": [");
        assert(out@ =~= head);
    }
    if route.points.len() == 0 {
        out.append("]\n}");
        proof {
            reveal_strlit("]\n}");
            assert(out@ =~= doc_chars(
                route.name@,
                route.recorded_at@,
                route.duration_ms,
                route.interval_ms,
                route.point_count as nat,
                route.points@,
            ));
        }
        return out;
    }
    out.append("\n");
    let n = route.points.len();
    let mut i: usize = 0;
    proof {
        reveal_strlit("\n");
        assert(points_list_chars(route.points@.take(0)) =~= Seq::<char>::empty());
        assert(out@ =~= head + "\n"@ + points_list_chars(route.points@.take(0)));
    }
    while i < n
        invariant
            n == route.points@.len(),
            0 <= i <= n,
            head == doc_head_chars(
                route.name@,
                route.recorded_at@,
                route.duration_ms,
                route.interval_ms,
                route.point_count as nat,
            ),
            out@ == head + "\n"@ + points_list_chars(route.points@.take(i as int)),
        decreases n - i,
    {
        if i > 0 {
            out.append(",\n");
        }
        append_point(&mut out, &route.points[i]);
        proof {
            reveal_strlit(",\n");
            assert(route.points@.take(i + 1).drop_last() =~= route.points@.take(i as int));
            assert(route.points@.take(i + 1).last() == route.points@[i as int]);
            if i == 0 {
                assert(points_list_chars(route.points@.take(1)) == point_chars(
                    route.points@[0],
                ));
            }
            assert(out@ =~= head + "\n"@ + points_list_chars(route.points@.take(i + 1)));
        }
        i += 1;
    }
    out.append("\n  ]\n}");
    proof {
        reveal_strlit("\n  ]\n}");
        assert(route.points@.take(n as int) =~= route.points@);
        assert(out@ =~= doc_chars(
            route.name@,
            route.recorded_at@,
            route.duration_ms,
            route.interval_ms,
            route.point_count as nat,
            route.points@,
        ));
    }
    out
}

/// Aggregate a trajectory and its session metadata into a saved route.
/// An empty trajectory is rejected; the duration is the last point's
/// elapsed milliseconds.
pub fn build_saved_route(route: &Vec<RoutePoint>, interval_ms: u64, timestamp: &str) -> (r: Result<
    SavedRoute,
    EmptyRouteError,
>)
    ensures
        route@.len() == 0 <==> r is Err,
        r matches Ok(sr) ==> {
            &&& sr.name@ == "Route "@ + timestamp@
            &&& sr.recorded_at@ == timestamp@
            &&& sr.duration_ms == route@.last().timestamp_ms
            &&& sr.interval_ms == interval_ms
            &&& sr.point_count == route@.len()
            &&& sr.points@ == route@
        },
{
    if route.len() == 0 {
        return Err(EmptyRouteError);
    }
    let mut name = String::new();
    name.append("Route ");
    name.append(timestamp);
    proof {
        reveal_strlit("Route ");
        assert(name@ =~= "Route "@ + timestamp@);
    }
    let mut points: Vec<RoutePoint> = Vec::new();
    let mut i: usize = 0;
    while i < route.len()
        invariant
            0 <= i <= route@.len(),
            points@.len() == i,
            forall|j: int| 0 <= j < i ==> points@[j] == route@[j],
        decreases route@.len() - i,
    {
        points.push(route[i].clone());
        i += 1;
    }
    proof {
        assert(points@ =~= route@);
    }
    let duration_ms = route[route.len() - 1].timestamp_ms;
    Ok(
        SavedRoute {
            name,
            recorded_at: String::from_str(timestamp),
            duration_ms,
            interval_ms,
            point_count: route.len(),
            points,
        },
    )
}

/// Compute everything a save produces — the derived file name and the
/// rendered document — without touching storage. An empty trajectory is
/// rejected before anything is computed, so a failed save has no effects
/// and the caller's trajectory is untouched for a retry.
pub fn save_route_document(route: &Vec<RoutePoint>, interval_ms: u64, timestamp: &str) -> (r:
    Result<RouteDocument, EmptyRouteError>)
    ensures
        route@.len() == 0 <==> r is Err,
        r matches Ok(d) ==> {
            &&& d.filename@ == filename_chars(timestamp@)
            &&& d.json@ == doc_chars(
                "Route "@ + timestamp@,
                timestamp@,
                route@.last().timestamp_ms,
                interval_ms,
                route@.len() as nat,
                route@,
            )
        },
{
    let saved = match build_saved_route(route, interval_ms, timestamp) {
        Err(e) => {
            return Err(e);
        },
        Ok(s) => s,
    };
    let json = render_route_json(&saved);
    let filename = route_filename(timestamp);
    Ok(RouteDocument { filename, json })
}

} // verus!
