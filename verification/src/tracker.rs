//! The interval-gated recording state machine.
//!
//! The tracker is driven synchronously by its single owner: once per host
//! update cycle it is handed the current monotonic-clock reading and the
//! telemetry values resolved for that cycle, and it decides whether a
//! sample is due, converts it to the global frame, and appends one
//! immutable point. Times are milliseconds of a monotonic clock; callers
//! hand in non-decreasing readings, which is what such a clock gives.

use vstd::prelude::*;
use crate::route::{
    filename_chars, doc_chars, save_route_document, EmptyRouteError, RouteDocument, RoutePoint,
};
use crate::transformer::{global_of, map_id_chars, world_offset, WorldPositionTransformer,
    COORD_LIMIT};

verus! {

/// How long a status message stays visible, in milliseconds.
pub const STATUS_WINDOW_MS: u64 = 3000;

/// A status message and the instant it was set.
pub struct StatusMessage {
    pub text: String,
    pub set_at_ms: u64,
}

/// The local position and tile resolved for one update cycle, in
/// thousandths of a world unit. Handed to the tracker only when both the
/// position and the tile identifier resolved; a cycle where either was
/// unavailable passes nothing, and no partial point is ever appended.
#[derive(Clone, Copy, PartialEq, Eq, Structural, Debug)]
pub struct PositionSample {
    pub x: i64,
    pub y: i64,
    pub z: i64,
    pub map_id: u32,
}

/// No two consecutively appended points are closer in elapsed time than
/// the configured interval (the first point is unconstrained).
pub open spec fn gaps_ok(pts: Seq<RoutePoint>, interval_ms: u64) -> bool {
    forall|i: int|
        1 <= i < pts.len() ==> (#[trigger] pts[i]).timestamp_ms >= pts[i - 1].timestamp_ms
            + interval_ms
}

/// The recording state machine: the accumulated trajectory, the session
/// instants, the configured interval, the self-expiring status message,
/// and the coordinate transformer.
pub struct RouteTracker {
    pub route: Vec<RoutePoint>,
    pub is_recording: bool,
    pub start_time_ms: Option<u64>,
    pub last_record_time_ms: u64,
    pub record_interval_ms: u64,
    pub show_ui: bool,
    pub status_message: Option<StatusMessage>,
    pub transformer: WorldPositionTransformer,
}

impl RouteTracker {
    /// The tracker's invariant: the table is within its limits, the
    /// trajectory respects the interval gating, and while recording the
    /// session instants are coherent — there is a session start, and the
    /// last accepted sample's elapsed time plus the start is no later
    /// than the last-sample instant.
    pub open spec fn wf(&self) -> bool {
        &&& self.transformer.wf()
        &&& gaps_ok(self.route@, self.record_interval_ms)
        &&& (self.is_recording ==> self.start_time_ms is Some)
        &&& (self.is_recording && self.route@.len() > 0 ==> self.start_time_ms->0
            + self.route@.last().timestamp_ms <= self.last_record_time_ms)
    }

    /// What `get_status` reports at an instant: the stored text while its
    /// age is under the window, nothing once the window has passed.
    pub open spec fn status_at(&self, now_ms: u64) -> Option<Seq<char>> {
        match self.status_message {
            None => None,
            Some(m) => if now_ms < m.set_at_ms + STATUS_WINDOW_MS {
                Some(m.text@)
            } else {
                None
            },
        }
    }

    /// Create a tracker in the Idle state with an empty trajectory.
    pub fn new(record_interval_ms: u64, transformer: WorldPositionTransformer, now_ms: u64) -> (r:
        Self)
        requires
            transformer.wf(),
        ensures
            r.wf(),
            r.route@.len() == 0,
            !r.is_recording,
            r.start_time_ms is None,
            r.last_record_time_ms == now_ms,
            r.record_interval_ms == record_interval_ms,
            r.show_ui,
            r.status_message is None,
            r.transformer == transformer,
    {
        RouteTracker {
            route: Vec::new(),
            is_recording: false,
            start_time_ms: None,
            last_record_time_ms: now_ms,
            record_interval_ms,
            show_ui: true,
            status_message: None,
            transformer,
        }
    }

    /// Start (or restart) recording: the trajectory is cleared whatever it
    /// held, the session start becomes the current instant, and the state
    /// becomes Recording.
    pub fn start_recording(&mut self, now_ms: u64)
        requires
            old(self).wf(),
        ensures
            final(self).wf(),
            final(self).route@.len() == 0,
            final(self).is_recording,
            final(self).start_time_ms == Some(now_ms),
            final(self).last_record_time_ms == old(self).last_record_time_ms,
            final(self).record_interval_ms == old(self).record_interval_ms,
            final(self).show_ui == old(self).show_ui,
            final(self).status_message == old(self).status_message,
            final(self).transformer == old(self).transformer,
    {
        self.route.clear();
        self.start_time_ms = Some(now_ms);
        self.is_recording = true;
    }

    /// Stop recording: no further samples are accepted; the trajectory is
    /// retained untouched.
    pub fn stop_recording(&mut self)
        requires
            old(self).wf(),
        ensures
            final(self).wf(),
            !final(self).is_recording,
            final(self).route@ == old(self).route@,
            final(self).start_time_ms == old(self).start_time_ms,
            final(self).last_record_time_ms == old(self).last_record_time_ms,
            final(self).record_interval_ms == old(self).record_interval_ms,
            final(self).show_ui == old(self).show_ui,
            final(self).status_message == old(self).status_message,
            final(self).transformer == old(self).transformer,
    {
        self.is_recording = false;
    }

    /// One update cycle. Does nothing unless recording; does nothing while
    /// the configured interval has not yet elapsed since the last accepted
    /// sample; skips the cycle entirely when the position or tile was
    /// unavailable. Otherwise appends exactly one point — local position,
    /// global position (local coordinates standing in when the table
    /// offers no conversion), rendered tile identifier, elapsed time and
    /// mount flag — and moves the last-sample instant to now.
    pub fn record_position(&mut self, now_ms: u64, sample: Option<PositionSample>, on_torrent: bool)
        requires
            old(self).wf(),
            now_ms >= old(self).last_record_time_ms,
            old(self).start_time_ms matches Some(st) ==> now_ms >= st,
            sample matches Some(s) ==> -COORD_LIMIT <= s.x <= COORD_LIMIT && -COORD_LIMIT <= s.z
                <= COORD_LIMIT,
        ensures
            final(self).wf(),
            final(self).is_recording == old(self).is_recording,
            final(self).start_time_ms == old(self).start_time_ms,
            final(self).record_interval_ms == old(self).record_interval_ms,
            final(self).show_ui == old(self).show_ui,
            final(self).status_message == old(self).status_message,
            final(self).transformer == old(self).transformer,
            !old(self).is_recording ==> *final(self) == *old(self),
            old(self).is_recording && now_ms < old(self).last_record_time_ms + old(
                self,
            ).record_interval_ms ==> *final(self) == *old(self),
            old(self).is_recording && now_ms >= old(self).last_record_time_ms + old(
                self,
            ).record_interval_ms && sample is None ==> *final(self) == *old(self),
            sample matches Some(s) ==> (old(self).is_recording && now_ms >= old(
                self,
            ).last_record_time_ms + old(self).record_interval_ms ==> {
                &&& final(self).route@.len() == old(self).route@.len() + 1
                &&& final(self).route@.drop_last() == old(self).route@
                &&& final(self).last_record_time_ms == now_ms
                &&& {
                    let p = final(self).route@.last();
                    &&& p.x == s.x
                    &&& p.y == s.y
                    &&& p.z == s.z
                    &&& (p.global_x as int, p.global_y as int, p.global_z as int) == global_of(
                        old(self).transformer.rows@,
                        s.map_id,
                        s.x as int,
                        s.y as int,
                        s.z as int,
                    )
                    &&& p.map_id == s.map_id
                    &&& p.map_id_str@ == map_id_chars(s.map_id)
                    &&& p.timestamp_ms == now_ms - old(self).start_time_ms->0
                    &&& p.on_torrent == on_torrent
                }
            }),
    {
        if !self.is_recording {
            return ;
        }
        if now_ms - self.last_record_time_ms < self.record_interval_ms {
            return ;
        }
        let s = match sample {
            None => {
                return ;
            },
            Some(s) => s,
        };
        let st = match self.start_time_ms {
            Some(t) => t,
            None => 0,
        };
        let timestamp_ms = now_ms - st;
        let converted = self.transformer.local_to_world_first(s.map_id, s.x, s.y, s.z);
        let (gx, gy, gz) = match converted {
            Some(g) => g,
            None => (s.x, s.y, s.z),
        };
        let map_id_str = crate::transformer::format_map_id(s.map_id);
        let point = RoutePoint {
            x: s.x,
            y: s.y,
            z: s.z,
            global_x: gx,
            global_y: gy,
            global_z: gz,
            map_id: s.map_id,
            map_id_str,
            timestamp_ms,
            on_torrent,
        };
        self.route.push(point);
        self.last_record_time_ms = now_ms;
        proof {
            assert(final(self).route@.drop_last() =~= old(self).route@);
            assert forall|i: int|
                1 <= i < final(self).route@.len() implies (#[trigger] final(self).route@[i]).timestamp_ms
                >= final(self).route@[i - 1].timestamp_ms + final(self).record_interval_ms by {
                if i < final(self).route@.len() - 1 {
                    assert(final(self).route@[i] == old(self).route@[i]);
                    assert(final(self).route@[i - 1] == old(self).route@[i - 1]);
                } else {
                    assert(final(self).route@[i - 1] == old(self).route@[i - 1]);
                }
            }
        }
    }

    /// Compute the save artifacts for the recorded trajectory: the derived
    /// file name and the rendered document. Rejected when the trajectory
    /// is empty, before anything is computed; the trajectory itself is
    /// never touched, so a failed save can be retried.
    pub fn save_route(&self, timestamp: &str) -> (r: Result<RouteDocument, EmptyRouteError>)
        ensures
            self.route@.len() == 0 <==> r is Err,
            r matches Ok(d) ==> {
                &&& d.filename@ == filename_chars(timestamp@)
                &&& d.json@ == doc_chars(
                    "Route "@ + timestamp@,
                    timestamp@,
                    self.route@.last().timestamp_ms,
                    self.record_interval_ms,
                    self.route@.len() as nat,
                    self.route@,
                )
            },
    {
        save_route_document(&self.route, self.record_interval_ms, timestamp)
    }

    /// Store a status message together with the instant it was set.
    pub fn set_status(&mut self, message: String, now_ms: u64)
        requires
            old(self).wf(),
        ensures
            final(self).wf(),
            final(self).status_message matches Some(m) && m.text@ == message@ && m.set_at_ms
                == now_ms,
            final(self).route@ == old(self).route@,
            final(self).is_recording == old(self).is_recording,
            final(self).start_time_ms == old(self).start_time_ms,
            final(self).last_record_time_ms == old(self).last_record_time_ms,
            final(self).record_interval_ms == old(self).record_interval_ms,
            final(self).show_ui == old(self).show_ui,
            final(self).transformer == old(self).transformer,
    {
        self.status_message = Some(StatusMessage { text: message, set_at_ms: now_ms });
    }

    /// The stored status message while its age is under the window,
    /// nothing once the window has passed. Pull-based and self-expiring:
    /// no background timer is involved.
    pub fn get_status(&self, now_ms: u64) -> (r: Option<String>)
        requires
            self.status_message matches Some(m) ==> now_ms >= m.set_at_ms,
        ensures
            r is Some <==> self.status_at(now_ms) is Some,
            r matches Some(text) ==> text@ == self.status_at(now_ms)->0,
    {
        match &self.status_message {
            None => None,
            Some(m) => {
                if now_ms - m.set_at_ms < STATUS_WINDOW_MS {
                    Some(m.text.clone())
                } else {
                    None
                }
            },
        }
    }

    /// The player's current position, local and global, for one resolved
    /// sample: the same conversion and local fallback a recorded point
    /// gets, without touching the trajectory. Nothing when the position
    /// or tile was unavailable.
    pub fn get_current_position(&self, sample: Option<PositionSample>) -> (r: Option<
        (i64, i64, i64, i64, i64, i64, u32),
    >)
        requires
            self.wf(),
            sample matches Some(s) ==> -COORD_LIMIT <= s.x <= COORD_LIMIT && -COORD_LIMIT <= s.z
                <= COORD_LIMIT,
        ensures
            r is Some <==> sample is Some,
            r matches Some(g) ==> sample matches Some(s) && {
                &&& g.0 == s.x
                &&& g.1 == s.y
                &&& g.2 == s.z
                &&& (g.3 as int, g.4 as int, g.5 as int) == global_of(
                    self.transformer.rows@,
                    s.map_id,
                    s.x as int,
                    s.y as int,
                    s.z as int,
                )
                &&& g.6 == s.map_id
            },
    {
        let s = match sample {
            None => {
                return None;
            },
            Some(s) => s,
        };
        let converted = self.transformer.local_to_world_first(s.map_id, s.x, s.y, s.z);
        let (gx, gy, gz) = match converted {
            Some(g) => g,
            None => (s.x, s.y, s.z),
        };
        Some((s.x, s.y, s.z, gx, gy, gz, s.map_id))
    }
}

/// Interval gating, stated of any well-formed tracker: no two consecutive
/// points of its trajectory are closer in elapsed time than the configured
/// interval; only the first point is unconstrained.
pub proof fn lemma_interval_gating(t: &RouteTracker, i: int)
    requires
        t.wf(),
        1 <= i < t.route@.len(),
    ensures
        t.route@[i].timestamp_ms >= t.route@[i - 1].timestamp_ms + t.record_interval_ms,
{
}

/// With the empty-table transformer every conversion fails, so whatever
/// sample a tick accepts, the global coordinates it records equal the
/// local ones.
pub proof fn lemma_empty_table_samples_stay_local(t: &RouteTracker, s: PositionSample)
    requires
        t.transformer.rows@.len() == 0,
    ensures
        global_of(t.transformer.rows@, s.map_id, s.x as int, s.y as int, s.z as int) == (
            s.x as int,
            s.y as int,
            s.z as int,
        ),
{
    crate::transformer::lemma_empty_table_is_local(
        t.transformer.rows@,
        s.map_id,
        s.x as int,
        s.y as int,
        s.z as int,
    );
}

/// Status visibility: a message read back at the instant it was set is
/// returned; once the window has fully elapsed, with no call in between,
/// nothing is returned.
pub proof fn lemma_status_lifecycle(t: &RouteTracker, now_ms: u64)
    requires
        t.status_message is Some,
    ensures
        now_ms == t.status_message->0.set_at_ms ==> t.status_at(now_ms) == Some(
            t.status_message->0.text@,
        ),
        now_ms >= t.status_message->0.set_at_ms + STATUS_WINDOW_MS ==> t.status_at(now_ms) is None,
{
}

} // verus!
