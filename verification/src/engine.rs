//! The multi-track playback engine's state machine.
//!
//! The engine owns every decision about playback: which tracks exist,
//! their ids, volumes, loop and pause flags, and the selected capture
//! device.  It never touches a decoder, a sink or the audio graph
//! itself: the shell around it opens files, drives sinks, and reports
//! back what happened (a probe of the media, each sink's drain state)
//! as plain values.  Every operation is therefore verified for every
//! possible outcome of that outside work.
//!
//! Volumes are fixed-point gains in units of 1/1000, clamped to
//! `[0, 1000]`; positions and durations are milliseconds.  A track that
//! reaches end of stream is restarted by [`Engine::update`] when it
//! loops, and reaped otherwise, so between updates every listed track
//! still has a sink.

use vstd::prelude::*;
use vstd::string::StringExecFns;
use crate::graph;

verus! {

/// Gain scale: 1000 is a gain of 1.0.
pub const MAX_VOLUME: u32 = 1000;

/// Derived playback state of the whole engine.
#[derive(Clone, Copy, Debug, PartialEq, Eq, Structural)]
pub enum PlayerState {
    Stopped,
    Paused,
    Playing,
}

/// One playing sound.
pub struct Track {
    /// Process-unique id, strictly increasing across the engine's life.
    pub id: u32,
    /// Path of the media file backing the track.
    pub path: String,
    /// Total duration in milliseconds, when the decoder knows it.
    pub duration_ms: Option<u64>,
    /// Per-track gain in 1/1000 units, at most [`MAX_VOLUME`].
    pub volume: u32,
    /// Restart from the top at end of stream.
    pub looped: bool,
    /// Suspended by `pause`.
    pub paused: bool,
    /// Last reported playback position in milliseconds.
    pub position_ms: u64,
    /// Whether the decoder accepts seeking.
    pub seekable: bool,
}

/// What probing a media file found, reported by the shell.
pub enum MediaProbe {
    /// The file does not exist.
    Missing,
    /// The file exists but no decoder accepts it.
    Unreadable,
    /// A decoder opened it.
    Decoded { duration_ms: Option<u64>, seekable: bool },
}

/// Why an operation was refused.
#[derive(Clone, Copy, Debug, PartialEq, Eq, Structural)]
pub enum EngineError {
    FileMissing,
    DecodeFailed,
    TrackNotFound,
    SeekUnsupported,
    DurationUnknown,
    NoTrack,
    DeviceNotFound,
    NotAnInput,
    GraphUnavailable,
}

/// One sink's condition at a tick, reported by the shell.
#[derive(Clone, Copy, Debug, PartialEq, Eq, Structural)]
pub struct SinkStatus {
    pub id: u32,
    /// The sink ran out of queued samples.
    pub drained: bool,
    pub position_ms: u64,
}

/// What a tick decided: tracks to restart from the top, and tracks
/// whose sinks are to be dropped.
pub struct TickOutcome {
    pub restarted: Vec<u32>,
    pub removed: Vec<u32>,
}

/// The playback engine: all state, no I/O.
pub struct Engine {
    /// Live tracks, in strictly increasing id order.
    pub tracks: Vec<Track>,
    /// Next id to issue; greater than every id ever issued.
    pub next_id: u32,
    /// Master gain in 1/1000 units, at most [`MAX_VOLUME`].
    pub master_volume: u32,
    /// Node name of the selected capture device, if any.
    pub current_input_name: Option<String>,
}

/// Whether `id` falls under a scope: a named track, or every track.
pub open spec fn in_scope(id: u32, scope: Option<u32>) -> bool {
    match scope {
        Option::None => true,
        Option::Some(s) => id == s,
    }
}

pub open spec fn has_track(ts: Seq<Track>, id: u32) -> bool {
    exists|i: int| 0 <= i < ts.len() && (#[trigger] ts[i]).id == id
}

pub open spec fn with_paused(t: Track, b: bool) -> Track {
    Track { paused: b, ..t }
}

pub open spec fn with_looped(t: Track, b: bool) -> Track {
    Track { looped: b, ..t }
}

pub open spec fn with_position(t: Track, p: u64) -> Track {
    Track { position_ms: p, ..t }
}

pub open spec fn with_volume(t: Track, v: u32) -> Track {
    Track { volume: v, ..t }
}

pub open spec fn spec_set_paused(ts: Seq<Track>, scope: Option<u32>, b: bool) -> Seq<Track> {
    ts.map_values(
        |t: Track|
            if in_scope(t.id, scope) {
                with_paused(t, b)
            } else {
                t
            },
    )
}

pub open spec fn spec_set_looped(ts: Seq<Track>, scope: Option<u32>, b: bool) -> Seq<Track> {
    ts.map_values(
        |t: Track|
            if in_scope(t.id, scope) {
                with_looped(t, b)
            } else {
                t
            },
    )
}

pub open spec fn spec_toggle_looped(ts: Seq<Track>, scope: Option<u32>) -> Seq<Track> {
    ts.map_values(
        |t: Track|
            if in_scope(t.id, scope) {
                with_looped(t, !t.looped)
            } else {
                t
            },
    )
}

/// One named track's pause flag flipped.
pub open spec fn spec_toggle_track(ts: Seq<Track>, id: u32) -> Seq<Track> {
    ts.map_values(
        |t: Track|
            if t.id == id {
                with_paused(t, !t.paused)
            } else {
                t
            },
    )
}

/// One named track's volume set to the clamped value.
pub open spec fn spec_set_track_volume(ts: Seq<Track>, id: u32, v: u32) -> Seq<Track> {
    ts.map_values(
        |t: Track|
            if t.id == id {
                with_volume(t, clamp_volume(v))
            } else {
                t
            },
    )
}

/// Every track's effective gain under a master volume.
pub open spec fn spec_master_gains(ts: Seq<Track>, master: u32) -> Seq<(u32, u32)> {
    ts.map_values(|t: Track| (t.id, effective_gain(master, t.volume)))
}

/// Volumes above the scale clamp to full gain.
pub open spec fn clamp_volume(v: u32) -> u32 {
    if v > MAX_VOLUME {
        MAX_VOLUME
    } else {
        v
    }
}

/// Tracks left after stopping a scope.
pub open spec fn spec_remove_scope(ts: Seq<Track>, scope: Option<u32>) -> Seq<Track>
    decreases ts.len(),
{
    if ts.len() == 0 {
        ts
    } else {
        let rest = spec_remove_scope(ts.drop_last(), scope);
        if in_scope(ts.last().id, scope) {
            rest
        } else {
            rest.push(ts.last())
        }
    }
}

/// Ids of the tracks a stop removes.
pub open spec fn spec_removed_ids(ts: Seq<Track>, scope: Option<u32>) -> Seq<u32>
    decreases ts.len(),
{
    if ts.len() == 0 {
        Seq::empty()
    } else {
        let rest = spec_removed_ids(ts.drop_last(), scope);
        if in_scope(ts.last().id, scope) {
            rest.push(ts.last().id)
        } else {
            rest
        }
    }
}

/// Where a seek lands: clamped to the duration when it is known.
pub open spec fn seek_pos(t: Track, p: u64) -> u64 {
    match t.duration_ms {
        Option::Some(d) => if p > d {
            d
        } else {
            p
        },
        Option::None => p,
    }
}

/// Tracks after a seek: scoped seekable tracks move, the rest stay.
pub open spec fn spec_seek(ts: Seq<Track>, scope: Option<u32>, p: u64) -> Seq<Track> {
    ts.map_values(
        |t: Track|
            if in_scope(t.id, scope) && t.seekable {
                with_position(t, seek_pos(t, p))
            } else {
                t
            },
    )
}

/// The seeks to hand to the sinks: id and landing position of each
/// scoped seekable track.
pub open spec fn spec_seek_applied(ts: Seq<Track>, scope: Option<u32>, p: u64) -> Seq<(u32, u64)>
    decreases ts.len(),
{
    if ts.len() == 0 {
        Seq::empty()
    } else {
        let rest = spec_seek_applied(ts.drop_last(), scope, p);
        if in_scope(ts.last().id, scope) && ts.last().seekable {
            rest.push((ts.last().id, seek_pos(ts.last(), p)))
        } else {
            rest
        }
    }
}

/// Every scoped track accepts seeking.
pub open spec fn spec_all_seekable(ts: Seq<Track>, scope: Option<u32>) -> bool {
    forall|i: int|
        0 <= i < ts.len() && in_scope((#[trigger] ts[i]).id, scope) ==> ts[i].seekable
}

/// First reported status of the sink carrying `id`.
pub open spec fn status_of(sts: Seq<SinkStatus>, id: u32) -> Option<SinkStatus>
    decreases sts.len(),
{
    if sts.len() == 0 {
        None
    } else if sts[0].id == id {
        Some(sts[0])
    } else {
        status_of(sts.drop_first(), id)
    }
}

/// A tick keeps a track unless its sink drained and it does not loop.
pub open spec fn tick_keep(t: Track, sts: Seq<SinkStatus>) -> bool {
    match status_of(sts, t.id) {
        Option::Some(st) => !(st.drained && !t.looped),
        Option::None => true,
    }
}

/// A tick refreshes a kept track's position: to the report, or to the
/// top when a looped sink drained.
pub open spec fn tick_map(t: Track, sts: Seq<SinkStatus>) -> Track {
    match status_of(sts, t.id) {
        Option::Some(st) => if st.drained {
            with_position(t, 0)
        } else {
            with_position(t, st.position_ms)
        },
        Option::None => t,
    }
}

/// Tracks after a tick.
pub open spec fn spec_tick(ts: Seq<Track>, sts: Seq<SinkStatus>) -> Seq<Track>
    decreases ts.len(),
{
    if ts.len() == 0 {
        ts
    } else {
        let rest = spec_tick(ts.drop_last(), sts);
        if tick_keep(ts.last(), sts) {
            rest.push(tick_map(ts.last(), sts))
        } else {
            rest
        }
    }
}

/// Ids a tick restarts: looped tracks whose sinks drained.
pub open spec fn spec_tick_restarted(ts: Seq<Track>, sts: Seq<SinkStatus>) -> Seq<u32>
    decreases ts.len(),
{
    if ts.len() == 0 {
        Seq::empty()
    } else {
        let rest = spec_tick_restarted(ts.drop_last(), sts);
        if status_of(sts, ts.last().id) matches Some(st) && st.drained && ts.last().looped {
            rest.push(ts.last().id)
        } else {
            rest
        }
    }
}

/// Ids a tick reaps: unlooped tracks whose sinks drained.
pub open spec fn spec_tick_removed(ts: Seq<Track>, sts: Seq<SinkStatus>) -> Seq<u32>
    decreases ts.len(),
{
    if ts.len() == 0 {
        Seq::empty()
    } else {
        let rest = spec_tick_removed(ts.drop_last(), sts);
        if status_of(sts, ts.last().id) matches Some(st) && st.drained && !ts.last().looped {
            rest.push(ts.last().id)
        } else {
            rest
        }
    }
}

/// A fresh track as `play` creates it.
pub open spec fn is_fresh_track(
    t: Track,
    id: u32,
    path: Seq<char>,
    duration_ms: Option<u64>,
    seekable: bool,
) -> bool {
    &&& t.id == id
    &&& t.path@ == path
    &&& t.duration_ms == duration_ms
    &&& t.volume == MAX_VOLUME
    &&& !t.looped
    &&& !t.paused
    &&& t.position_ms == 0
    &&& t.seekable == seekable
}

pub open spec fn all_paused(ts: Seq<Track>) -> bool {
    forall|i: int| 0 <= i < ts.len() ==> (#[trigger] ts[i]).paused
}

pub open spec fn some_active(ts: Seq<Track>) -> bool {
    exists|i: int| 0 <= i < ts.len() && !(#[trigger] ts[i]).paused
}

/// The derived player state: `Stopped` on an empty track set, `Playing`
/// when some track is not paused, `Paused` when all are.
pub open spec fn spec_state(ts: Seq<Track>) -> PlayerState {
    if ts.len() == 0 {
        PlayerState::Stopped
    } else if some_active(ts) {
        PlayerState::Playing
    } else {
        PlayerState::Paused
    }
}

/// Effective sink gain: master times per-track, in 1/1000 units.
pub open spec fn effective_gain(master: u32, vol: u32) -> u32
    recommends
        master <= MAX_VOLUME,
        vol <= MAX_VOLUME,
{
    ((master * vol) / 1000) as u32
}

/// Track lists are well-formed: ids strictly increase and stay under
/// `next_id`, volumes stay in range.
pub open spec fn tracks_wf(ts: Seq<Track>, next_id: u32) -> bool {
    &&& forall|i: int| 0 <= i < ts.len() ==> (#[trigger] ts[i]).id < next_id
    &&& forall|i: int, j: int| 0 <= i < j < ts.len() ==> ts[i].id < ts[j].id
    &&& forall|i: int| 0 <= i < ts.len() ==> (#[trigger] ts[i]).volume <= MAX_VOLUME
}

impl Engine {
    /// The engine's invariant, established by [`Engine::new`] and kept
    /// by every operation.
    pub open spec fn wf(&self) -> bool {
        &&& self.next_id >= 1
        &&& tracks_wf(self.tracks@, self.next_id)
        &&& self.master_volume <= MAX_VOLUME
    }

    /// A fresh engine: no tracks, first id 1, full master volume, no
    /// selected input.
    pub fn new() -> (r: Engine)
        ensures
            r.wf(),
            r.tracks@.len() == 0,
            r.next_id == 1,
            r.master_volume == MAX_VOLUME,
            r.current_input_name is None,
    {
        Engine { tracks: Vec::new(), next_id: 1, master_volume: MAX_VOLUME, current_input_name: None }
    }

    /// Index of the track carrying `id`, if it is live.
    fn find_track(&self, id: u32) -> (r: Option<usize>)
        ensures
            match r {
                Some(i) => i < self.tracks@.len() && self.tracks@[i as int].id == id,
                None => !has_track(self.tracks@, id),
            },
    {
        let mut i: usize = 0;
        while i < self.tracks.len()
            invariant
                i <= self.tracks@.len(),
                forall|k: int| 0 <= k < i ==> (#[trigger] self.tracks@[k]).id != id,
            decreases self.tracks@.len() - i,
        {
            if self.tracks[i].id == id {
                return Some(i);
            }
            i += 1;
        }
        None
    }

    /// The derived player state, as §`spec_state` gives it.
    pub fn get_state(&self) -> (r: PlayerState)
        ensures
            r == spec_state(self.tracks@),
    {
        if self.tracks.len() == 0 {
            return PlayerState::Stopped;
        }
        let mut i: usize = 0;
        while i < self.tracks.len()
            invariant
                i <= self.tracks@.len(),
                forall|k: int| 0 <= k < i ==> (#[trigger] self.tracks@[k]).paused,
            decreases self.tracks@.len() - i,
        {
            if !self.tracks[i].paused {
                return PlayerState::Playing;
            }
            i += 1;
        }
        assert(!some_active(self.tracks@));
        PlayerState::Paused
    }

    /// Whether playback as a whole counts as paused: some tracks are
    /// live and every one of them is paused.
    pub fn is_paused(&self) -> (r: bool)
        ensures
            r == (spec_state(self.tracks@) == PlayerState::Paused),
    {
        let st = self.get_state();
        match st {
            PlayerState::Paused => true,
            _ => false,
        }
    }

    /// Pause the scoped tracks.  Pausing a paused track changes
    /// nothing; naming an unknown id is refused and changes nothing.
    pub fn pause(&mut self, scope: Option<u32>) -> (r: Result<(), EngineError>)
        requires
            old(self).wf(),
        ensures
            final(self).wf(),
            final(self).next_id == old(self).next_id,
            final(self).master_volume == old(self).master_volume,
            final(self).current_input_name == old(self).current_input_name,
            match r {
                Ok(()) => (scope matches Some(id) ==> has_track(old(self).tracks@, id)) && final(self).tracks@ == spec_set_paused(old(self).tracks@, scope, true),
                Err(e) => e == EngineError::TrackNotFound && (scope matches Some(id)
                    && !has_track(old(self).tracks@, id)) && final(self).tracks@ == old(self).tracks@,
            },
    {
        self.set_paused_in_scope(scope, true)
    }

    /// Resume the scoped tracks; the converse of [`Engine::pause`].
    pub fn resume(&mut self, scope: Option<u32>) -> (r: Result<(), EngineError>)
        requires
            old(self).wf(),
        ensures
            final(self).wf(),
            final(self).next_id == old(self).next_id,
            final(self).master_volume == old(self).master_volume,
            final(self).current_input_name == old(self).current_input_name,
            match r {
                Ok(()) => (scope matches Some(id) ==> has_track(old(self).tracks@, id)) && final(self).tracks@ == spec_set_paused(old(self).tracks@, scope, false),
                Err(e) => e == EngineError::TrackNotFound && (scope matches Some(id)
                    && !has_track(old(self).tracks@, id)) && final(self).tracks@ == old(self).tracks@,
            },
    {
        self.set_paused_in_scope(scope, false)
    }

    fn set_paused_in_scope(&mut self, scope: Option<u32>, b: bool) -> (r: Result<
        (),
        EngineError,
    >)
        requires
            old(self).wf(),
        ensures
            final(self).wf(),
            final(self).next_id == old(self).next_id,
            final(self).master_volume == old(self).master_volume,
            final(self).current_input_name == old(self).current_input_name,
            match r {
                Ok(()) => (scope matches Some(id) ==> has_track(old(self).tracks@, id)) && final(self).tracks@ == spec_set_paused(old(self).tracks@, scope, b),
                Err(e) => e == EngineError::TrackNotFound && (scope matches Some(id)
                    && !has_track(old(self).tracks@, id)) && final(self).tracks@ == old(self).tracks@,
            },
    {
        let ghost orig = self.tracks@;
        let ghost target = spec_set_paused(orig, scope, b);
        if let Some(id) = scope {
            if self.find_track(id).is_none() {
                return Err(EngineError::TrackNotFound);
            }
        }
        let mut i: usize = 0;
        while i < self.tracks.len()
            invariant
                i <= self.tracks@.len(),
                self.tracks@.len() == orig.len(),
                target == spec_set_paused(orig, scope, b),
                forall|k: int| 0 <= k < i ==> self.tracks@[k] == target[k],
                forall|k: int| i <= k < orig.len() ==> self.tracks@[k] == orig[k],
                self.next_id == old(self).next_id,
                self.master_volume == old(self).master_volume,
                self.current_input_name == old(self).current_input_name,
            decreases self.tracks@.len() - i,
        {
            let sel = match scope {
                Some(id) => self.tracks[i].id == id,
                None => true,
            };
            if sel {
                self.tracks[i].paused = b;
            }
            i += 1;
        }
        assert(self.tracks@ =~= target);
        assert(self.wf()) by {
            assert(forall|k: int|
                0 <= k < target.len() ==> (#[trigger] target[k]).id == orig[k].id && target[k].volume
                    == orig[k].volume);
        }
        Ok(())
    }

    /// Toggle pausing.  Without an id the whole engine flips: if every
    /// live track is paused they all resume, else they all pause.  With
    /// an id that one track flips, or the call is refused.
    pub fn toggle_pause(&mut self, scope: Option<u32>) -> (r: Result<(), EngineError>)
        requires
            old(self).wf(),
        ensures
            final(self).wf(),
            final(self).next_id == old(self).next_id,
            final(self).master_volume == old(self).master_volume,
            final(self).current_input_name == old(self).current_input_name,
            match r {
                Ok(()) => match scope {
                    Option::None => final(self).tracks@ == spec_set_paused(
                        old(self).tracks@,
                        Option::None,
                        spec_state(old(self).tracks@) != PlayerState::Paused,
                    ),
                    Option::Some(id) => has_track(old(self).tracks@, id) && final(self).tracks@
                        == spec_toggle_track(old(self).tracks@, id),
                },
                Err(e) => e == EngineError::TrackNotFound && (scope matches Some(id)
                    && !has_track(old(self).tracks@, id)) && final(self).tracks@ == old(self).tracks@,
            },
    {
        match scope {
            None => {
                let paused = self.is_paused();
                self.set_paused_in_scope(None, !paused)
            },
            Some(id) => {
                let i = match self.find_track(id) {
                    Some(i) => i,
                    None => {
                        return Err(EngineError::TrackNotFound);
                    },
                };
                let ghost orig = self.tracks@;
                let was = self.tracks[i].paused;
                self.tracks[i].paused = !was;
                proof {
                    let target = orig.map_values(
                        |t: Track|
                            if t.id == id {
                                with_paused(t, !t.paused)
                            } else {
                                t
                            },
                    );
                    assert(forall|k: int|
                        0 <= k < orig.len() && k != i ==> orig[k].id != id) by {
                        assert(forall|k: int, j: int|
                            0 <= k < j < orig.len() ==> orig[k].id < orig[j].id);
                    }
                    assert(self.tracks@ =~= target);
                    assert(forall|k: int|
                        0 <= k < target.len() ==> (#[trigger] target[k]).id == orig[k].id
                            && target[k].volume == orig[k].volume);
                }
                Ok(())
            },
        }
    }

    /// Set or clear looping on the scoped tracks.
    pub fn set_loop(&mut self, enabled: bool, scope: Option<u32>) -> (r: Result<
        (),
        EngineError,
    >)
        requires
            old(self).wf(),
        ensures
            final(self).wf(),
            final(self).next_id == old(self).next_id,
            final(self).master_volume == old(self).master_volume,
            final(self).current_input_name == old(self).current_input_name,
            match r {
                Ok(()) => (scope matches Some(id) ==> has_track(old(self).tracks@, id)) && final(self).tracks@ == spec_set_looped(old(self).tracks@, scope, enabled),
                Err(e) => e == EngineError::TrackNotFound && (scope matches Some(id)
                    && !has_track(old(self).tracks@, id)) && final(self).tracks@ == old(self).tracks@,
            },
    {
        let ghost orig = self.tracks@;
        let ghost target = spec_set_looped(orig, scope, enabled);
        if let Some(id) = scope {
            if self.find_track(id).is_none() {
                return Err(EngineError::TrackNotFound);
            }
        }
        let mut i: usize = 0;
        while i < self.tracks.len()
            invariant
                i <= self.tracks@.len(),
                self.tracks@.len() == orig.len(),
                target == spec_set_looped(orig, scope, enabled),
                forall|k: int| 0 <= k < i ==> self.tracks@[k] == target[k],
                forall|k: int| i <= k < orig.len() ==> self.tracks@[k] == orig[k],
                self.next_id == old(self).next_id,
                self.master_volume == old(self).master_volume,
                self.current_input_name == old(self).current_input_name,
            decreases self.tracks@.len() - i,
        {
            let sel = match scope {
                Some(id) => self.tracks[i].id == id,
                None => true,
            };
            if sel {
                self.tracks[i].looped = enabled;
            }
            i += 1;
        }
        assert(self.tracks@ =~= target);
        assert(self.wf()) by {
            assert(forall|k: int|
                0 <= k < target.len() ==> (#[trigger] target[k]).id == orig[k].id && target[k].volume
                    == orig[k].volume);
        }
        Ok(())
    }

    /// Flip looping on the scoped tracks, each on its own.
    pub fn toggle_loop(&mut self, scope: Option<u32>) -> (r: Result<(), EngineError>)
        requires
            old(self).wf(),
        ensures
            final(self).wf(),
            final(self).next_id == old(self).next_id,
            final(self).master_volume == old(self).master_volume,
            final(self).current_input_name == old(self).current_input_name,
            match r {
                Ok(()) => (scope matches Some(id) ==> has_track(old(self).tracks@, id)) && final(self).tracks@ == spec_toggle_looped(old(self).tracks@, scope),
                Err(e) => e == EngineError::TrackNotFound && (scope matches Some(id)
                    && !has_track(old(self).tracks@, id)) && final(self).tracks@ == old(self).tracks@,
            },
    {
        let ghost orig = self.tracks@;
        let ghost target = spec_toggle_looped(orig, scope);
        if let Some(id) = scope {
            if self.find_track(id).is_none() {
                return Err(EngineError::TrackNotFound);
            }
        }
        let mut i: usize = 0;
        while i < self.tracks.len()
            invariant
                i <= self.tracks@.len(),
                self.tracks@.len() == orig.len(),
                target == spec_toggle_looped(orig, scope),
                forall|k: int| 0 <= k < i ==> self.tracks@[k] == target[k],
                forall|k: int| i <= k < orig.len() ==> self.tracks@[k] == orig[k],
                self.next_id == old(self).next_id,
                self.master_volume == old(self).master_volume,
                self.current_input_name == old(self).current_input_name,
            decreases self.tracks@.len() - i,
        {
            let sel = match scope {
                Some(id) => self.tracks[i].id == id,
                None => true,
            };
            if sel {
                let was = self.tracks[i].looped;
                self.tracks[i].looped = !was;
            }
            i += 1;
        }
        assert(self.tracks@ =~= target);
        assert(self.wf()) by {
            assert(forall|k: int|
                0 <= k < target.len() ==> (#[trigger] target[k]).id == orig[k].id && target[k].volume
                    == orig[k].volume);
        }
        Ok(())
    }

    /// Stop the scoped tracks: they leave the engine, and the ids come
    /// back so their sinks can be dropped.
    pub fn stop(&mut self, scope: Option<u32>) -> (r: Result<Vec<u32>, EngineError>)
        requires
            old(self).wf(),
        ensures
            final(self).wf(),
            final(self).next_id == old(self).next_id,
            final(self).master_volume == old(self).master_volume,
            final(self).current_input_name == old(self).current_input_name,
            match r {
                Ok(removed) => (scope matches Some(id) ==> has_track(old(self).tracks@, id))
                    && final(self).tracks@ == spec_remove_scope(old(self).tracks@, scope)
                    && removed@ == spec_removed_ids(old(self).tracks@, scope),
                Err(e) => e == EngineError::TrackNotFound && (scope matches Some(id)
                    && !has_track(old(self).tracks@, id)) && final(self).tracks@ == old(self).tracks@,
            },
    {
        if let Some(id) = scope {
            if self.find_track(id).is_none() {
                return Err(EngineError::TrackNotFound);
            }
        }
        let ghost orig = self.tracks@;
        let mut drained: Vec<Track> = Vec::new();
        core::mem::swap(&mut self.tracks, &mut drained);
        let mut kept: Vec<Track> = Vec::new();
        let mut removed: Vec<u32> = Vec::new();
        let ghost k: int = 0;
        proof {
            assert(orig.take(0) =~= Seq::<Track>::empty());
        }
        while drained.len() > 0
            invariant
                drained@ =~= orig.skip(k),
                0 <= k <= orig.len(),
                kept@ == spec_remove_scope(orig.take(k), scope),
                removed@ == spec_removed_ids(orig.take(k), scope),
            decreases drained@.len(),
        {
            let t = drained.remove(0);
            assert(t == orig[k]);
            assert(drained@ =~= orig.skip(k + 1));
            let hit = match scope {
                Some(id) => t.id == id,
                None => true,
            };
            proof {
                assert(orig.take(k + 1).drop_last() =~= orig.take(k));
                assert(orig.take(k + 1).last() == orig[k]);
            }
            if hit {
                removed.push(t.id);
            } else {
                kept.push(t);
            }
            proof {
                k = k + 1;
            }
        }
        assert(orig.take(k) =~= orig);
        self.tracks = kept;
        proof {
            lemma_remove_scope_wf(orig, scope, old(self).next_id);
        }
        Ok(removed)
    }

    /// Move the scoped seekable tracks to the clamped position, and
    /// report each landing so the sinks can follow.  Tracks whose
    /// decoder refuses seeking stay put and are reported through
    /// `all_supported`.
    pub fn seek(&mut self, position_ms: u64, scope: Option<u32>) -> (r: Result<
        SeekOutcome,
        EngineError,
    >)
        requires
            old(self).wf(),
        ensures
            final(self).wf(),
            final(self).next_id == old(self).next_id,
            final(self).master_volume == old(self).master_volume,
            final(self).current_input_name == old(self).current_input_name,
            match r {
                Ok(out) => (scope matches Some(id) ==> has_track(old(self).tracks@, id)) && final(self).tracks@ == spec_seek(old(self).tracks@, scope, position_ms) && out.applied@
                    == spec_seek_applied(old(self).tracks@, scope, position_ms)
                    && out.all_supported == spec_all_seekable(old(self).tracks@, scope),
                Err(e) => e == EngineError::TrackNotFound && (scope matches Some(id)
                    && !has_track(old(self).tracks@, id)) && final(self).tracks@ == old(self).tracks@,
            },
    {
        if let Some(id) = scope {
            if self.find_track(id).is_none() {
                return Err(EngineError::TrackNotFound);
            }
        }
        let ghost orig = self.tracks@;
        let ghost target = spec_seek(orig, scope, position_ms);
        let mut applied: Vec<(u32, u64)> = Vec::new();
        let mut all_supported: bool = true;
        proof {
            assert(orig.take(0) =~= Seq::<Track>::empty());
        }
        let mut i: usize = 0;
        while i < self.tracks.len()
            invariant
                i <= self.tracks@.len(),
                self.tracks@.len() == orig.len(),
                target == spec_seek(orig, scope, position_ms),
                forall|k: int| 0 <= k < i ==> self.tracks@[k] == target[k],
                forall|k: int| i <= k < orig.len() ==> self.tracks@[k] == orig[k],
                applied@ == spec_seek_applied(orig.take(i as int), scope, position_ms),
                all_supported == spec_all_seekable(orig.take(i as int), scope),
                self.next_id == old(self).next_id,
                self.master_volume == old(self).master_volume,
                self.current_input_name == old(self).current_input_name,
            decreases self.tracks@.len() - i,
        {
            let hit = match scope {
                Some(id) => self.tracks[i].id == id,
                None => true,
            };
            proof {
                assert(orig.take(i + 1).drop_last() =~= orig.take(i as int));
                assert(orig.take(i + 1).last() == orig[i as int]);
            }
            if hit {
                if self.tracks[i].seekable {
                    let pos = match self.tracks[i].duration_ms {
                        Some(d) => if position_ms > d {
                            d
                        } else {
                            position_ms
                        },
                        None => position_ms,
                    };
                    self.tracks[i].position_ms = pos;
                    applied.push((self.tracks[i].id, pos));
                } else {
                    all_supported = false;
                }
            }
            proof {
                assert(forall|k: int|
                    0 <= k < i + 1 && in_scope((#[trigger] orig.take(i + 1)[k]).id, scope)
                        ==> orig.take(i + 1)[k] == orig[k]);
            }
            i += 1;
        }
        assert(orig.take(orig.len() as int) =~= orig);
        assert(self.tracks@ =~= target);
        assert(self.wf()) by {
            assert(forall|k: int|
                0 <= k < target.len() ==> (#[trigger] target[k]).id == orig[k].id && target[k].volume
                    == orig[k].volume);
        }
        Ok(SeekOutcome { applied, all_supported })
    }

    /// Set the scoped volume, clamped to the scale.  Without an id the
    /// master gain changes; with one, that track's own gain.  Either
    /// way the new effective gain of every affected sink comes back.
    pub fn set_volume(&mut self, volume: u32, scope: Option<u32>) -> (r: Result<
        Vec<(u32, u32)>,
        EngineError,
    >)
        requires
            old(self).wf(),
        ensures
            final(self).wf(),
            final(self).next_id == old(self).next_id,
            final(self).current_input_name == old(self).current_input_name,
            match r {
                Ok(gains) => match scope {
                    Option::None => {
                        &&& final(self).master_volume == clamp_volume(volume)
                        &&& final(self).tracks@ == old(self).tracks@
                        &&& gains@ == spec_master_gains(old(self).tracks@, clamp_volume(volume))
                    },
                    Option::Some(id) => {
                        &&& has_track(old(self).tracks@, id)
                        &&& final(self).master_volume == old(self).master_volume
                        &&& final(self).tracks@ == spec_set_track_volume(
                            old(self).tracks@,
                            id,
                            volume,
                        )
                        &&& gains@ == seq![
                            (id, effective_gain(old(self).master_volume, clamp_volume(volume))),
                        ]
                    },
                },
                Err(e) => e == EngineError::TrackNotFound && (scope matches Some(id)
                    && !has_track(old(self).tracks@, id)) && final(self).tracks@ == old(self).tracks@ && final(self).master_volume == old(self).master_volume,
            },
    {
        let v = if volume > MAX_VOLUME {
            MAX_VOLUME
        } else {
            volume
        };
        match scope {
            None => {
                let ghost orig = self.tracks@;
                self.master_volume = v;
                let mut gains: Vec<(u32, u32)> = Vec::new();
                let ghost gmap = orig.map_values(
                    |t: Track| (t.id, effective_gain(clamp_volume(volume), t.volume)),
                );
                let mut i: usize = 0;
                while i < self.tracks.len()
                    invariant
                        i <= self.tracks@.len(),
                        self.tracks@ == orig,
                        self.master_volume == v,
                        v == clamp_volume(volume),
                        self.wf(),
                        gmap == orig.map_values(
                            |t: Track| (t.id, effective_gain(clamp_volume(volume), t.volume)),
                        ),
                        gains@ =~= gmap.take(i as int),
                        self.next_id == old(self).next_id,
                        self.current_input_name == old(self).current_input_name,
                    decreases self.tracks@.len() - i,
                {
                    let t_vol = self.tracks[i].volume;
                    assert(t_vol <= MAX_VOLUME);
                    assert(v * t_vol <= 1000000) by (nonlinear_arith)
                        requires
                            v <= 1000 && t_vol <= 1000,
                    ;
                    gains.push((self.tracks[i].id, (v * t_vol) / 1000));
                    assert(gains@ =~= gmap.take(i + 1));
                    i += 1;
                }
                assert(gains@ =~= gmap);
                Ok(gains)
            },
            Some(id) => {
                let i = match self.find_track(id) {
                    Some(i) => i,
                    None => {
                        return Err(EngineError::TrackNotFound);
                    },
                };
                let ghost orig = self.tracks@;
                self.tracks[i].volume = v;
                let mut gains: Vec<(u32, u32)> = Vec::new();
                let m = self.master_volume;
                assert(m <= MAX_VOLUME);
                assert(m * v <= 1000000) by (nonlinear_arith)
                    requires
                        m <= 1000 && v <= 1000,
                ;
                gains.push((id, (m * v) / 1000));
                proof {
                    let target = orig.map_values(
                        |t: Track|
                            if t.id == id {
                                with_volume(t, clamp_volume(volume))
                            } else {
                                t
                            },
                    );
                    assert(forall|k: int|
                        0 <= k < orig.len() && k != i ==> orig[k].id != id) by {
                        assert(forall|k: int, j: int|
                            0 <= k < j < orig.len() ==> orig[k].id < orig[j].id);
                    }
                    assert(self.tracks@ =~= target);
                    assert(gains@ =~= seq![
                        (id, effective_gain(old(self).master_volume, clamp_volume(volume))),
                    ]);
                    assert(forall|k: int|
                        0 <= k < target.len() ==> (#[trigger] target[k]).id == orig[k].id
                            && target[k].volume <= MAX_VOLUME);
                }
                Ok(gains)
            },
        }
    }

    /// The master gain, in 1/1000 units.
    pub fn get_volume(&self) -> (r: u32)
        ensures
            r == self.master_volume,
    {
        self.master_volume
    }

    /// Every live sink's effective gain: master times per-track.
    pub fn sink_gains(&self) -> (r: Vec<(u32, u32)>)
        requires
            self.wf(),
        ensures
            r@ == spec_master_gains(self.tracks@, self.master_volume),
    {
        let ghost gmap = self.tracks@.map_values(
            |t: Track| (t.id, effective_gain(self.master_volume, t.volume)),
        );
        let mut gains: Vec<(u32, u32)> = Vec::new();
        let mut i: usize = 0;
        while i < self.tracks.len()
            invariant
                i <= self.tracks@.len(),
                self.wf(),
                gmap == self.tracks@.map_values(
                    |t: Track| (t.id, effective_gain(self.master_volume, t.volume)),
                ),
                gains@ =~= gmap.take(i as int),
            decreases self.tracks@.len() - i,
        {
            let t_vol = self.tracks[i].volume;
            let m = self.master_volume;
            assert(t_vol <= MAX_VOLUME && m <= MAX_VOLUME);
            assert(m * t_vol <= 1000000) by (nonlinear_arith)
                requires
                    m <= 1000 && t_vol <= 1000,
            ;
            gains.push((self.tracks[i].id, (m * t_vol) / 1000));
            assert(gains@ =~= gmap.take(i + 1));
            i += 1;
        }
        assert(gains@ =~= gmap);
        gains
    }

    /// Playback position of the named track, or of the newest track,
    /// in milliseconds; zero when nothing plays.
    pub fn get_position(&self, scope: Option<u32>) -> (r: Result<u64, EngineError>)
        ensures
            match scope {
                Option::Some(id) => match r {
                    Ok(p) => exists|i: int|
                        0 <= i < self.tracks@.len() && (#[trigger] self.tracks@[i]).id == id
                            && self.tracks@[i].position_ms == p,
                    Err(e) => e == EngineError::TrackNotFound && !has_track(self.tracks@, id),
                },
                Option::None => r == Ok::<u64, EngineError>(
                    if self.tracks@.len() == 0 {
                        0u64
                    } else {
                        self.tracks@.last().position_ms
                    },
                ),
            },
    {
        match scope {
            Some(id) => match self.find_track(id) {
                Some(i) => Ok(self.tracks[i].position_ms),
                None => Err(EngineError::TrackNotFound),
            },
            None => {
                if self.tracks.len() == 0 {
                    Ok(0)
                } else {
                    Ok(self.tracks[self.tracks.len() - 1].position_ms)
                }
            },
        }
    }

    /// Duration of the named track, or of the newest track, in
    /// milliseconds.  Unknown durations and an empty engine are
    /// reported apart.
    pub fn get_duration(&self, scope: Option<u32>) -> (r: Result<u64, EngineError>)
        ensures
            match scope {
                Option::Some(id) => match r {
                    Ok(d) => exists|i: int|
                        0 <= i < self.tracks@.len() && (#[trigger] self.tracks@[i]).id == id
                            && self.tracks@[i].duration_ms == Some(d),
                    Err(e) => (e == EngineError::TrackNotFound && !has_track(self.tracks@, id)) || (
                    e == EngineError::DurationUnknown && exists|i: int|
                        0 <= i < self.tracks@.len() && (#[trigger] self.tracks@[i]).id == id
                            && self.tracks@[i].duration_ms is None),
                },
                Option::None => {
                    if self.tracks@.len() == 0 {
                        r == Err::<u64, EngineError>(EngineError::NoTrack)
                    } else {
                        match self.tracks@.last().duration_ms {
                            Option::Some(d) => r == Ok::<u64, EngineError>(d),
                            Option::None => r == Err::<u64, EngineError>(
                                EngineError::DurationUnknown,
                            ),
                        }
                    }
                },
            },
    {
        match scope {
            Some(id) => match self.find_track(id) {
                Some(i) => match self.tracks[i].duration_ms {
                    Some(d) => Ok(d),
                    None => Err(EngineError::DurationUnknown),
                },
                None => Err(EngineError::TrackNotFound),
            },
            None => {
                if self.tracks.len() == 0 {
                    Err(EngineError::NoTrack)
                } else {
                    match self.tracks[self.tracks.len() - 1].duration_ms {
                        Some(d) => Ok(d),
                        None => Err(EngineError::DurationUnknown),
                    }
                }
            },
        }
    }

    /// The live tracks, in id order.
    pub fn get_tracks(&self) -> (r: &Vec<Track>)
        ensures
            r@ == self.tracks@,
    {
        &self.tracks
    }

    /// Path of the newest live track, if any.
    pub fn get_current_file_path(&self) -> (r: Option<String>)
        ensures
            match r {
                Some(p) => self.tracks@.len() > 0 && p@ == self.tracks@.last().path@,
                None => self.tracks@.len() == 0,
            },
    {
        if self.tracks.len() == 0 {
            None
        } else {
            Some(self.tracks[self.tracks.len() - 1].path.clone())
        }
    }

    /// Start a new track from a probed media file.  A failed probe
    /// changes nothing; a successful one issues the next id.  Without
    /// `concurrent` every running track is replaced first: the caller
    /// drops their sinks.
    pub fn play(&mut self, path: &str, concurrent: bool, probe: &MediaProbe) -> (r: Result<
        u32,
        EngineError,
    >)
        requires
            old(self).wf(),
            old(self).next_id < u32::MAX,
        ensures
            final(self).wf(),
            final(self).master_volume == old(self).master_volume,
            final(self).current_input_name == old(self).current_input_name,
            match *probe {
                MediaProbe::Missing => r == Err::<u32, EngineError>(EngineError::FileMissing)
                    && final(self).tracks@ == old(self).tracks@ && final(self).next_id == old(self).next_id,
                MediaProbe::Unreadable => r == Err::<u32, EngineError>(EngineError::DecodeFailed)
                    && final(self).tracks@ == old(self).tracks@ && final(self).next_id == old(self).next_id,
                MediaProbe::Decoded { duration_ms, seekable } => {
                    &&& r == Ok::<u32, EngineError>(old(self).next_id)
                    &&& final(self).next_id == old(self).next_id + 1
                    &&& final(self).tracks@.len() > 0
                    &&& final(self).tracks@.drop_last() == (if concurrent {
                        old(self).tracks@
                    } else {
                        Seq::<Track>::empty()
                    })
                    &&& is_fresh_track(
                        final(self).tracks@.last(),
                        old(self).next_id,
                        path@,
                        duration_ms,
                        seekable,
                    )
                },
            },
    {
        let (duration_ms, seekable) = match probe {
            MediaProbe::Missing => {
                return Err(EngineError::FileMissing);
            },
            MediaProbe::Unreadable => {
                return Err(EngineError::DecodeFailed);
            },
            MediaProbe::Decoded { duration_ms, seekable } => (*duration_ms, *seekable),
        };
        if !concurrent {
            self.tracks.clear();
        }
        let id = self.next_id;
        self.next_id = self.next_id + 1;
        let track = Track {
            id,
            path: String::from_str(path),
            duration_ms,
            volume: MAX_VOLUME,
            looped: false,
            paused: false,
            position_ms: 0,
            seekable,
        };
        self.tracks.push(track);
        assert(self.tracks@.drop_last() =~= (if concurrent {
            old(self).tracks@
        } else {
            Seq::<Track>::empty()
        }));
        assert(self.wf()) by {
            assert(forall|k: int|
                0 <= k < self.tracks@.len() - 1 ==> #[trigger] self.tracks@[k].id < id);
        }
        Ok(id)
    }

    /// Apply one tick's sink reports: refresh positions, restart looped
    /// tracks whose sinks drained, and reap the drained rest.
    pub fn update(&mut self, status: &Vec<SinkStatus>) -> (r: TickOutcome)
        requires
            old(self).wf(),
        ensures
            final(self).wf(),
            final(self).next_id == old(self).next_id,
            final(self).master_volume == old(self).master_volume,
            final(self).current_input_name == old(self).current_input_name,
            final(self).tracks@ == spec_tick(old(self).tracks@, status@),
            r.restarted@ == spec_tick_restarted(old(self).tracks@, status@),
            r.removed@ == spec_tick_removed(old(self).tracks@, status@),
    {
        let ghost orig = self.tracks@;
        let ghost sts = status@;
        let mut drained: Vec<Track> = Vec::new();
        core::mem::swap(&mut self.tracks, &mut drained);
        let mut kept: Vec<Track> = Vec::new();
        let mut restarted: Vec<u32> = Vec::new();
        let mut removed: Vec<u32> = Vec::new();
        let ghost k: int = 0;
        proof {
            assert(orig.take(0) =~= Seq::<Track>::empty());
        }
        while drained.len() > 0
            invariant
                drained@ =~= orig.skip(k),
                0 <= k <= orig.len(),
                sts == status@,
                kept@ == spec_tick(orig.take(k), sts),
                restarted@ == spec_tick_restarted(orig.take(k), sts),
                removed@ == spec_tick_removed(orig.take(k), sts),
            decreases drained@.len(),
        {
            let mut t = drained.remove(0);
            assert(t == orig[k]);
            assert(drained@ =~= orig.skip(k + 1));
            proof {
                assert(orig.take(k + 1).drop_last() =~= orig.take(k));
                assert(orig.take(k + 1).last() == orig[k]);
            }
            match find_status(status, t.id) {
                Some(st) => {
                    if st.drained {
                        if t.looped {
                            restarted.push(t.id);
                            t.position_ms = 0;
                            kept.push(t);
                        } else {
                            removed.push(t.id);
                        }
                    } else {
                        t.position_ms = st.position_ms;
                        kept.push(t);
                    }
                },
                None => {
                    kept.push(t);
                },
            }
            proof {
                k = k + 1;
            }
        }
        assert(orig.take(k) =~= orig);
        self.tracks = kept;
        proof {
            lemma_tick_wf(orig, sts, old(self).next_id);
        }
        TickOutcome { restarted, removed }
    }

    /// Select the named capture device, from the devices seen in the
    /// most recent enumeration; `None` stands for a failed enumeration.
    /// Only a device announced as a capture source is accepted.
    pub fn set_current_input(
        &mut self,
        name: &str,
        devices: &Option<Vec<graph::AudioDevice>>,
    ) -> (r: Result<(), EngineError>)
        requires
            old(self).wf(),
        ensures
            final(self).wf(),
            final(self).next_id == old(self).next_id,
            final(self).master_volume == old(self).master_volume,
            final(self).tracks@ == old(self).tracks@,
            match r {
                Ok(()) => {
                    &&& *devices matches Some(dv)
                    &&& graph::spec_find_by_name((devices->0)@, name@) matches Some(i)
                        && (devices->0)@[i].device_type == graph::DeviceType::Input
                    &&& final(self).current_input_name matches Some(n) && n@ == name@
                },
                Err(e) => {
                    &&& final(self).current_input_name == old(self).current_input_name
                    &&& match e {
                        EngineError::GraphUnavailable => *devices is None,
                        EngineError::DeviceNotFound => *devices matches Some(dv)
                            && graph::spec_find_by_name(dv@, name@) is None,
                        EngineError::NotAnInput => *devices matches Some(dv)
                            && graph::spec_find_by_name(dv@, name@) matches Some(i) && dv@[i].device_type
                            != graph::DeviceType::Input,
                        _ => false,
                    }
                },
            },
    {
        let dv = match devices {
            Some(dv) => dv,
            None => {
                return Err(EngineError::GraphUnavailable);
            },
        };
        let dev = match graph::find_device_by_name(dv, name) {
            Some(d) => d,
            None => {
                return Err(EngineError::DeviceNotFound);
            },
        };
        match dev.device_type {
            graph::DeviceType::Input => {},
            graph::DeviceType::Output => {
                return Err(EngineError::NotAnInput);
            },
        }
        self.current_input_name = Some(String::from_str(name));
        Ok(())
    }
}

/// What a seek did: the sink moves to apply, and whether every scoped
/// track supported it.
pub struct SeekOutcome {
    pub applied: Vec<(u32, u64)>,
    pub all_supported: bool,
}

/// Two track values with the same contents.
pub open spec fn track_like(a: Track, b: Track) -> bool {
    &&& a.id == b.id
    &&& a.path@ == b.path@
    &&& a.duration_ms == b.duration_ms
    &&& a.volume == b.volume
    &&& a.looped == b.looped
    &&& a.paused == b.paused
    &&& a.position_ms == b.position_ms
    &&& a.seekable == b.seekable
}

impl Track {
    /// A fresh track value with the same contents.
    pub fn dup(&self) -> (r: Track)
        ensures
            track_like(r, *self),
    {
        Track {
            id: self.id,
            path: self.path.clone(),
            duration_ms: self.duration_ms,
            volume: self.volume,
            looped: self.looped,
            paused: self.paused,
            position_ms: self.position_ms,
            seekable: self.seekable,
        }
    }
}

/// Everything a polling client needs in one aggregate: the derived
/// state, the tracks, the master gain, the selected input, and the
/// offered inputs as name/display-name pairs.
pub struct FullStateSnapshot {
    pub state: PlayerState,
    pub tracks: Vec<Track>,
    pub master_volume: u32,
    pub current_input_name: Option<String>,
    pub all_inputs: Vec<(String, String)>,
}

impl Engine {
    /// Snapshot the whole engine for one poll; a failed enumeration
    /// reads as no offered inputs.
    pub fn full_state(&self, devices: &Option<Vec<crate::graph::AudioDevice>>) -> (r:
        FullStateSnapshot)
        ensures
            r.state == spec_state(self.tracks@),
            r.master_volume == self.master_volume,
            r.tracks@.len() == self.tracks@.len(),
            forall|i: int|
                0 <= i < r.tracks@.len() ==> track_like(
                    #[trigger] r.tracks@[i],
                    self.tracks@[i],
                ),
            (r.current_input_name is Some) == (self.current_input_name is Some),
            r.current_input_name matches Some(n) ==> n@ == (self.current_input_name->0)@,
            crate::wire::kv_view(r.all_inputs@) == crate::render::spec_input_pairs(
                match *devices {
                    Option::Some(dv) => dv@,
                    Option::None => Seq::<crate::graph::AudioDevice>::empty(),
                },
            ),
    {
        let state = self.get_state();
        let mut tracks: Vec<Track> = Vec::new();
        let mut i: usize = 0;
        while i < self.tracks.len()
            invariant
                i <= self.tracks@.len(),
                tracks@.len() == i,
                forall|k: int|
                    0 <= k < i ==> track_like(#[trigger] tracks@[k], self.tracks@[k]),
            decreases self.tracks@.len() - i,
        {
            tracks.push(self.tracks[i].dup());
            i += 1;
        }
        let current_input_name = match &self.current_input_name {
            Some(n) => Some(n.clone()),
            None => None,
        };
        let mut all_inputs: Vec<(String, String)> = Vec::new();
        match devices {
            Some(dv) => {
                proof {
                    assert(dv@.take(0) =~= Seq::<crate::graph::AudioDevice>::empty());
                    assert(crate::wire::kv_view(all_inputs@) =~= crate::render::spec_input_pairs(
                        dv@.take(0),
                    ));
                }
                let mut k: usize = 0;
                while k < dv.len()
                    invariant
                        k <= dv@.len(),
                        crate::wire::kv_view(all_inputs@) == crate::render::spec_input_pairs(
                            dv@.take(k as int),
                        ),
                    decreases dv@.len() - k,
                {
                    proof {
                        assert(dv@.take(k + 1).drop_last() =~= dv@.take(k as int));
                        assert(dv@.take(k + 1).last() == dv@[k as int]);
                    }
                    let is_input = match dv[k].device_type {
                        crate::graph::DeviceType::Input => true,
                        crate::graph::DeviceType::Output => false,
                    };
                    let keep = is_input && !crate::text::str_eq(
                        dv[k].name.as_str(),
                        "pwsp-virtual-mic",
                    );
                    if keep {
                        all_inputs.push((dv[k].name.clone(), dv[k].nick.clone()));
                    }
                    assert(crate::wire::kv_view(all_inputs@) =~= crate::render::spec_input_pairs(
                        dv@.take(k + 1),
                    ));
                    k += 1;
                }
                assert(dv@.take(dv@.len() as int) =~= dv@);
            },
            None => {
                proof {
                    assert(crate::wire::kv_view(all_inputs@) =~= crate::render::spec_input_pairs(
                        Seq::<crate::graph::AudioDevice>::empty(),
                    ));
                }
            },
        }
        FullStateSnapshot {
            state,
            tracks,
            master_volume: self.master_volume,
            current_input_name,
            all_inputs,
        }
    }
}

// ---------------------------------------------------------------------
// Engine laws
// ---------------------------------------------------------------------

/// Issued ids are strictly increasing: `play` returns the engine's
/// `next_id` and advances it, and no operation ever lowers `next_id`,
/// so of two issued ids the later one is the greater.
pub proof fn lemma_issued_ids_strictly_increase(n0: u32, id1: u32, n1: u32, id2: u32)
    requires
        id1 == n0,
        n1 >= n0 + 1,
        id2 >= n1,
    ensures
        id2 > id1,
{
}

/// A well-formed engine never re-issues a live id: the id `play` would
/// issue next exceeds every live track's id.
pub proof fn lemma_fresh_id_exceeds_live_ids(e: Engine)
    requires
        e.wf(),
    ensures
        forall|i: int| 0 <= i < e.tracks@.len() ==> (#[trigger] e.tracks@[i]).id < e.next_id,
{
}

/// An exclusive `play` leaves exactly one track: the fresh one.
pub proof fn lemma_exclusive_play_single_track(ts: Seq<Track>)
    requires
        ts.len() > 0,
        ts.drop_last() == Seq::<Track>::empty(),
    ensures
        ts.len() == 1,
{
    assert(ts.drop_last().len() == ts.len() - 1);
}

/// Setting one track's volume is reflected exactly: in the updated
/// track list that track reports the clamped value, every other track
/// is untouched, and the new effective gain is master times that value.
pub proof fn lemma_set_volume_reported(ts: Seq<Track>, id: u32, v: u32, master: u32)
    requires
        master <= MAX_VOLUME,
    ensures
        ({
            let ts2 = ts.map_values(
                |t: Track|
                    if t.id == id {
                        with_volume(t, clamp_volume(v))
                    } else {
                        t
                    },
            );
            &&& forall|i: int|
                0 <= i < ts2.len() && (#[trigger] ts2[i]).id == id ==> ts2[i].volume
                    == clamp_volume(v)
            &&& forall|i: int|
                0 <= i < ts2.len() && (#[trigger] ts2[i]).id != id ==> ts2[i] == ts[i]
            &&& effective_gain(master, clamp_volume(v)) == (master * clamp_volume(v)) / 1000
        }),
{
    let ts2 = ts.map_values(
        |t: Track|
            if t.id == id {
                with_volume(t, clamp_volume(v))
            } else {
                t
            },
    );
    assert(forall|i: int| 0 <= i < ts2.len() ==> ts2[i] == if ts[i].id == id {
        with_volume(ts[i], clamp_volume(v))
    } else {
        ts[i]
    });
    let c = clamp_volume(v);
    assert(master * c <= 1000000) by (nonlinear_arith)
        requires
            master <= 1000 && c <= 1000,
    ;
}

/// Setting the master volume makes every sink's effective gain equal
/// the clamped master times its own per-track volume.
pub proof fn lemma_master_volume_gains(ts: Seq<Track>, v: u32)
    ensures
        ({
            let gains = ts.map_values(
                |t: Track| (t.id, effective_gain(clamp_volume(v), t.volume)),
            );
            forall|i: int|
                0 <= i < gains.len() ==> #[trigger] gains[i] == (
                    ts[i].id,
                    ((clamp_volume(v) * ts[i].volume) / 1000) as u32,
                )
        }),
{
}

/// Pausing then resuming a scope returns it to `Playing` exactly when
/// the scoped track is still live: a track that ended was reaped, its
/// id misses, and both calls refuse it.
pub proof fn lemma_pause_resume_returns_playing(ts: Seq<Track>, scope: Option<u32>)
    ensures
        ({
            let ts2 = spec_set_paused(spec_set_paused(ts, scope, true), scope, false);
            match scope {
                Option::None => spec_state(ts2) == (if ts.len() == 0 {
                    PlayerState::Stopped
                } else {
                    PlayerState::Playing
                }),
                Option::Some(id) => has_track(ts, id) ==> spec_state(ts2) == PlayerState::Playing,
            }
        }),
{
    let ts1 = spec_set_paused(ts, scope, true);
    let ts2 = spec_set_paused(ts1, scope, false);
    assert(ts2.len() == ts.len());
    match scope {
        Option::None => {
            if ts.len() > 0 {
                assert(!ts2[0].paused);
                assert(some_active(ts2));
            }
        },
        Option::Some(id) => {
            if has_track(ts, id) {
                let i = choose|i: int| 0 <= i < ts.len() && (#[trigger] ts[i]).id == id;
                assert(ts1[i] == with_paused(ts[i], true));
                assert(ts2[i] == with_paused(ts1[i], false));
                assert(!ts2[i].paused);
                assert(some_active(ts2));
            }
        },
    }
}

/// The derived state obeys the three rules: `Stopped` exactly on an
/// empty track set, `Playing` exactly when some track is not paused,
/// `Paused` exactly when tracks are live and all paused.
pub proof fn lemma_state_rules(ts: Seq<Track>)
    ensures
        (spec_state(ts) == PlayerState::Stopped) <==> ts.len() == 0,
        (spec_state(ts) == PlayerState::Playing) <==> some_active(ts),
        (spec_state(ts) == PlayerState::Paused) <==> (ts.len() > 0 && all_paused(ts)),
{
    if ts.len() == 0 {
        assert(!some_active(ts));
    } else if some_active(ts) {
        let i = choose|i: int| 0 <= i < ts.len() && !(#[trigger] ts[i]).paused;
        assert(!all_paused(ts));
    } else {
        assert forall|i: int| 0 <= i < ts.len() implies (#[trigger] ts[i]).paused by {
            if !ts[i].paused {
                assert(some_active(ts));
            }
        }
    }
}

/// First reported status of the sink carrying `id`.
fn find_status(status: &Vec<SinkStatus>, id: u32) -> (r: Option<SinkStatus>)
    ensures
        r == status_of(status@, id),
{
    let ghost sv = status@;
    let mut i: usize = 0;
    proof {
        assert(sv.skip(0) =~= sv);
    }
    while i < status.len()
        invariant
            i <= sv.len(),
            sv == status@,
            status_of(sv.skip(i as int), id) == status_of(sv, id),
        decreases sv.len() - i,
    {
        assert(sv.skip(i as int)[0] == sv[i as int]);
        if status[i].id == id {
            return Some(status[i]);
        }
        assert(sv.skip(i as int).drop_first() =~= sv.skip(i + 1));
        i += 1;
    }
    assert(sv.skip(i as int).len() == 0);
    None
}

/// Stopping keeps the track list well formed: what stays was already
/// there, in the same order.
proof fn lemma_remove_scope_wf(ts: Seq<Track>, scope: Option<u32>, next_id: u32)
    requires
        tracks_wf(ts, next_id),
    ensures
        tracks_wf(spec_remove_scope(ts, scope), next_id),
        forall|x: Track| spec_remove_scope(ts, scope).contains(x) ==> ts.contains(x),
    decreases ts.len(),
{
    if ts.len() > 0 {
        let ts2 = ts.drop_last();
        assert(tracks_wf(ts2, next_id)) by {
            assert(forall|i: int| 0 <= i < ts2.len() ==> ts2[i] == ts[i]);
        }
        lemma_remove_scope_wf(ts2, scope, next_id);
        let rest = spec_remove_scope(ts2, scope);
        assert(forall|x: Track| ts2.contains(x) ==> ts.contains(x)) by {
            assert(forall|i: int| 0 <= i < ts2.len() ==> ts2[i] == ts[i]);
        }
        if !in_scope(ts.last().id, scope) {
            let res = rest.push(ts.last());
            assert(forall|x: Track| res.contains(x) ==> ts.contains(x)) by {
                assert(ts.contains(ts.last()));
            }
            assert(tracks_wf(res, next_id)) by {
                assert(forall|i: int|
                    0 <= i < rest.len() ==> #[trigger] rest[i].id < ts.last().id) by {
                    assert(forall|i: int|
                        0 <= i < rest.len() ==> ts2.contains(#[trigger] rest[i]));
                    assert(forall|j: int|
                        0 <= j < ts2.len() ==> #[trigger] ts2[j].id < ts.last().id);
                }
            }
        }
    }
}

/// A tick keeps the track list well formed: every kept track carries
/// the id and volume of a track that was there, in the same order.
proof fn lemma_tick_wf(ts: Seq<Track>, sts: Seq<SinkStatus>, next_id: u32)
    requires
        tracks_wf(ts, next_id),
    ensures
        tracks_wf(spec_tick(ts, sts), next_id),
        forall|x: Track| spec_tick(ts, sts).contains(x) ==> exists|j: int|
            0 <= j < ts.len() && x.id == (#[trigger] ts[j]).id && x.volume == ts[j].volume,
    decreases ts.len(),
{
    if ts.len() > 0 {
        let ts2 = ts.drop_last();
        assert(tracks_wf(ts2, next_id)) by {
            assert(forall|i: int| 0 <= i < ts2.len() ==> ts2[i] == ts[i]);
        }
        lemma_tick_wf(ts2, sts, next_id);
        let rest = spec_tick(ts2, sts);
        assert(forall|x: Track|
            rest.contains(x) ==> exists|j: int|
                0 <= j < ts.len() && x.id == (#[trigger] ts[j]).id && x.volume == ts[j].volume) by {
            assert(forall|i: int| 0 <= i < ts2.len() ==> ts2[i] == ts[i]);
        }
        if tick_keep(ts.last(), sts) {
            let m = tick_map(ts.last(), sts);
            let res = rest.push(m);
            assert(m.id == ts.last().id && m.volume == ts.last().volume);
            assert forall|i: int| 0 <= i < rest.len() implies (#[trigger] rest[i]).id
                < ts.last().id by {
                assert(rest.contains(rest[i]));
                let j = choose|j: int|
                    0 <= j < ts2.len() && rest[i].id == (#[trigger] ts2[j]).id && rest[i].volume
                        == ts2[j].volume;
                assert(ts2[j] == ts[j]);
            }
            assert(tracks_wf(res, next_id));
            assert forall|x: Track| res.contains(x) implies exists|j: int|
                0 <= j < ts.len() && x.id == (#[trigger] ts[j]).id && x.volume == ts[j].volume by {
                if x == m {
                    assert(ts[ts.len() - 1] == ts.last());
                    assert(x.id == ts[ts.len() - 1].id && x.volume == ts[ts.len() - 1].volume);
                } else {
                    let idx = choose|idx: int| 0 <= idx < res.len() && res[idx] == x;
                    assert(idx < rest.len());
                    assert(rest[idx] == x);
                    assert(rest.contains(x));
                }
            }
            assert(spec_tick(ts, sts) == res);
        }
    }
}

} // verus!
