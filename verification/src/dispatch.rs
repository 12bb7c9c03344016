//! The command dispatcher.
//!
//! A decoded request is first coerced into a typed command: argument
//! text becomes ids, gains, second counts and flags, strictly, with a
//! distinct refusal for each malformed argument.  Executing a command
//! then drives one operation on the engine and renders the response,
//! together with the sink work the shell must carry out (sinks to
//! start, drop, seek or re-gain) and whether the daemon is to exit.

use vstd::prelude::*;
use vstd::string::StringExecFns;
use crate::engine::{
    Engine, EngineError, MediaProbe, PlayerState, clamp_volume, effective_gain, has_track,
    spec_all_seekable, spec_remove_scope, spec_removed_ids, spec_seek, spec_seek_applied,
    spec_set_looped, spec_set_paused, spec_state, spec_toggle_looped, MAX_VOLUME, Track,
};
use crate::graph;
use crate::render;
use crate::text;
use crate::wire::{self, Request, Response};

verus! {

/// Which argument a request got wrong.
#[derive(Clone, Copy, Debug, PartialEq, Eq, Structural)]
pub enum InvalidArg {
    Id,
    Volume,
    Position,
    FilePath,
    Concurrent,
    Enabled,
    InputName,
}

/// Mathematical shape of a command.
pub ghost enum CmdView {
    Ping,
    Pause { id: Option<u32> },
    Resume { id: Option<u32> },
    TogglePause { id: Option<u32> },
    Stop { id: Option<u32> },
    GetPosition { id: Option<u32> },
    GetDuration { id: Option<u32> },
    ToggleLoop { id: Option<u32> },
    Play { file_path: Seq<char>, concurrent: bool },
    Seek { position_ms: u64, id: Option<u32> },
    SetVolume { volume: u32, id: Option<u32> },
    SetLoop { enabled: bool, id: Option<u32> },
    IsPaused,
    GetState,
    GetVolume,
    GetTracks,
    GetCurrentFilePath,
    GetInput,
    GetInputs,
    GetFullState,
    GetDaemonVersion,
    Kill,
    SetInput { input_name: Seq<char> },
    Invalid { what: InvalidArg },
    Unknown,
}

/// One typed command, as the dispatcher routes it.
pub enum Command {
    Ping,
    Pause { id: Option<u32> },
    Resume { id: Option<u32> },
    TogglePause { id: Option<u32> },
    Stop { id: Option<u32> },
    GetPosition { id: Option<u32> },
    GetDuration { id: Option<u32> },
    ToggleLoop { id: Option<u32> },
    Play { file_path: String, concurrent: bool },
    Seek { position_ms: u64, id: Option<u32> },
    SetVolume { volume: u32, id: Option<u32> },
    SetLoop { enabled: bool, id: Option<u32> },
    IsPaused,
    GetState,
    GetVolume,
    GetTracks,
    GetCurrentFilePath,
    GetInput,
    GetInputs,
    GetFullState,
    GetDaemonVersion,
    Kill,
    SetInput { input_name: String },
    Invalid { what: InvalidArg },
    Unknown,
}

impl View for Command {
    type V = CmdView;

    open spec fn view(&self) -> CmdView {
        match self {
            Command::Ping => CmdView::Ping,
            Command::Pause { id } => CmdView::Pause { id: *id },
            Command::Resume { id } => CmdView::Resume { id: *id },
            Command::TogglePause { id } => CmdView::TogglePause { id: *id },
            Command::Stop { id } => CmdView::Stop { id: *id },
            Command::GetPosition { id } => CmdView::GetPosition { id: *id },
            Command::GetDuration { id } => CmdView::GetDuration { id: *id },
            Command::ToggleLoop { id } => CmdView::ToggleLoop { id: *id },
            Command::Play { file_path, concurrent } => CmdView::Play {
                file_path: file_path@,
                concurrent: *concurrent,
            },
            Command::Seek { position_ms, id } => CmdView::Seek {
                position_ms: *position_ms,
                id: *id,
            },
            Command::SetVolume { volume, id } => CmdView::SetVolume { volume: *volume, id: *id },
            Command::SetLoop { enabled, id } => CmdView::SetLoop { enabled: *enabled, id: *id },
            Command::IsPaused => CmdView::IsPaused,
            Command::GetState => CmdView::GetState,
            Command::GetVolume => CmdView::GetVolume,
            Command::GetTracks => CmdView::GetTracks,
            Command::GetCurrentFilePath => CmdView::GetCurrentFilePath,
            Command::GetInput => CmdView::GetInput,
            Command::GetInputs => CmdView::GetInputs,
            Command::GetFullState => CmdView::GetFullState,
            Command::GetDaemonVersion => CmdView::GetDaemonVersion,
            Command::Kill => CmdView::Kill,
            Command::SetInput { input_name } => CmdView::SetInput { input_name: input_name@ },
            Command::Invalid { what } => CmdView::Invalid { what: *what },
            Command::Unknown => CmdView::Unknown,
        }
    }
}

/// The optional `id` argument: missing means the whole engine; present
/// it must be a decimal `u32`.
pub open spec fn id_arg(args: Seq<(Seq<char>, Seq<char>)>) -> Option<Option<u32>> {
    match wire::lookup_arg(args, "id"@) {
        Option::None => Some(Option::None),
        Option::Some(s) => match text::spec_parse_u32(s) {
            Option::Some(n) => Some(Option::Some(n)),
            Option::None => None,
        },
    }
}

/// A parsed gain, clamped onto the volume scale.
pub open spec fn scaled_to_volume(s: u64) -> u32 {
    if s > MAX_VOLUME as u64 {
        MAX_VOLUME
    } else {
        s as u32
    }
}

pub open spec fn spec_parse_bool(s: Seq<char>) -> Option<bool> {
    if s == "true"@ {
        Some(true)
    } else if s == "false"@ {
        Some(false)
    } else {
        None
    }
}

/// How a request coerces into a command, name by name.
pub open spec fn spec_parse_command(rv: wire::ReqView) -> CmdView {
    if rv.name == "ping"@ {
        CmdView::Ping
    } else if rv.name == "pause"@ {
        match id_arg(rv.args) {
            Some(id) => CmdView::Pause { id },
            None => CmdView::Invalid { what: InvalidArg::Id },
        }
    } else if rv.name == "resume"@ {
        match id_arg(rv.args) {
            Some(id) => CmdView::Resume { id },
            None => CmdView::Invalid { what: InvalidArg::Id },
        }
    } else if rv.name == "toggle_pause"@ {
        match id_arg(rv.args) {
            Some(id) => CmdView::TogglePause { id },
            None => CmdView::Invalid { what: InvalidArg::Id },
        }
    } else if rv.name == "stop"@ {
        match id_arg(rv.args) {
            Some(id) => CmdView::Stop { id },
            None => CmdView::Invalid { what: InvalidArg::Id },
        }
    } else if rv.name == "get_position"@ {
        match id_arg(rv.args) {
            Some(id) => CmdView::GetPosition { id },
            None => CmdView::Invalid { what: InvalidArg::Id },
        }
    } else if rv.name == "get_duration"@ {
        match id_arg(rv.args) {
            Some(id) => CmdView::GetDuration { id },
            None => CmdView::Invalid { what: InvalidArg::Id },
        }
    } else if rv.name == "toggle_loop"@ {
        match id_arg(rv.args) {
            Some(id) => CmdView::ToggleLoop { id },
            None => CmdView::Invalid { what: InvalidArg::Id },
        }
    } else if rv.name == "play"@ {
        match wire::lookup_arg(rv.args, "file_path"@) {
            Option::None => CmdView::Invalid { what: InvalidArg::FilePath },
            Option::Some(p) => match wire::lookup_arg(rv.args, "concurrent"@) {
                Option::None => CmdView::Play { file_path: p, concurrent: false },
                Option::Some(c) => match spec_parse_bool(c) {
                    Option::Some(b) => CmdView::Play { file_path: p, concurrent: b },
                    Option::None => CmdView::Invalid { what: InvalidArg::Concurrent },
                },
            },
        }
    } else if rv.name == "seek"@ {
        match wire::lookup_arg(rv.args, "position"@) {
            Option::None => CmdView::Invalid { what: InvalidArg::Position },
            Option::Some(p) => match text::spec_parse_scaled(p) {
                Option::None => CmdView::Invalid { what: InvalidArg::Position },
                Option::Some(ms) => match id_arg(rv.args) {
                    Some(id) => CmdView::Seek { position_ms: ms, id },
                    None => CmdView::Invalid { what: InvalidArg::Id },
                },
            },
        }
    } else if rv.name == "set_volume"@ {
        match wire::lookup_arg(rv.args, "volume"@) {
            Option::None => CmdView::Invalid { what: InvalidArg::Volume },
            Option::Some(v) => match text::spec_parse_scaled(v) {
                Option::None => CmdView::Invalid { what: InvalidArg::Volume },
                Option::Some(s) => match id_arg(rv.args) {
                    Some(id) => CmdView::SetVolume { volume: scaled_to_volume(s), id },
                    None => CmdView::Invalid { what: InvalidArg::Id },
                },
            },
        }
    } else if rv.name == "set_loop"@ {
        match wire::lookup_arg(rv.args, "enabled"@) {
            Option::None => CmdView::Invalid { what: InvalidArg::Enabled },
            Option::Some(e) => match spec_parse_bool(e) {
                Option::None => CmdView::Invalid { what: InvalidArg::Enabled },
                Option::Some(b) => match id_arg(rv.args) {
                    Some(id) => CmdView::SetLoop { enabled: b, id },
                    None => CmdView::Invalid { what: InvalidArg::Id },
                },
            },
        }
    } else if rv.name == "is_paused"@ {
        CmdView::IsPaused
    } else if rv.name == "get_state"@ {
        CmdView::GetState
    } else if rv.name == "get_volume"@ {
        CmdView::GetVolume
    } else if rv.name == "get_tracks"@ {
        CmdView::GetTracks
    } else if rv.name == "get_current_file_path"@ {
        CmdView::GetCurrentFilePath
    } else if rv.name == "get_input"@ {
        CmdView::GetInput
    } else if rv.name == "get_inputs"@ {
        CmdView::GetInputs
    } else if rv.name == "get_full_state"@ {
        CmdView::GetFullState
    } else if rv.name == "get_daemon_version"@ {
        CmdView::GetDaemonVersion
    } else if rv.name == "kill"@ {
        CmdView::Kill
    } else if rv.name == "set_input"@ {
        match wire::lookup_arg(rv.args, "input_name"@) {
            Option::None => CmdView::Invalid { what: InvalidArg::InputName },
            Option::Some(n) => CmdView::SetInput { input_name: n },
        }
    } else {
        CmdView::Unknown
    }
}

/// Parse the optional `id` argument.
fn parse_id_arg(req: &Request) -> (r: Option<Option<u32>>)
    ensures
        r == id_arg(req@.args),
{
    match req.arg("id") {
        None => Some(None),
        Some(s) => match text::parse_u32(s.as_str()) {
            Some(n) => Some(Some(n)),
            None => None,
        },
    }
}

/// Parse a `true`/`false` argument.
fn parse_bool_arg(s: &str) -> (r: Option<bool>)
    ensures
        r == spec_parse_bool(s@),
{
    if text::str_eq(s, "true") {
        Some(true)
    } else if text::str_eq(s, "false") {
        Some(false)
    } else {
        None
    }
}

/// Coerce a request into a typed command, strictly: every argument
/// either parses or names its own refusal, and unrecognized names
/// become [`Command::Unknown`].
pub fn parse_command(req: &Request) -> (c: Command)
    ensures
        c@ == spec_parse_command(req@),
{
    let name = req.name.as_str();
    if text::str_eq(name, "ping") {
        Command::Ping
    } else if text::str_eq(name, "pause") {
        match parse_id_arg(req) {
            Some(id) => Command::Pause { id },
            None => Command::Invalid { what: InvalidArg::Id },
        }
    } else if text::str_eq(name, "resume") {
        match parse_id_arg(req) {
            Some(id) => Command::Resume { id },
            None => Command::Invalid { what: InvalidArg::Id },
        }
    } else if text::str_eq(name, "toggle_pause") {
        match parse_id_arg(req) {
            Some(id) => Command::TogglePause { id },
            None => Command::Invalid { what: InvalidArg::Id },
        }
    } else if text::str_eq(name, "stop") {
        match parse_id_arg(req) {
            Some(id) => Command::Stop { id },
            None => Command::Invalid { what: InvalidArg::Id },
        }
    } else if text::str_eq(name, "get_position") {
        match parse_id_arg(req) {
            Some(id) => Command::GetPosition { id },
            None => Command::Invalid { what: InvalidArg::Id },
        }
    } else if text::str_eq(name, "get_duration") {
        match parse_id_arg(req) {
            Some(id) => Command::GetDuration { id },
            None => Command::Invalid { what: InvalidArg::Id },
        }
    } else if text::str_eq(name, "toggle_loop") {
        match parse_id_arg(req) {
            Some(id) => Command::ToggleLoop { id },
            None => Command::Invalid { what: InvalidArg::Id },
        }
    } else if text::str_eq(name, "play") {
        match req.arg("file_path") {
            None => Command::Invalid { what: InvalidArg::FilePath },
            Some(p) => match req.arg("concurrent") {
                None => Command::Play { file_path: p, concurrent: false },
                Some(c) => match parse_bool_arg(c.as_str()) {
                    Some(b) => Command::Play { file_path: p, concurrent: b },
                    None => Command::Invalid { what: InvalidArg::Concurrent },
                },
            },
        }
    } else if text::str_eq(name, "seek") {
        match req.arg("position") {
            None => Command::Invalid { what: InvalidArg::Position },
            Some(p) => match text::parse_scaled(p.as_str()) {
                None => Command::Invalid { what: InvalidArg::Position },
                Some(ms) => match parse_id_arg(req) {
                    Some(id) => Command::Seek { position_ms: ms, id },
                    None => Command::Invalid { what: InvalidArg::Id },
                },
            },
        }
    } else if text::str_eq(name, "set_volume") {
        match req.arg("volume") {
            None => Command::Invalid { what: InvalidArg::Volume },
            Some(v) => match text::parse_scaled(v.as_str()) {
                None => Command::Invalid { what: InvalidArg::Volume },
                Some(s) => {
                    let volume = if s > MAX_VOLUME as u64 {
                        MAX_VOLUME
                    } else {
                        s as u32
                    };
                    match parse_id_arg(req) {
                        Some(id) => Command::SetVolume { volume, id },
                        None => Command::Invalid { what: InvalidArg::Id },
                    }
                },
            },
        }
    } else if text::str_eq(name, "set_loop") {
        match req.arg("enabled") {
            None => Command::Invalid { what: InvalidArg::Enabled },
            Some(e) => match parse_bool_arg(e.as_str()) {
                None => Command::Invalid { what: InvalidArg::Enabled },
                Some(b) => match parse_id_arg(req) {
                    Some(id) => Command::SetLoop { enabled: b, id },
                    None => Command::Invalid { what: InvalidArg::Id },
                },
            },
        }
    } else if text::str_eq(name, "is_paused") {
        Command::IsPaused
    } else if text::str_eq(name, "get_state") {
        Command::GetState
    } else if text::str_eq(name, "get_volume") {
        Command::GetVolume
    } else if text::str_eq(name, "get_tracks") {
        Command::GetTracks
    } else if text::str_eq(name, "get_current_file_path") {
        Command::GetCurrentFilePath
    } else if text::str_eq(name, "get_input") {
        Command::GetInput
    } else if text::str_eq(name, "get_inputs") {
        Command::GetInputs
    } else if text::str_eq(name, "get_full_state") {
        Command::GetFullState
    } else if text::str_eq(name, "get_daemon_version") {
        Command::GetDaemonVersion
    } else if text::str_eq(name, "kill") {
        Command::Kill
    } else if text::str_eq(name, "set_input") {
        match req.arg("input_name") {
            None => Command::Invalid { what: InvalidArg::InputName },
            Some(n) => Command::SetInput { input_name: n },
        }
    } else {
        Command::Unknown
    }
}

/// The refusal message for each malformed argument.
pub open spec fn invalid_msg(w: InvalidArg) -> Seq<char> {
    match w {
        InvalidArg::Id => "Invalid id value"@,
        InvalidArg::Volume => "Invalid volume value"@,
        InvalidArg::Position => "Invalid position value"@,
        InvalidArg::FilePath => "Invalid file path"@,
        InvalidArg::Concurrent => "Invalid concurrent value"@,
        InvalidArg::Enabled => "Invalid enabled value"@,
        InvalidArg::InputName => "Invalid input name"@,
    }
}

/// Version string `get_daemon_version` answers with.
pub open spec fn daemon_version() -> Seq<char> {
    "0.1.0"@
}

/// What the shell must supply alongside a command: the media probe for
/// `play`, and the device enumeration for the commands that read the
/// graph (`None` when enumeration failed).
pub struct CommandContext {
    pub media: MediaProbe,
    pub devices: Option<Vec<graph::AudioDevice>>,
}

/// What executing a command decided: the response to send, whether the
/// daemon exits after sending it, and the sink work to carry out.
pub struct Outcome {
    pub response: Response,
    /// Exit the process once the response is flushed.
    pub exit: bool,
    /// Create a sink for this fresh track, from the probed media.
    pub started: Option<u32>,
    /// Drop every sink but the started one first.
    pub exclusive: bool,
    /// Drop the sinks of these tracks.
    pub removed: Vec<u32>,
    /// Seek these sinks, in milliseconds.
    pub seeks: Vec<(u32, u64)>,
    /// Apply these effective gains, in 1/1000 units.
    pub gains: Vec<(u32, u32)>,
    /// Re-plan the link pair towards the virtual microphone.
    pub relink: bool,
}

/// The outcome carries no sink work and does not exit.
pub open spec fn no_fx(r: &Outcome) -> bool {
    &&& !r.exit
    &&& r.started is None
    &&& !r.exclusive
    &&& r.removed@.len() == 0
    &&& r.seeks@.len() == 0
    &&& r.gains@.len() == 0
    &&& !r.relink
}

pub open spec fn resp(rv: wire::RespView, status: bool, message: Seq<char>) -> bool {
    rv.status == status && rv.message == message
}

/// A named scope whose track is not live.
pub open spec fn scope_missing(ts: Seq<Track>, scope: Option<u32>) -> bool {
    match scope {
        Option::Some(i) => !has_track(ts, i),
        Option::None => false,
    }
}

/// The engine's administrative fields are unchanged.
pub open spec fn admin_same(a: &Engine, b: &Engine) -> bool {
    &&& a.next_id == b.next_id
    &&& a.master_volume == b.master_volume
    &&& a.current_input_name == b.current_input_name
}

/// The whole engine is unchanged.
pub open spec fn engine_same(a: &Engine, b: &Engine) -> bool {
    admin_same(a, b) && a.tracks@ == b.tracks@
}

fn plain(response: Response) -> (r: Outcome)
    ensures
        r.response == response,
        no_fx(&r),
{
    Outcome {
        response,
        exit: false,
        started: None,
        exclusive: false,
        removed: Vec::new(),
        seeks: Vec::new(),
        gains: Vec::new(),
        relink: false,
    }
}

fn not_found() -> (r: Outcome)
    ensures
        resp(r.response@, false, "Track not found"@),
        no_fx(&r),
{
    plain(Response::new(false, "Track not found"))
}

fn msg_with_scaled(prefix: &str, n: u64) -> (r: String)
    ensures
        r@ == prefix@ + text::scaled_dec(n),
{
    let mut m = String::from_str(prefix);
    let s = text::scaled_to_dec_string(n);
    m.append(s.as_str());
    m
}

/// Execute one command against the engine, under the shell's report of
/// the outside world, and render the response.
#[verifier::rlimit(100)]
pub fn execute(eng: &mut Engine, cmd: &Command, ctx: &CommandContext) -> (r: Outcome)
    requires
        old(eng).wf(),
        old(eng).next_id < u32::MAX,
    ensures
        final(eng).wf(),
        match cmd@ {
            CmdView::Ping => resp(r.response@, true, "pong"@) && engine_same(final(eng), old(eng))
                && no_fx(&r),
            CmdView::Pause { id } => no_fx(&r) && admin_same(final(eng), old(eng)) && (if
            scope_missing(old(eng).tracks@, id) {
                resp(r.response@, false, "Track not found"@) && final(eng).tracks@ == old(eng).tracks@
            } else {
                resp(r.response@, true, "Audio was paused"@) && final(eng).tracks@
                    == spec_set_paused(old(eng).tracks@, id, true)
            }),
            CmdView::Resume { id } => no_fx(&r) && admin_same(final(eng), old(eng)) && (if
            scope_missing(old(eng).tracks@, id) {
                resp(r.response@, false, "Track not found"@) && final(eng).tracks@ == old(eng).tracks@
            } else {
                resp(r.response@, true, "Audio was resumed"@) && final(eng).tracks@
                    == spec_set_paused(old(eng).tracks@, id, false)
            }),
            CmdView::TogglePause { id } => no_fx(&r) && admin_same(final(eng), old(eng)) && (if
            scope_missing(old(eng).tracks@, id) {
                resp(r.response@, false, "Track not found"@) && final(eng).tracks@ == old(eng).tracks@
            } else {
                resp(r.response@, true, "Pause was toggled"@) && final(eng).tracks@ == (match id {
                    Option::None => spec_set_paused(
                        old(eng).tracks@,
                        Option::None,
                        spec_state(old(eng).tracks@) != PlayerState::Paused,
                    ),
                    Option::Some(i) => crate::engine::spec_toggle_track(old(eng).tracks@, i),
                })
            }),
            CmdView::Stop { id } => !r.exit && r.started is None && !r.exclusive && r.seeks@.len()
                == 0 && r.gains@.len() == 0 && !r.relink && admin_same(final(eng), old(eng)) && (
            if scope_missing(old(eng).tracks@, id) {
                resp(r.response@, false, "Track not found"@) && final(eng).tracks@ == old(eng).tracks@ && r.removed@.len() == 0
            } else {
                resp(r.response@, true, "Audio was stopped"@) && final(eng).tracks@
                    == spec_remove_scope(old(eng).tracks@, id) && r.removed@ == spec_removed_ids(
                    old(eng).tracks@,
                    id,
                )
            }),
            CmdView::GetPosition { id } => no_fx(&r) && engine_same(final(eng), old(eng)) && (
            match id {
                Option::Some(i) => if has_track(old(eng).tracks@, i) {
                    r.response@.status == true && exists|k: int|
                        0 <= k < old(eng).tracks@.len() && (#[trigger] old(eng).tracks@[k]).id == i
                            && r.response@.message == text::scaled_dec(
                            old(eng).tracks@[k].position_ms,
                        )
                } else {
                    resp(r.response@, false, "Track not found"@)
                },
                Option::None => resp(
                    r.response@,
                    true,
                    text::scaled_dec(
                        if old(eng).tracks@.len() == 0 {
                            0u64
                        } else {
                            old(eng).tracks@.last().position_ms
                        },
                    ),
                ),
            }),
            CmdView::GetDuration { id } => no_fx(&r) && engine_same(final(eng), old(eng)) && (
            match id {
                Option::Some(i) => if !has_track(old(eng).tracks@, i) {
                    resp(r.response@, false, "Track not found"@)
                } else {
                    forall|k: int|
                        0 <= k < old(eng).tracks@.len() && (#[trigger] old(eng).tracks@[k]).id
                            == i ==> (match old(eng).tracks@[k].duration_ms {
                            Option::Some(d) => resp(r.response@, true, text::scaled_dec(d)),
                            Option::None => resp(
                                r.response@,
                                false,
                                "Couldn't determine duration for current file"@,
                            ),
                        })
                },
                Option::None => if old(eng).tracks@.len() == 0 {
                    resp(r.response@, false, "Nothing is playing right now"@)
                } else {
                    match old(eng).tracks@.last().duration_ms {
                        Option::Some(d) => resp(r.response@, true, text::scaled_dec(d)),
                        Option::None => resp(
                            r.response@,
                            false,
                            "Couldn't determine duration for current file"@,
                        ),
                    }
                },
            }),
            CmdView::ToggleLoop { id } => no_fx(&r) && admin_same(final(eng), old(eng)) && (if
            scope_missing(old(eng).tracks@, id) {
                resp(r.response@, false, "Track not found"@) && final(eng).tracks@ == old(eng).tracks@
            } else {
                resp(r.response@, true, "Loop was toggled"@) && final(eng).tracks@
                    == spec_toggle_looped(old(eng).tracks@, id)
            }),
            CmdView::SetLoop { enabled, id } => no_fx(&r) && admin_same(final(eng), old(eng)) && (
            if scope_missing(old(eng).tracks@, id) {
                resp(r.response@, false, "Track not found"@) && final(eng).tracks@ == old(eng).tracks@
            } else {
                resp(r.response@, true, "Loop was updated"@) && final(eng).tracks@
                    == spec_set_looped(old(eng).tracks@, id, enabled)
            }),
            CmdView::Play { file_path, concurrent } => !r.exit && r.removed@.len() == 0
                && r.seeks@.len() == 0 && !r.relink && (match ctx.media {
                MediaProbe::Missing => resp(r.response@, false, "File does not exist"@)
                    && engine_same(final(eng), old(eng)) && r.started is None && !r.exclusive
                    && r.gains@.len() == 0,
                MediaProbe::Unreadable => resp(r.response@, false, "Failed to decode file"@)
                    && engine_same(final(eng), old(eng)) && r.started is None && !r.exclusive
                    && r.gains@.len() == 0,
                MediaProbe::Decoded { duration_ms, seekable } => {
                    &&& resp(r.response@, true, text::dec_digits(old(eng).next_id as int))
                    &&& final(eng).next_id == old(eng).next_id + 1
                    &&& final(eng).master_volume == old(eng).master_volume
                    &&& final(eng).current_input_name == old(eng).current_input_name
                    &&& final(eng).tracks@.len() > 0
                    &&& final(eng).tracks@.drop_last() == (if concurrent {
                        old(eng).tracks@
                    } else {
                        Seq::<Track>::empty()
                    })
                    &&& crate::engine::is_fresh_track(
                        final(eng).tracks@.last(),
                        old(eng).next_id,
                        file_path,
                        duration_ms,
                        seekable,
                    )
                    &&& r.started == Some(old(eng).next_id)
                    &&& r.exclusive == !concurrent
                    &&& r.gains@ == seq![
                        (old(eng).next_id, effective_gain(old(eng).master_volume, MAX_VOLUME)),
                    ]
                },
            }),
            CmdView::Seek { position_ms, id } => !r.exit && r.started is None && !r.exclusive
                && r.removed@.len() == 0 && r.gains@.len() == 0 && !r.relink && admin_same(
                final(eng),
                old(eng),
            ) && (if scope_missing(old(eng).tracks@, id) {
                resp(r.response@, false, "Track not found"@) && final(eng).tracks@ == old(eng).tracks@ && r.seeks@.len() == 0
            } else {
                &&& final(eng).tracks@ == spec_seek(old(eng).tracks@, id, position_ms)
                &&& r.seeks@ == spec_seek_applied(old(eng).tracks@, id, position_ms)
                &&& (if spec_all_seekable(old(eng).tracks@, id) {
                    resp(
                        r.response@,
                        true,
                        "Audio position was set to "@ + text::scaled_dec(position_ms),
                    )
                } else {
                    resp(r.response@, false, "Seeking is not supported for this track"@)
                })
            }),
            CmdView::SetVolume { volume, id } => !r.exit && r.started is None && !r.exclusive
                && r.removed@.len() == 0 && r.seeks@.len() == 0 && !r.relink && final(eng).next_id
                == old(eng).next_id && final(eng).current_input_name == old(eng).current_input_name && (if scope_missing(old(eng).tracks@, id) {
                resp(r.response@, false, "Track not found"@) && engine_same(final(eng), old(eng))
                    && r.gains@.len() == 0
            } else {
                &&& resp(
                    r.response@,
                    true,
                    "Audio volume was set to "@ + text::scaled_dec(volume as u64),
                )
                &&& (match id {
                    Option::None => final(eng).master_volume == clamp_volume(volume) && final(eng).tracks@ == old(eng).tracks@ && r.gains@ == crate::engine::spec_master_gains(
                        old(eng).tracks@,
                        clamp_volume(volume),
                    ),
                    Option::Some(i) => final(eng).master_volume == old(eng).master_volume && final(eng).tracks@ == crate::engine::spec_set_track_volume(old(eng).tracks@, i, volume)
                        && r.gains@ == seq![
                        (i, effective_gain(old(eng).master_volume, clamp_volume(volume))),
                    ],
                })
            }),
            CmdView::IsPaused => no_fx(&r) && engine_same(final(eng), old(eng)) && resp(
                r.response@,
                true,
                wire::bool_lit(spec_state(old(eng).tracks@) == PlayerState::Paused),
            ),
            CmdView::GetState => no_fx(&r) && engine_same(final(eng), old(eng)) && resp(
                r.response@,
                true,
                render::spec_state_json(spec_state(old(eng).tracks@)),
            ),
            CmdView::GetVolume => no_fx(&r) && engine_same(final(eng), old(eng)) && resp(
                r.response@,
                true,
                text::scaled_dec(old(eng).master_volume as u64),
            ),
            CmdView::GetTracks => no_fx(&r) && engine_same(final(eng), old(eng)) && resp(
                r.response@,
                true,
                render::spec_tracks_json(old(eng).tracks@),
            ),
            CmdView::GetCurrentFilePath => no_fx(&r) && engine_same(final(eng), old(eng)) && (if
            old(eng).tracks@.len() == 0 {
                resp(r.response@, false, "No file is playing"@)
            } else {
                resp(r.response@, true, old(eng).tracks@.last().path@)
            }),
            CmdView::GetInput => no_fx(&r) && engine_same(final(eng), old(eng)) && (match old(eng).current_input_name {
                Option::Some(n) => resp(r.response@, true, n@),
                Option::None => resp(r.response@, false, "No input device selected"@),
            }),
            CmdView::GetInputs => no_fx(&r) && engine_same(final(eng), old(eng)) && (match
            ctx.devices {
                Option::Some(dv) => resp(r.response@, true, render::spec_inputs_text(dv@)),
                Option::None => resp(r.response@, false, "Audio graph is unavailable"@),
            }),
            CmdView::GetFullState => no_fx(&r) && engine_same(final(eng), old(eng)) && resp(
                r.response@,
                true,
                render::spec_full_state_json(
                    spec_state(old(eng).tracks@),
                    old(eng).tracks@,
                    old(eng).master_volume,
                    match old(eng).current_input_name {
                        Option::Some(n) => Option::Some(n@),
                        Option::None => Option::None,
                    },
                    match ctx.devices {
                        Option::Some(dv) => dv@,
                        Option::None => Seq::<graph::AudioDevice>::empty(),
                    },
                ),
            ),
            CmdView::GetDaemonVersion => no_fx(&r) && engine_same(final(eng), old(eng)) && resp(
                r.response@,
                true,
                daemon_version(),
            ),
            CmdView::Kill => resp(r.response@, true, "killed"@) && engine_same(final(eng), old(eng))
                && r.exit && r.started is None && !r.exclusive && r.removed@.len() == 0
                && r.seeks@.len() == 0 && r.gains@.len() == 0 && !r.relink,
            CmdView::SetInput { input_name } => !r.exit && r.started is None && !r.exclusive
                && r.removed@.len() == 0 && r.seeks@.len() == 0 && r.gains@.len() == 0 && final(eng).tracks@ == old(eng).tracks@ && final(eng).next_id == old(eng).next_id && final(eng).master_volume == old(eng).master_volume && (match ctx.devices {
                Option::None => resp(r.response@, false, "Audio graph is unavailable"@) && final(eng).current_input_name == old(eng).current_input_name && !r.relink,
                Option::Some(dv) => match graph::spec_find_by_name(dv@, input_name) {
                    Option::None => resp(r.response@, false, "Device not found"@) && final(eng).current_input_name == old(eng).current_input_name && !r.relink,
                    Option::Some(i) => if dv@[i].device_type == graph::DeviceType::Input {
                        resp(r.response@, true, "Input device was set"@) && (final(eng).current_input_name matches Some(n) && n@ == input_name) && r.relink
                    } else {
                        resp(r.response@, false, "Selected device is not an input device"@)
                            && final(eng).current_input_name == old(eng).current_input_name
                            && !r.relink
                    },
                },
            }),
            CmdView::Invalid { what } => no_fx(&r) && engine_same(final(eng), old(eng)) && resp(
                r.response@,
                false,
                invalid_msg(what),
            ),
            CmdView::Unknown => no_fx(&r) && engine_same(final(eng), old(eng)) && resp(
                r.response@,
                false,
                "Unknown command"@,
            ),
        },
{
    match cmd {
        Command::Ping => plain(Response::new(true, "pong")),
        Command::Pause { id } => match eng.pause(*id) {
            Ok(()) => plain(Response::new(true, "Audio was paused")),
            Err(_) => not_found(),
        },
        Command::Resume { id } => match eng.resume(*id) {
            Ok(()) => plain(Response::new(true, "Audio was resumed")),
            Err(_) => not_found(),
        },
        Command::TogglePause { id } => match eng.toggle_pause(*id) {
            Ok(()) => plain(Response::new(true, "Pause was toggled")),
            Err(_) => not_found(),
        },
        Command::Stop { id } => match eng.stop(*id) {
            Ok(removed) => {
                let mut out = plain(Response::new(true, "Audio was stopped"));
                out.removed = removed;
                out
            },
            Err(_) => not_found(),
        },
        Command::GetPosition { id } => match eng.get_position(*id) {
            Ok(p) => plain(Response { status: true, message: text::scaled_to_dec_string(p) }),
            Err(_) => not_found(),
        },
        Command::GetDuration { id } => {
            let res = eng.get_duration(*id);
            proof {
                // Ids are strictly increasing, so the track an id names
                // is the one the getter looked at.
                assert(forall|a: int, b: int|
                    0 <= a < b < old(eng).tracks@.len() ==> old(eng).tracks@[a].id < old(
                        eng,
                    ).tracks@[b].id);
            }
            match res {
                Ok(d) => plain(Response { status: true, message: text::scaled_to_dec_string(d) }),
                Err(e) => match e {
                    EngineError::TrackNotFound => not_found(),
                    EngineError::NoTrack => plain(
                        Response::new(false, "Nothing is playing right now"),
                    ),
                    _ => plain(
                        Response::new(false, "Couldn't determine duration for current file"),
                    ),
                },
            }
        },
        Command::ToggleLoop { id } => match eng.toggle_loop(*id) {
            Ok(()) => plain(Response::new(true, "Loop was toggled")),
            Err(_) => not_found(),
        },
        Command::SetLoop { enabled, id } => match eng.set_loop(*enabled, *id) {
            Ok(()) => plain(Response::new(true, "Loop was updated")),
            Err(_) => not_found(),
        },
        Command::Play { file_path, concurrent } => match eng.play(
            file_path.as_str(),
            *concurrent,
            &ctx.media,
        ) {
            Ok(id) => {
                let mut out = plain(
                    Response { status: true, message: text::u64_to_dec_string(id as u64) },
                );
                out.started = Some(id);
                out.exclusive = !*concurrent;
                let mut gains: Vec<(u32, u32)> = Vec::new();
                let m = eng.get_volume();
                assert(m <= MAX_VOLUME);
                assert(m * MAX_VOLUME <= 1000000) by (nonlinear_arith)
                    requires
                        m <= 1000,
                ;
                gains.push((id, (m * MAX_VOLUME) / 1000));
                out.gains = gains;
                assert(out.gains@ =~= seq![
                    (old(eng).next_id, effective_gain(old(eng).master_volume, MAX_VOLUME)),
                ]);
                out
            },
            Err(e) => match e {
                EngineError::FileMissing => plain(Response::new(false, "File does not exist")),
                _ => plain(Response::new(false, "Failed to decode file")),
            },
        },
        Command::Seek { position_ms, id } => match eng.seek(*position_ms, *id) {
            Ok(sk) => {
                let response = if sk.all_supported {
                    Response {
                        status: true,
                        message: msg_with_scaled("Audio position was set to ", *position_ms),
                    }
                } else {
                    Response::new(false, "Seeking is not supported for this track")
                };
                let mut out = plain(response);
                out.seeks = sk.applied;
                out
            },
            Err(_) => not_found(),
        },
        Command::SetVolume { volume, id } => match eng.set_volume(*volume, *id) {
            Ok(gains) => {
                let mut out = plain(
                    Response {
                        status: true,
                        message: msg_with_scaled("Audio volume was set to ", *volume as u64),
                    },
                );
                out.gains = gains;
                out
            },
            Err(_) => not_found(),
        },
        Command::IsPaused => {
            let b = eng.is_paused();
            proof {
                reveal_strlit("true");
                reveal_strlit("false");
                assert("true"@ =~= wire::bool_lit(true));
                assert("false"@ =~= wire::bool_lit(false));
            }
            plain(Response::new(true, if b {
                "true"
            } else {
                "false"
            }))
        },
        Command::GetState => {
            let st = eng.get_state();
            plain(Response { status: true, message: render::render_state(&st) })
        },
        Command::GetVolume => {
            let v = eng.get_volume();
            plain(Response { status: true, message: text::scaled_to_dec_string(v as u64) })
        },
        Command::GetTracks => {
            let msg = render::render_tracks(eng.get_tracks());
            plain(Response { status: true, message: msg })
        },
        Command::GetCurrentFilePath => match eng.get_current_file_path() {
            Some(p) => plain(Response { status: true, message: p }),
            None => plain(Response::new(false, "No file is playing")),
        },
        Command::GetInput => match &eng.current_input_name {
            Some(n) => plain(Response { status: true, message: n.clone() }),
            None => plain(Response::new(false, "No input device selected")),
        },
        Command::GetInputs => match &ctx.devices {
            Some(dv) => plain(Response { status: true, message: render::render_inputs(dv) }),
            None => plain(Response::new(false, "Audio graph is unavailable")),
        },
        Command::GetFullState => {
            let st = eng.get_state();
            let msg = render::render_full_state(
                &st,
                &eng.tracks,
                eng.master_volume,
                &eng.current_input_name,
                &ctx.devices,
            );
            plain(Response { status: true, message: msg })
        },
        Command::GetDaemonVersion => plain(Response::new(true, "0.1.0")),
        Command::Kill => {
            let mut out = plain(Response::new(true, "killed"));
            out.exit = true;
            out
        },
        Command::SetInput { input_name } => match eng.set_current_input(
            input_name.as_str(),
            &ctx.devices,
        ) {
            Ok(()) => {
                let mut out = plain(Response::new(true, "Input device was set"));
                out.relink = true;
                out
            },
            Err(e) => match e {
                EngineError::GraphUnavailable => plain(
                    Response::new(false, "Audio graph is unavailable"),
                ),
                EngineError::DeviceNotFound => plain(Response::new(false, "Device not found")),
                _ => plain(Response::new(false, "Selected device is not an input device")),
            },
        },
        Command::Invalid { what } => match what {
            InvalidArg::Id => plain(Response::new(false, "Invalid id value")),
            InvalidArg::Volume => plain(Response::new(false, "Invalid volume value")),
            InvalidArg::Position => plain(Response::new(false, "Invalid position value")),
            InvalidArg::FilePath => plain(Response::new(false, "Invalid file path")),
            InvalidArg::Concurrent => plain(Response::new(false, "Invalid concurrent value")),
            InvalidArg::Enabled => plain(Response::new(false, "Invalid enabled value")),
            InvalidArg::InputName => plain(Response::new(false, "Invalid input name")),
        },
        Command::Unknown => plain(Response::new(false, "Unknown command")),
    }
}

} // verus!
