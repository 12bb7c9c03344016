//! JSON renderings of engine state for response messages.
//!
//! `get_state`, `get_tracks` and `get_full_state` answer with a JSON
//! document in the response message.  Numbers are rendered in the
//! protocol's decimal form: gains and second counts from their 1/1000
//! units, ids as plain integers.

use vstd::prelude::*;
use crate::engine::{PlayerState, Track};
use crate::graph::{self, AudioDevice, DeviceType};
use crate::json;
use crate::text;
use crate::wire;

verus! {

pub open spec fn state_lit(st: PlayerState) -> Seq<char> {
    match st {
        PlayerState::Stopped => "Stopped"@,
        PlayerState::Paused => "Paused"@,
        PlayerState::Playing => "Playing"@,
    }
}

/// The state as a JSON document: a bare string.
pub open spec fn spec_state_json(st: PlayerState) -> Seq<char> {
    seq!['"'] + state_lit(st) + seq!['"']
}

/// Render the player state as its JSON document.
pub fn render_state(st: &PlayerState) -> (r: String)
    ensures
        r@ == spec_state_json(*st),
{
    let mut out: Vec<char> = Vec::new();
    out.push('"');
    let name = match st {
        PlayerState::Stopped => text::string_to_chars("Stopped"),
        PlayerState::Paused => text::string_to_chars("Paused"),
        PlayerState::Playing => text::string_to_chars("Playing"),
    };
    let mut name = name;
    out.append(&mut name);
    out.push('"');
    assert(out@ =~= spec_state_json(*st));
    text::chars_to_string(&out)
}

/// An object key with its separating colon; protocol keys carry no
/// characters that need escaping.
pub open spec fn jkey(k: Seq<char>) -> Seq<char> {
    seq!['"'] + k + seq!['"', ':']
}

/// A millisecond count as decimal seconds, or `null` when unknown.
pub open spec fn opt_ms_json(d: Option<u64>) -> Seq<char> {
    match d {
        Option::Some(ms) => text::scaled_dec(ms),
        Option::None => "null"@,
    }
}

/// One track as a JSON object.
pub open spec fn spec_track_json(t: Track) -> Seq<char> {
    seq!['{'] + jkey("id"@) + text::dec_digits(t.id as int) + seq![','] + jkey("path"@)
        + json::jstr(t.path@) + seq![','] + jkey("duration"@) + opt_ms_json(t.duration_ms)
        + seq![','] + jkey("volume"@) + text::scaled_dec(t.volume as u64) + seq![','] + jkey(
        "looped"@,
    ) + wire::bool_lit(t.looped) + seq![','] + jkey("paused"@) + wire::bool_lit(t.paused)
        + seq![','] + jkey("position"@) + text::scaled_dec(t.position_ms) + seq!['}']
}

/// The items of the track array, oldest first, comma-separated.
pub open spec fn spec_track_items(ts: Seq<Track>) -> Seq<char>
    decreases ts.len(),
{
    if ts.len() == 0 {
        Seq::empty()
    } else {
        let rest = spec_track_items(ts.drop_last());
        if rest.len() == 0 {
            spec_track_json(ts.last())
        } else {
            rest + seq![','] + spec_track_json(ts.last())
        }
    }
}

/// The track list as a JSON array.
pub open spec fn spec_tracks_json(ts: Seq<Track>) -> Seq<char> {
    seq!['['] + spec_track_items(ts) + seq![']']
}

fn emit_key(out: &mut Vec<char>, k: &str)
    ensures
        final(out)@ == old(out)@ + jkey(k@),
{
    out.push('"');
    let mut kc = text::string_to_chars(k);
    out.append(&mut kc);
    out.push('"');
    out.push(':');
    assert(out@ =~= old(out)@ + jkey(k@));
}

fn emit_bool(out: &mut Vec<char>, b: bool)
    ensures
        final(out)@ == old(out)@ + wire::bool_lit(b),
{
    if b {
        out.push('t');
        out.push('r');
        out.push('u');
        out.push('e');
    } else {
        out.push('f');
        out.push('a');
        out.push('l');
        out.push('s');
        out.push('e');
    }
    assert(out@ =~= old(out)@ + wire::bool_lit(b));
}

#[verifier::rlimit(60)]
fn emit_track(out: &mut Vec<char>, t: &Track)
    ensures
        final(out)@ == old(out)@ + spec_track_json(*t),
{
    out.push('{');
    emit_key(out, "id");
    let mut idc = text::u64_to_dec(t.id as u64);
    out.append(&mut idc);
    out.push(',');
    emit_key(out, "path");
    let pc = text::string_to_chars(t.path.as_str());
    json::emit_jstr(out, &pc);
    out.push(',');
    emit_key(out, "duration");
    match t.duration_ms {
        Some(ms) => {
            let mut dc = text::scaled_to_dec(ms);
            out.append(&mut dc);
        },
        None => {
            let mut nc = text::string_to_chars("null");
            out.append(&mut nc);
        },
    }
    out.push(',');
    emit_key(out, "volume");
    let mut vc = text::scaled_to_dec(t.volume as u64);
    out.append(&mut vc);
    out.push(',');
    emit_key(out, "looped");
    emit_bool(out, t.looped);
    out.push(',');
    emit_key(out, "paused");
    emit_bool(out, t.paused);
    out.push(',');
    emit_key(out, "position");
    let mut posc = text::scaled_to_dec(t.position_ms);
    out.append(&mut posc);
    out.push('}');
    assert(out@ =~= old(out)@ + spec_track_json(*t));
}

/// Render the track list as its JSON array.
pub fn render_tracks(ts: &Vec<Track>) -> (r: String)
    ensures
        r@ == spec_tracks_json(ts@),
{
    let mut out: Vec<char> = Vec::new();
    out.push('[');
    proof {
        assert(ts@.take(0) =~= Seq::<Track>::empty());
    }
    let mut i: usize = 0;
    while i < ts.len()
        invariant
            i <= ts@.len(),
            out@ == seq!['['] + spec_track_items(ts@.take(i as int)),
        decreases ts@.len() - i,
    {
        if i > 0 {
            out.push(',');
            assert(spec_track_items(ts@.take(i as int)).len() > 0) by {
                lemma_track_items_nonempty(ts@.take(i as int));
            }
        }
        emit_track(&mut out, &ts[i]);
        proof {
            assert(ts@.take(i + 1).drop_last() =~= ts@.take(i as int));
            assert(ts@.take(i + 1).last() == ts@[i as int]);
            if i == 0 {
                assert(spec_track_items(ts@.take(0)).len() == 0);
            }
            assert(out@ =~= seq!['['] + spec_track_items(ts@.take(i + 1)));
        }
        i += 1;
    }
    assert(ts@.take(ts@.len() as int) =~= ts@);
    out.push(']');
    assert(out@ =~= spec_tracks_json(ts@));
    text::chars_to_string(&out)
}

/// A rendered track item is never empty.
proof fn lemma_track_items_nonempty(ts: Seq<Track>)
    requires
        ts.len() > 0,
    ensures
        spec_track_items(ts).len() > 0,
    decreases ts.len(),
{
}

/// Capture devices offered to clients: announced as inputs, and not
/// the virtual microphone itself.
pub open spec fn keep_input(d: AudioDevice) -> bool {
    d.device_type == DeviceType::Input && d.name@ != graph::virtual_mic_name()
}

/// One listed input: its node name, a dash, its display name.
pub open spec fn input_entry(d: AudioDevice) -> Seq<char> {
    d.name@ + " - "@ + d.nick@
}

/// The offered inputs joined with `; `, in announcement order.
pub open spec fn spec_inputs_text(dv: Seq<AudioDevice>) -> Seq<char>
    decreases dv.len(),
{
    if dv.len() == 0 {
        Seq::empty()
    } else {
        let rest = spec_inputs_text(dv.drop_last());
        if !keep_input(dv.last()) {
            rest
        } else if rest.len() == 0 {
            input_entry(dv.last())
        } else {
            rest + "; "@ + input_entry(dv.last())
        }
    }
}

/// Render the offered inputs for `get_inputs`.
pub fn render_inputs(dv: &Vec<AudioDevice>) -> (r: String)
    ensures
        r@ == spec_inputs_text(dv@),
{
    let mut out: Vec<char> = Vec::new();
    proof {
        assert(dv@.take(0) =~= Seq::<AudioDevice>::empty());
    }
    let mut i: usize = 0;
    while i < dv.len()
        invariant
            i <= dv@.len(),
            out@ == spec_inputs_text(dv@.take(i as int)),
        decreases dv@.len() - i,
    {
        proof {
            assert(dv@.take(i + 1).drop_last() =~= dv@.take(i as int));
            assert(dv@.take(i + 1).last() == dv@[i as int]);
        }
        let is_input = match dv[i].device_type {
            DeviceType::Input => true,
            DeviceType::Output => false,
        };
        let keep = is_input && !text::str_eq(dv[i].name.as_str(), "pwsp-virtual-mic");
        if keep {
            if out.len() > 0 {
                out.push(';');
                out.push(' ');
            }
            let mut nm = text::string_to_chars(dv[i].name.as_str());
            out.append(&mut nm);
            out.push(' ');
            out.push('-');
            out.push(' ');
            let mut nk = text::string_to_chars(dv[i].nick.as_str());
            out.append(&mut nk);
            proof {
                reveal_strlit(" - ");
                reveal_strlit("; ");
            }
        }
        assert(out@ =~= spec_inputs_text(dv@.take(i + 1)));
        i += 1;
    }
    assert(dv@.take(dv@.len() as int) =~= dv@);
    text::chars_to_string(&out)
}

/// The offered inputs as object members: node name to display name.
pub open spec fn spec_input_pairs(dv: Seq<AudioDevice>) -> Seq<(Seq<char>, Seq<char>)>
    decreases dv.len(),
{
    if dv.len() == 0 {
        Seq::empty()
    } else {
        let rest = spec_input_pairs(dv.drop_last());
        if keep_input(dv.last()) {
            rest.push((dv.last().name@, dv.last().nick@))
        } else {
            rest
        }
    }
}

/// The full-state snapshot as one JSON document.
pub open spec fn spec_full_state_json(
    st: PlayerState,
    ts: Seq<Track>,
    master: u32,
    input: Option<Seq<char>>,
    dv: Seq<AudioDevice>,
) -> Seq<char> {
    seq!['{'] + jkey("state"@) + spec_state_json(st) + seq![','] + jkey("tracks"@)
        + spec_tracks_json(ts) + seq![','] + jkey("master_volume"@) + text::scaled_dec(
        master as u64,
    ) + seq![','] + jkey("current_input_name"@) + (match input {
        Option::Some(n) => json::jstr(n),
        Option::None => "null"@,
    }) + seq![','] + jkey("all_inputs"@) + json::enc_obj(spec_input_pairs(dv)) + seq!['}']
}

/// Render the full-state snapshot for `get_full_state`.  A failed
/// enumeration reads as no offered inputs.
#[verifier::rlimit(100)]
pub fn render_full_state(
    st: &PlayerState,
    ts: &Vec<Track>,
    master: u32,
    input: &Option<String>,
    devices: &Option<Vec<AudioDevice>>,
) -> (r: String)
    ensures
        ({
            let dv = match *devices {
                Option::Some(d) => d@,
                Option::None => Seq::<AudioDevice>::empty(),
            };
            let inp = match *input {
                Option::Some(n) => Option::Some(n@),
                Option::None => Option::None::<Seq<char>>,
            };
            r@ == spec_full_state_json(*st, ts@, master, inp, dv)
        }),
{
    let mut out: Vec<char> = Vec::new();
    out.push('{');
    emit_key(&mut out, "state");
    let mut sj = text::string_to_chars(render_state(st).as_str());
    out.append(&mut sj);
    out.push(',');
    emit_key(&mut out, "tracks");
    let mut tj = text::string_to_chars(render_tracks(ts).as_str());
    out.append(&mut tj);
    out.push(',');
    emit_key(&mut out, "master_volume");
    let mut mv = text::scaled_to_dec(master as u64);
    out.append(&mut mv);
    out.push(',');
    emit_key(&mut out, "current_input_name");
    match input {
        Some(n) => {
            let nc = text::string_to_chars(n.as_str());
            json::emit_jstr(&mut out, &nc);
        },
        None => {
            let mut nc = text::string_to_chars("null");
            out.append(&mut nc);
        },
    }
    out.push(',');
    emit_key(&mut out, "all_inputs");
    match devices {
        Some(dv) => {
            emit_input_pairs(&mut out, dv);
        },
        None => {
            out.push('{');
            out.push('}');
            proof {
                assert(spec_input_pairs(Seq::<AudioDevice>::empty()) =~= Seq::<
                    (Seq<char>, Seq<char>),
                >::empty());
                assert(json::enc_obj(spec_input_pairs(Seq::<AudioDevice>::empty()))
                    =~= seq!['{', '}']);
            }
        },
    }
    out.push('}');
    proof {
        let dv = if devices is Some {
            (devices->0)@
        } else {
            Seq::<AudioDevice>::empty()
        };
        let inp = if input is Some {
            Option::Some((input->0)@)
        } else {
            Option::None::<Seq<char>>
        };
        assert(out@ =~= spec_full_state_json(*st, ts@, master, inp, dv));
    }
    text::chars_to_string(&out)
}

/// Append the `all_inputs` object.
fn emit_input_pairs(out: &mut Vec<char>, dv: &Vec<AudioDevice>)
    ensures
        final(out)@ == old(out)@ + json::enc_obj(spec_input_pairs(dv@)),
{
    out.push('{');
    proof {
        assert(dv@.take(0) =~= Seq::<AudioDevice>::empty());
        assert(spec_input_pairs(dv@.take(0)) =~= Seq::<(Seq<char>, Seq<char>)>::empty());
    }
    let mut i: usize = 0;
    let mut first: bool = true;
    while i < dv.len()
        invariant
            i <= dv@.len(),
            out@ == old(out)@ + seq!['{'] + json::enc_pairs(spec_input_pairs(dv@.take(i as int))),
            first == (spec_input_pairs(dv@.take(i as int)).len() == 0),
        decreases dv@.len() - i,
    {
        proof {
            assert(dv@.take(i + 1).drop_last() =~= dv@.take(i as int));
            assert(dv@.take(i + 1).last() == dv@[i as int]);
        }
        let is_input = match dv[i].device_type {
            DeviceType::Input => true,
            DeviceType::Output => false,
        };
        let keep = is_input && !text::str_eq(dv[i].name.as_str(), "pwsp-virtual-mic");
        if keep {
            let ghost prior = spec_input_pairs(dv@.take(i as int));
            if !first {
                out.push(',');
            }
            first = false;
            let nm = text::string_to_chars(dv[i].name.as_str());
            json::emit_jstr(out, &nm);
            out.push(':');
            let nk = text::string_to_chars(dv[i].nick.as_str());
            json::emit_jstr(out, &nk);
            proof {
                json::lemma_enc_pairs_snoc(prior, (dv@[i as int].name@, dv@[i as int].nick@));
                assert(spec_input_pairs(dv@.take(i + 1)) =~= prior.push(
                    (dv@[i as int].name@, dv@[i as int].nick@),
                ));
                if prior.len() == 0 {
                    assert(json::enc_pairs(prior).len() == 0);
                } else {
                    lemma_enc_pairs_nonempty(prior);
                }
                assert(out@ =~= old(out)@ + seq!['{'] + json::enc_pairs(
                    spec_input_pairs(dv@.take(i + 1)),
                ));
            }
        }
        i += 1;
    }
    assert(dv@.take(dv@.len() as int) =~= dv@);
    out.push('}');
    assert(final(out)@ =~= old(out)@ + json::enc_obj(spec_input_pairs(dv@)));
}

/// Rendered members are never empty.
proof fn lemma_enc_pairs_nonempty(a: Seq<(Seq<char>, Seq<char>)>)
    requires
        a.len() > 0,
    ensures
        json::enc_pairs(a).len() > 0,
    decreases a.len(),
{
    if a.len() > 1 {
        lemma_enc_pairs_nonempty(a.drop_first());
    }
}

} // verus!
