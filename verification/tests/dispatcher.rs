//! Request handling end to end: coercion, routing, response rendering.

use pwsp::dispatch::{execute, parse_command, Command, CommandContext, Outcome};
use pwsp::engine::{Engine, MediaProbe};
use pwsp::graph::{AudioDevice, DeviceType};
use pwsp::wire::Request;

fn args(pairs: &[(&str, &str)]) -> Vec<(String, String)> {
    let mut v: Vec<(String, String)> = Vec::new();
    let mut i: usize = 0;
    while i < pairs.len() {
        v.push((pairs[i].0.to_string(), pairs[i].1.to_string()));
        i += 1;
    }
    v
}

fn no_io() -> CommandContext {
    CommandContext { media: MediaProbe::Missing, devices: None }
}

fn with_media(media: MediaProbe) -> CommandContext {
    CommandContext { media, devices: None }
}

fn run(eng: &mut Engine, req: Request, ctx: &CommandContext) -> Outcome {
    let cmd = parse_command(&req);
    execute(eng, &cmd, ctx)
}

fn device(id: u32, name: &str, nick: &str, kind: DeviceType) -> AudioDevice {
    AudioDevice {
        id,
        nick: nick.to_string(),
        name: name.to_string(),
        device_type: kind,
        input_fl: None,
        input_fr: None,
        output_fl: None,
        output_fr: None,
    }
}

#[test]
fn ping_answers_pong() {
    let mut eng = Engine::new();
    let out = run(&mut eng, Request::ping(), &no_io());
    assert!(out.response.status);
    assert_eq!(out.response.message, "pong");
    assert!(!out.exit);
}

#[test]
fn unknown_names_are_refused() {
    let mut eng = Engine::new();
    let out = run(&mut eng, Request::new("wibble", Vec::new()), &no_io());
    assert!(!out.response.status);
    assert_eq!(out.response.message, "Unknown command");
}

#[test]
fn exclusive_play_over_the_wire() {
    let mut eng = Engine::new();
    let probe = MediaProbe::Decoded { duration_ms: None, seekable: true };
    let out1 = run(
        &mut eng,
        Request::new("play", args(&[("file_path", "/tmp/a.wav"), ("concurrent", "false")])),
        &with_media(probe),
    );
    assert!(out1.response.status);
    assert_eq!(out1.response.message, "1");
    let probe2 = MediaProbe::Decoded { duration_ms: None, seekable: true };
    let out2 = run(
        &mut eng,
        Request::new("play", args(&[("file_path", "/tmp/b.wav"), ("concurrent", "false")])),
        &with_media(probe2),
    );
    assert!(out2.response.status);
    assert_eq!(out2.response.message, "2");
    assert_eq!(out2.started, Some(2));
    assert!(out2.exclusive);
    assert_eq!(eng.get_tracks().len(), 1);
    assert_eq!(eng.get_tracks()[0].id, 2);
    assert!(eng.get_tracks()[0].path.ends_with("b.wav"));
}

#[test]
fn concurrent_play_over_the_wire() {
    let mut eng = Engine::new();
    let p1 = MediaProbe::Decoded { duration_ms: None, seekable: true };
    let out1 = run(
        &mut eng,
        Request::new("play", args(&[("file_path", "/tmp/a.wav"), ("concurrent", "true")])),
        &with_media(p1),
    );
    assert_eq!(out1.response.message, "1");
    assert!(!out1.exclusive);
    let p2 = MediaProbe::Decoded { duration_ms: None, seekable: true };
    let out2 = run(
        &mut eng,
        Request::new("play", args(&[("file_path", "/tmp/b.wav"), ("concurrent", "true")])),
        &with_media(p2),
    );
    assert_eq!(out2.response.message, "2");
    let ids: Vec<u32> = eng.get_tracks().iter().map(|t| t.id).collect();
    assert_eq!(ids, vec![1, 2]);
}

#[test]
fn play_without_concurrent_defaults_to_exclusive() {
    let req = Request::new("play", args(&[("file_path", "/tmp/a.wav")]));
    let cmd = parse_command(&req);
    assert!(matches!(cmd, Command::Play { concurrent: false, .. }));
}

#[test]
fn play_errors_over_the_wire() {
    let mut eng = Engine::new();
    let out = run(
        &mut eng,
        Request::new("play", args(&[("file_path", "/tmp/nope.wav")])),
        &with_media(MediaProbe::Missing),
    );
    assert!(!out.response.status);
    assert_eq!(out.response.message, "File does not exist");
    let out2 = run(
        &mut eng,
        Request::new("play", args(&[("file_path", "/tmp/not-audio.txt")])),
        &with_media(MediaProbe::Unreadable),
    );
    assert_eq!(out2.response.message, "Failed to decode file");
    assert!(eng.get_tracks().is_empty());
}

#[test]
fn volume_math_via_full_state() {
    let mut eng = Engine::new();
    let p1 = MediaProbe::Decoded { duration_ms: None, seekable: true };
    run(
        &mut eng,
        Request::new("play", args(&[("file_path", "/tmp/a.wav"), ("concurrent", "true")])),
        &with_media(p1),
    );
    let p2 = MediaProbe::Decoded { duration_ms: None, seekable: true };
    run(
        &mut eng,
        Request::new("play", args(&[("file_path", "/tmp/b.wav"), ("concurrent", "true")])),
        &with_media(p2),
    );
    let out_master = run(
        &mut eng,
        Request::new("set_volume", args(&[("volume", "0.5")])),
        &no_io(),
    );
    assert!(out_master.response.status);
    assert_eq!(out_master.response.message, "Audio volume was set to 0.5");
    assert_eq!(out_master.gains, vec![(1, 500), (2, 500)]);
    let out_track = run(
        &mut eng,
        Request::new("set_volume", args(&[("volume", "0.25"), ("id", "2")])),
        &no_io(),
    );
    assert_eq!(out_track.gains, vec![(2, 125)]);
    let out_state = run(&mut eng, Request::get_full_state(), &no_io());
    let v: serde_json::Value = serde_json::from_str(&out_state.response.message).expect("JSON");
    assert_eq!(v["master_volume"], 0.5);
    assert_eq!(v["tracks"][1]["id"], 2);
    assert_eq!(v["tracks"][1]["volume"], 0.25);
    assert_eq!(v["state"], "Playing");
    assert_eq!(v["current_input_name"], serde_json::Value::Null);
}

#[test]
fn kill_confirms_then_exits() {
    let mut eng = Engine::new();
    let out = run(&mut eng, Request::kill(), &no_io());
    assert!(out.response.status);
    assert_eq!(out.response.message, "killed");
    assert!(out.exit);
}

#[test]
fn invalid_arguments_name_the_argument() {
    let mut eng = Engine::new();
    let cases: Vec<(Request, &str)> = vec![
        (Request::new("set_volume", Vec::new()), "Invalid volume value"),
        (Request::new("set_volume", args(&[("volume", "loud")])), "Invalid volume value"),
        (Request::new("seek", args(&[("position", "x")])), "Invalid position value"),
        (Request::new("seek", Vec::new()), "Invalid position value"),
        (Request::new("pause", args(&[("id", "one")])), "Invalid id value"),
        (Request::new("play", Vec::new()), "Invalid file path"),
        (
            Request::new("play", args(&[("file_path", "/a"), ("concurrent", "yes")])),
            "Invalid concurrent value",
        ),
        (Request::new("set_loop", args(&[("enabled", "maybe")])), "Invalid enabled value"),
        (Request::new("set_loop", Vec::new()), "Invalid enabled value"),
        (Request::new("set_input", Vec::new()), "Invalid input name"),
    ];
    for (req, msg) in cases {
        let out = run(&mut eng, req, &no_io());
        assert!(!out.response.status);
        assert_eq!(out.response.message, msg);
    }
}

#[test]
fn state_and_paused_render_as_documents() {
    let mut eng = Engine::new();
    let out = run(&mut eng, Request::get_state(), &no_io());
    assert_eq!(out.response.message, "\"Stopped\"");
    let probe = MediaProbe::Decoded { duration_ms: None, seekable: true };
    run(
        &mut eng,
        Request::new("play", args(&[("file_path", "/tmp/a.wav")])),
        &with_media(probe),
    );
    let out2 = run(&mut eng, Request::get_state(), &no_io());
    assert_eq!(out2.response.message, "\"Playing\"");
    let out3 = run(&mut eng, Request::get_is_paused(), &no_io());
    assert_eq!(out3.response.message, "false");
    run(&mut eng, Request::pause(), &no_io());
    let out4 = run(&mut eng, Request::get_is_paused(), &no_io());
    assert_eq!(out4.response.message, "true");
}

#[test]
fn get_tracks_lists_in_id_order() {
    let mut eng = Engine::new();
    let p1 = MediaProbe::Decoded { duration_ms: Some(2500), seekable: true };
    run(
        &mut eng,
        Request::new("play", args(&[("file_path", "/tmp/a.wav"), ("concurrent", "true")])),
        &with_media(p1),
    );
    let p2 = MediaProbe::Decoded { duration_ms: None, seekable: true };
    run(
        &mut eng,
        Request::new("play", args(&[("file_path", "/tmp/b.wav"), ("concurrent", "true")])),
        &with_media(p2),
    );
    let out = run(&mut eng, Request::get_tracks(), &no_io());
    let v: serde_json::Value = serde_json::from_str(&out.response.message).expect("JSON");
    let items = v.as_array().expect("array");
    assert_eq!(items.len(), 2);
    assert_eq!(items[0]["id"], 1);
    assert_eq!(items[0]["duration"], 2.5);
    assert_eq!(items[1]["id"], 2);
    assert_eq!(items[1]["duration"], serde_json::Value::Null);
    assert_eq!(items[1]["path"], "/tmp/b.wav");
    assert_eq!(items[1]["looped"], false);
}

#[test]
fn getters_answer_in_seconds() {
    let mut eng = Engine::new();
    let probe = MediaProbe::Decoded { duration_ms: Some(10000), seekable: true };
    run(
        &mut eng,
        Request::new("play", args(&[("file_path", "/tmp/a.wav")])),
        &with_media(probe),
    );
    let out = run(&mut eng, Request::new("seek", args(&[("position", "2.5")])), &no_io());
    assert!(out.response.status);
    assert_eq!(out.response.message, "Audio position was set to 2.5");
    assert_eq!(out.seeks, vec![(1, 2500)]);
    let pos = run(&mut eng, Request::get_position(), &no_io());
    assert_eq!(pos.response.message, "2.5");
    let dur = run(&mut eng, Request::get_duration(), &no_io());
    assert_eq!(dur.response.message, "10");
}

#[test]
fn duration_failures_over_the_wire() {
    let mut eng = Engine::new();
    let out = run(&mut eng, Request::get_duration(), &no_io());
    assert!(!out.response.status);
    assert_eq!(out.response.message, "Nothing is playing right now");
    let probe = MediaProbe::Decoded { duration_ms: None, seekable: true };
    run(
        &mut eng,
        Request::new("play", args(&[("file_path", "/tmp/a.wav")])),
        &with_media(probe),
    );
    let out2 = run(&mut eng, Request::get_duration(), &no_io());
    assert_eq!(out2.response.message, "Couldn't determine duration for current file");
}

#[test]
fn current_file_path_over_the_wire() {
    let mut eng = Engine::new();
    let out = run(&mut eng, Request::get_current_file_path(), &no_io());
    assert!(!out.response.status);
    assert_eq!(out.response.message, "No file is playing");
    let probe = MediaProbe::Decoded { duration_ms: None, seekable: true };
    run(
        &mut eng,
        Request::new("play", args(&[("file_path", "/tmp/a.wav")])),
        &with_media(probe),
    );
    let out2 = run(&mut eng, Request::get_current_file_path(), &no_io());
    assert!(out2.response.status);
    assert_eq!(out2.response.message, "/tmp/a.wav");
}

#[test]
fn set_input_flows() {
    let mut eng = Engine::new();
    let out_unavailable = run(&mut eng, Request::set_input("mic0"), &no_io());
    assert!(!out_unavailable.response.status);
    assert_eq!(out_unavailable.response.message, "Audio graph is unavailable");
    let devices = vec![
        device(40, "mic0", "Front Mic", DeviceType::Input),
        device(41, "speakers", "Speakers", DeviceType::Output),
    ];
    let ctx = CommandContext { media: MediaProbe::Missing, devices: Some(devices) };
    let out_missing = run(&mut eng, Request::set_input("mic9"), &ctx);
    assert_eq!(out_missing.response.message, "Device not found");
    let out_wrong = run(&mut eng, Request::set_input("speakers"), &ctx);
    assert_eq!(out_wrong.response.message, "Selected device is not an input device");
    assert_eq!(eng.current_input_name, None);
    let out_ok = run(&mut eng, Request::set_input("mic0"), &ctx);
    assert!(out_ok.response.status);
    assert_eq!(out_ok.response.message, "Input device was set");
    assert!(out_ok.relink);
    assert_eq!(eng.current_input_name, Some("mic0".to_string()));
    let out_get = run(&mut eng, Request::get_input(), &ctx);
    assert_eq!(out_get.response.message, "mic0");
}

#[test]
fn get_inputs_lists_devices_without_the_virtual_mic() {
    let mut eng = Engine::new();
    let devices = vec![
        device(40, "mic0", "Front Mic", DeviceType::Input),
        device(41, "pwsp-virtual-mic", "PWSP Virtual Mic", DeviceType::Input),
        device(42, "mic1", "USB Mic", DeviceType::Input),
        device(43, "stream", "Stream", DeviceType::Output),
    ];
    let ctx = CommandContext { media: MediaProbe::Missing, devices: Some(devices) };
    let out = run(&mut eng, Request::get_inputs(), &ctx);
    assert!(out.response.status);
    assert_eq!(out.response.message, "mic0 - Front Mic; mic1 - USB Mic");
}

#[test]
fn get_daemon_version_answers() {
    let mut eng = Engine::new();
    let out = run(&mut eng, Request::new("get_daemon_version", Vec::new()), &no_io());
    assert!(out.response.status);
    assert_eq!(out.response.message, "0.1.0");
}

#[test]
fn stop_over_the_wire_reports_removed_sinks() {
    let mut eng = Engine::new();
    let probe = MediaProbe::Decoded { duration_ms: None, seekable: true };
    run(
        &mut eng,
        Request::new("play", args(&[("file_path", "/tmp/a.wav"), ("concurrent", "true")])),
        &with_media(probe),
    );
    let out = run(&mut eng, Request::stop(), &no_io());
    assert!(out.response.status);
    assert_eq!(out.response.message, "Audio was stopped");
    assert_eq!(out.removed, vec![1]);
    let out2 = run(
        &mut eng,
        Request::new("stop", args(&[("id", "5")])),
        &no_io(),
    );
    assert!(!out2.response.status);
    assert_eq!(out2.response.message, "Track not found");
}

#[test]
fn full_state_lists_all_inputs() {
    let mut eng = Engine::new();
    let devices = vec![
        device(40, "mic0", "Front Mic", DeviceType::Input),
        device(41, "pwsp-virtual-mic", "PWSP Virtual Mic", DeviceType::Input),
        device(42, "stream", "Stream", DeviceType::Output),
    ];
    let ctx = CommandContext { media: MediaProbe::Missing, devices: Some(devices) };
    run(&mut eng, Request::set_input("mic0"), &ctx);
    let out = run(&mut eng, Request::get_full_state(), &ctx);
    let v: serde_json::Value = serde_json::from_str(&out.response.message).expect("JSON");
    assert_eq!(v["current_input_name"], "mic0");
    assert_eq!(v["all_inputs"]["mic0"], "Front Mic");
    assert_eq!(v["all_inputs"].as_object().expect("object").len(), 1);
    assert_eq!(v["state"], "Stopped");
    assert_eq!(v["tracks"].as_array().expect("array").len(), 0);
}

#[test]
fn pause_resume_and_loops_over_the_wire() {
    let mut eng = Engine::new();
    let probe = MediaProbe::Decoded { duration_ms: None, seekable: true };
    run(
        &mut eng,
        Request::new("play", args(&[("file_path", "/tmp/a.wav")])),
        &with_media(probe),
    );
    let out = run(&mut eng, Request::pause(), &no_io());
    assert!(out.response.status);
    assert_eq!(out.response.message, "Audio was paused");
    let out2 = run(&mut eng, Request::resume(), &no_io());
    assert_eq!(out2.response.message, "Audio was resumed");
    let out3 = run(&mut eng, Request::toggle_pause(), &no_io());
    assert_eq!(out3.response.message, "Pause was toggled");
    assert!(eng.is_paused());
    let out4 = run(
        &mut eng,
        Request::new("set_loop", args(&[("enabled", "true")])),
        &no_io(),
    );
    assert_eq!(out4.response.message, "Loop was updated");
    assert!(eng.get_tracks()[0].looped);
    let out5 = run(&mut eng, Request::new("toggle_loop", Vec::new()), &no_io());
    assert_eq!(out5.response.message, "Loop was toggled");
    assert!(!eng.get_tracks()[0].looped);
    let out6 = run(&mut eng, Request::get_volume(), &no_io());
    assert_eq!(out6.response.message, "1");
}
