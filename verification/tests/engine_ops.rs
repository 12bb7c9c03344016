//! Engine state machine behaviour, exercised directly.

use pwsp::config::{apply_config, DaemonConfig};
use pwsp::engine::{Engine, EngineError, MediaProbe, PlayerState, SinkStatus};

fn decoded(duration_ms: Option<u64>) -> MediaProbe {
    MediaProbe::Decoded { duration_ms, seekable: true }
}

fn unseekable(duration_ms: Option<u64>) -> MediaProbe {
    MediaProbe::Decoded { duration_ms, seekable: false }
}

#[test]
fn exclusive_play_replaces_tracks() {
    let mut eng = Engine::new();
    let id1 = eng.play("/tmp/a.wav", false, &decoded(None)).expect("plays");
    assert_eq!(id1, 1);
    let id2 = eng.play("/tmp/b.wav", false, &decoded(None)).expect("plays");
    assert_eq!(id2, 2);
    assert_eq!(eng.get_tracks().len(), 1);
    assert_eq!(eng.get_tracks()[0].id, 2);
    assert!(eng.get_tracks()[0].path.ends_with("b.wav"));
}

#[test]
fn concurrent_play_mixes_tracks() {
    let mut eng = Engine::new();
    let id1 = eng.play("/tmp/a.wav", true, &decoded(None)).expect("plays");
    let id2 = eng.play("/tmp/b.wav", true, &decoded(None)).expect("plays");
    assert_eq!((id1, id2), (1, 2));
    let tracks = eng.get_tracks();
    assert_eq!(tracks.len(), 2);
    assert_eq!(tracks[0].id, 1);
    assert_eq!(tracks[1].id, 2);
}

#[test]
fn ids_are_never_reused() {
    let mut eng = Engine::new();
    let id1 = eng.play("/tmp/a.wav", true, &decoded(None)).expect("plays");
    eng.stop(None).expect("stops");
    let id2 = eng.play("/tmp/b.wav", true, &decoded(None)).expect("plays");
    let id3 = eng.play("/tmp/c.wav", false, &decoded(None)).expect("plays");
    assert!(id1 < id2 && id2 < id3);
}

#[test]
fn play_failures_change_nothing() {
    let mut eng = Engine::new();
    eng.play("/tmp/a.wav", true, &decoded(None)).expect("plays");
    assert_eq!(
        eng.play("/tmp/missing.wav", false, &MediaProbe::Missing),
        Err(EngineError::FileMissing)
    );
    assert_eq!(
        eng.play("/tmp/bad.txt", false, &MediaProbe::Unreadable),
        Err(EngineError::DecodeFailed)
    );
    assert_eq!(eng.get_tracks().len(), 1);
    assert_eq!(eng.next_id, 2);
}

#[test]
fn state_derivation_follows_the_rules() {
    let mut eng = Engine::new();
    assert_eq!(eng.get_state(), PlayerState::Stopped);
    assert!(!eng.is_paused());
    eng.play("/tmp/a.wav", true, &decoded(None)).expect("plays");
    assert_eq!(eng.get_state(), PlayerState::Playing);
    eng.pause(None).expect("pauses");
    assert_eq!(eng.get_state(), PlayerState::Paused);
    assert!(eng.is_paused());
    eng.play("/tmp/b.wav", true, &decoded(None)).expect("plays");
    assert_eq!(eng.get_state(), PlayerState::Playing);
    eng.stop(None).expect("stops");
    assert_eq!(eng.get_state(), PlayerState::Stopped);
}

#[test]
fn pause_then_resume_returns_to_playing() {
    let mut eng = Engine::new();
    let id = eng.play("/tmp/a.wav", true, &decoded(None)).expect("plays");
    eng.pause(Some(id)).expect("pauses");
    assert_eq!(eng.get_state(), PlayerState::Paused);
    eng.resume(Some(id)).expect("resumes");
    assert_eq!(eng.get_state(), PlayerState::Playing);
}

#[test]
fn pause_resume_refuse_unknown_ids() {
    let mut eng = Engine::new();
    eng.play("/tmp/a.wav", true, &decoded(None)).expect("plays");
    assert_eq!(eng.pause(Some(99)), Err(EngineError::TrackNotFound));
    assert_eq!(eng.resume(Some(99)), Err(EngineError::TrackNotFound));
    assert_eq!(eng.toggle_pause(Some(99)), Err(EngineError::TrackNotFound));
    assert_eq!(eng.get_state(), PlayerState::Playing);
}

#[test]
fn toggle_pause_examines_the_aggregate() {
    let mut eng = Engine::new();
    let id1 = eng.play("/tmp/a.wav", true, &decoded(None)).expect("plays");
    eng.play("/tmp/b.wav", true, &decoded(None)).expect("plays");
    eng.pause(Some(id1)).expect("pauses");
    // Mixed state counts as playing, so a bare toggle pauses everything.
    eng.toggle_pause(None).expect("toggles");
    assert_eq!(eng.get_state(), PlayerState::Paused);
    eng.toggle_pause(None).expect("toggles");
    assert_eq!(eng.get_state(), PlayerState::Playing);
    assert!(eng.get_tracks().iter().all(|t| !t.paused));
}

#[test]
fn volume_math_uses_thousandths() {
    let mut eng = Engine::new();
    eng.play("/tmp/a.wav", true, &decoded(None)).expect("plays");
    let id2 = eng.play("/tmp/b.wav", true, &decoded(None)).expect("plays");
    eng.set_volume(500, None).expect("sets master");
    let gains = eng.set_volume(250, Some(id2)).expect("sets track");
    assert_eq!(gains, vec![(id2, 125)]);
    let snap = eng.full_state(&None);
    assert_eq!(snap.master_volume, 500);
    assert_eq!(snap.tracks[1].volume, 250);
    assert_eq!(eng.sink_gains(), vec![(1, 500), (2, 125)]);
}

#[test]
fn master_volume_reapplies_to_every_sink() {
    let mut eng = Engine::new();
    eng.play("/tmp/a.wav", true, &decoded(None)).expect("plays");
    let id2 = eng.play("/tmp/b.wav", true, &decoded(None)).expect("plays");
    eng.set_volume(250, Some(id2)).expect("sets track");
    let gains = eng.set_volume(500, None).expect("sets master");
    assert_eq!(gains, vec![(1, 500), (2, 125)]);
}

#[test]
fn volumes_clamp_to_unit_gain() {
    let mut eng = Engine::new();
    let id = eng.play("/tmp/a.wav", true, &decoded(None)).expect("plays");
    eng.set_volume(5000, Some(id)).expect("sets track");
    assert_eq!(eng.get_tracks()[0].volume, 1000);
    eng.set_volume(9999, None).expect("sets master");
    assert_eq!(eng.get_volume(), 1000);
}

#[test]
fn seek_clamps_and_saturates() {
    let mut eng = Engine::new();
    let id = eng.play("/tmp/a.wav", true, &decoded(Some(10000))).expect("plays");
    let out = eng.seek(99000, Some(id)).expect("seeks");
    assert!(out.all_supported);
    assert_eq!(out.applied, vec![(id, 10000)]);
    assert_eq!(eng.get_position(Some(id)), Ok(10000));
    let out2 = eng.seek(2500, None).expect("seeks");
    assert_eq!(out2.applied, vec![(id, 2500)]);
    assert_eq!(eng.get_position(None), Ok(2500));
}

#[test]
fn seek_reports_unsupported_tracks() {
    let mut eng = Engine::new();
    let id1 = eng.play("/tmp/a.wav", true, &unseekable(None)).expect("plays");
    let id2 = eng.play("/tmp/b.wav", true, &decoded(None)).expect("plays");
    let out = eng.seek(1000, None).expect("seeks");
    assert!(!out.all_supported);
    assert_eq!(out.applied, vec![(id2, 1000)]);
    assert_eq!(eng.get_position(Some(id1)), Ok(0));
    assert!(matches!(eng.seek(5, Some(77)), Err(EngineError::TrackNotFound)));
}

#[test]
fn duration_errors_are_distinct() {
    let mut eng = Engine::new();
    assert_eq!(eng.get_duration(None), Err(EngineError::NoTrack));
    let id1 = eng.play("/tmp/a.wav", true, &decoded(None)).expect("plays");
    assert_eq!(eng.get_duration(None), Err(EngineError::DurationUnknown));
    let id2 = eng.play("/tmp/b.wav", true, &decoded(Some(2500))).expect("plays");
    assert_eq!(eng.get_duration(None), Ok(2500));
    assert_eq!(eng.get_duration(Some(id2)), Ok(2500));
    assert_eq!(eng.get_duration(Some(id1)), Err(EngineError::DurationUnknown));
    assert_eq!(eng.get_duration(Some(9)), Err(EngineError::TrackNotFound));
}

#[test]
fn stop_reports_dropped_sinks() {
    let mut eng = Engine::new();
    let id1 = eng.play("/tmp/a.wav", true, &decoded(None)).expect("plays");
    let id2 = eng.play("/tmp/b.wav", true, &decoded(None)).expect("plays");
    let removed = eng.stop(Some(id1)).expect("stops");
    assert_eq!(removed, vec![id1]);
    assert_eq!(eng.get_tracks().len(), 1);
    let removed_all = eng.stop(None).expect("stops");
    assert_eq!(removed_all, vec![id2]);
    assert!(eng.get_tracks().is_empty());
}

#[test]
fn update_restarts_looped_and_reaps_drained() {
    let mut eng = Engine::new();
    let id1 = eng.play("/tmp/a.wav", true, &decoded(None)).expect("plays");
    let id2 = eng.play("/tmp/b.wav", true, &decoded(None)).expect("plays");
    let id3 = eng.play("/tmp/c.wav", true, &decoded(None)).expect("plays");
    eng.set_loop(true, Some(id1)).expect("loops");
    let status: Vec<SinkStatus> = vec![
        SinkStatus { id: id1, drained: true, position_ms: 0 },
        SinkStatus { id: id2, drained: true, position_ms: 0 },
        SinkStatus { id: id3, drained: false, position_ms: 750 },
    ];
    let out = eng.update(&status);
    assert_eq!(out.restarted, vec![id1]);
    assert_eq!(out.removed, vec![id2]);
    let tracks = eng.get_tracks();
    assert_eq!(tracks.len(), 2);
    assert_eq!(tracks[0].id, id1);
    assert_eq!(tracks[0].position_ms, 0);
    assert_eq!(tracks[1].id, id3);
    assert_eq!(tracks[1].position_ms, 750);
}

#[test]
fn update_keeps_unreported_tracks() {
    let mut eng = Engine::new();
    let id = eng.play("/tmp/a.wav", true, &decoded(None)).expect("plays");
    let out = eng.update(&Vec::new());
    assert!(out.restarted.is_empty() && out.removed.is_empty());
    assert_eq!(eng.get_tracks()[0].id, id);
}

#[test]
fn loop_flags_toggle_per_track() {
    let mut eng = Engine::new();
    let id1 = eng.play("/tmp/a.wav", true, &decoded(None)).expect("plays");
    eng.play("/tmp/b.wav", true, &decoded(None)).expect("plays");
    eng.set_loop(true, Some(id1)).expect("loops");
    eng.toggle_loop(None).expect("toggles");
    let tracks = eng.get_tracks();
    assert!(!tracks[0].looped);
    assert!(tracks[1].looped);
    assert_eq!(eng.set_loop(true, Some(42)), Err(EngineError::TrackNotFound));
    assert_eq!(eng.toggle_loop(Some(42)), Err(EngineError::TrackNotFound));
}

#[test]
fn newest_track_answers_scalar_getters() {
    let mut eng = Engine::new();
    assert_eq!(eng.get_position(None), Ok(0));
    assert_eq!(eng.get_current_file_path(), None);
    eng.play("/tmp/a.wav", true, &decoded(None)).expect("plays");
    eng.play("/tmp/b.wav", true, &decoded(None)).expect("plays");
    assert_eq!(eng.get_current_file_path(), Some("/tmp/b.wav".to_string()));
}

#[test]
fn config_defaults_apply_to_a_fresh_engine() {
    let mut eng = Engine::new();
    let cfg = DaemonConfig {
        default_input_name: Some("mic0".to_string()),
        default_volume: Some(5000),
    };
    apply_config(&mut eng, &cfg);
    assert_eq!(eng.master_volume, 1000);
    assert_eq!(eng.current_input_name, Some("mic0".to_string()));
    let bare = DaemonConfig::default();
    apply_config(&mut eng, &bare);
    assert_eq!(eng.master_volume, 1000);
    assert_eq!(eng.current_input_name, None);
}

#[test]
fn ended_tracks_do_not_come_back() {
    let mut eng = Engine::new();
    let id = eng.play("/tmp/a.wav", true, &decoded(None)).expect("plays");
    let status: Vec<SinkStatus> = vec![SinkStatus { id, drained: true, position_ms: 0 }];
    let out = eng.update(&status);
    assert_eq!(out.removed, vec![id]);
    // The track ended and was reaped: pause/resume cannot revive it.
    eng.pause(None).expect("pauses nothing");
    eng.resume(None).expect("resumes nothing");
    assert_eq!(eng.get_state(), PlayerState::Stopped);
    assert!(matches!(eng.resume(Some(id)), Err(EngineError::TrackNotFound)));
}
