use audio_core::engine::{BusMessage, Engine, EngineEvent};
use audio_core::output::{
    output_switched_text, plan_output, pw_configured_text, quantum_for_buffer, restore_target,
    sink_fail, PlayState, SinkPlan, UNSUPPORTED_DRIVER_CODE,
};
use audio_core::ring::BANDS_MAX;
use audio_core::spectrum::FrameTimes;

fn cv(s: &str) -> Vec<char> {
    s.chars().collect()
}

fn sv(v: &[char]) -> String {
    v.iter().collect()
}

fn no_times() -> FrameTimes {
    FrameTimes { endtime_ns: None, running_ns: None, stream_ns: None, ts_ns: None }
}

fn spectrum_msg(body: &str) -> BusMessage {
    BusMessage::Element {
        name: cv("spectrum"),
        body: cv(body),
        times: FrameTimes {
            endtime_ns: Some(1_500_000_000),
            running_ns: None,
            stream_ns: None,
            ts_ns: None,
        },
        msg_ts_ns: None,
        query_pos_ns: None,
    }
}

#[test]
fn poll_reports_playing_then_frames_flow() {
    let mut e = Engine::new();
    e.set_uri(cv("file:///tmp/track.flac"));
    assert!(e.check_play().is_none());
    let msgs = vec![
        BusMessage::StateChanged { from_pipeline: true, state: cv("Playing") },
        spectrum_msg("spectrum, magnitude (float) { -60.25, -48.5, -12 };"),
        spectrum_msg("spectrum, magnitude (float) { -59, -47.75, -11.5 };"),
    ];
    let (events, processed, _probe) = e.pump(msgs);
    assert_eq!(processed, 3);
    let mut saw_playing = false;
    for ev in &events {
        if let EngineEvent::State(t) = ev {
            if sv(t) == "Playing" {
                saw_playing = true;
            }
        }
    }
    assert!(saw_playing);
    let frames = e.pull_frames(0, 1000, BANDS_MAX);
    assert!(frames.len() >= 1);
    assert_eq!(frames.len(), 2);
    assert!(frames[0].seq > 0);
    assert!(frames[0].bands.len() > 0);
    assert_eq!(frames[0].bands, vec![-60250, -48500, -12000]);
    assert_eq!(frames[0].pos_ns, 1_500_000_000);
    assert_eq!(frames[1].seq, frames[0].seq + 1);
}

#[test]
fn eos_and_error_messages_become_events() {
    let mut e = Engine::new();
    let msgs = vec![
        BusMessage::Eos,
        BusMessage::ErrorMsg(cv("decode failed (no-debug)")),
        BusMessage::StateChanged { from_pipeline: false, state: cv("Paused") },
    ];
    let (events, processed, _probe) = e.pump(msgs);
    assert_eq!(processed, 3);
    // Per-child state noise is suppressed; EOS and the error pass through.
    assert_eq!(events.len(), 2);
    assert_eq!(events[0].code(), 3);
    assert_eq!(events[1].code(), 2);
    match &events[1] {
        EngineEvent::Error(t) => assert_eq!(sv(t), "decode failed (no-debug)"),
        _ => panic!("expected an error event"),
    }
    assert_eq!(sv(&e.last_error_text()), "decode failed (no-debug)");
}

#[test]
fn tag_messages_latch_and_notify_once() {
    let mut e = Engine::new();
    let tag = BusMessage::TagMsg(cv(
        "taglist, audio-codec=(string)\"FLAC\", bitrate=(uint)900000, comment=(string)\"44100 Hz, 16-bit\";",
    ));
    let (events, _n, _p) = e.pump(vec![tag]);
    let tags: Vec<String> = events
        .iter()
        .filter_map(|ev| match ev {
            EngineEvent::Tag(t) => Some(sv(t)),
            _ => None,
        })
        .collect();
    assert_eq!(tags.len(), 1);
    assert_eq!(tags[0], "codec=FLAC;bitrate=900000");
    // The same tags again change nothing, so no second notification.
    let tag2 = BusMessage::TagMsg(cv(
        "taglist, audio-codec=(string)\"FLAC\", bitrate=(uint)900000, comment=(string)\"44100 Hz, 16-bit\";",
    ));
    let (events2, _n2, _p2) = e.pump(vec![tag2]);
    assert!(events2.iter().all(|ev| !matches!(ev, EngineEvent::Tag(_))));
    // The source format was re-derived from the codec description.
    assert_eq!(e.source_rate, 44100);
    assert_eq!(e.source_depth, 16);
}

#[test]
fn output_format_probe_is_change_gated() {
    let mut e = Engine::new();
    let first = e.note_output_format(Some(48000), Some(24));
    assert!(first.is_some());
    match first.unwrap() {
        EngineEvent::Tag(t) => assert_eq!(sv(&t), "rate=48000;depth=24"),
        _ => panic!("expected a tag event"),
    }
    let second = e.note_output_format(Some(48000), Some(24));
    assert!(second.is_none());
    let third = e.note_output_format(Some(96000), None);
    assert!(third.is_some());
    match third.unwrap() {
        EngineEvent::Tag(t) => assert_eq!(sv(&t), "rate=96000;depth=24"),
        _ => panic!("expected a tag event"),
    }
}

#[test]
fn every_tenth_poll_asks_for_a_probe() {
    let mut e = Engine::new();
    let mut due: u32 = 0;
    for _ in 0..20 {
        let (_evs, _n, probe) = e.pump(Vec::new());
        if probe {
            due += 1;
        }
    }
    assert_eq!(due, 2);
}

#[test]
fn play_without_source_is_refused() {
    let mut e = Engine::new();
    let ev = e.check_play();
    assert!(ev.is_some());
    match ev.unwrap() {
        EngineEvent::Error(t) => assert_eq!(sv(&t), "rac_play: empty uri"),
        _ => panic!("expected an error event"),
    }
    assert_eq!(sv(&e.last_error_text()), "rac_play: empty uri");
}

#[test]
fn source_swap_resets_latched_metadata() {
    let mut e = Engine::new();
    let tag = BusMessage::TagMsg(cv("audio-codec=(string)OPUS, bitrate=(uint)96000;"));
    let _ = e.pump(vec![tag]);
    assert_eq!(sv(&e.tags.codec), "OPUS");
    e.set_uri(cv("file:///tmp/next.opus"));
    assert_eq!(e.tags.codec.len(), 0);
    assert_eq!(e.tags.bitrate, 0);
    assert_eq!(e.source_rate, 0);
    assert_eq!(sv(&e.uri), "file:///tmp/next.opus");
}

#[test]
fn disabled_capture_drops_history_but_not_ids() {
    let mut e = Engine::new();
    let _ = e.pump(vec![spectrum_msg("magnitude (float) { -10 };")]);
    assert_eq!(e.pull_frames(0, 10, BANDS_MAX).len(), 1);
    e.set_spectrum_enabled(false);
    assert_eq!(e.pull_frames(0, 10, BANDS_MAX).len(), 0);
    let _ = e.pump(vec![spectrum_msg("magnitude (float) { -11 };")]);
    assert_eq!(e.pull_frames(0, 10, BANDS_MAX).len(), 0);
    e.set_spectrum_enabled(true);
    let _ = e.pump(vec![spectrum_msg("magnitude (float) { -12 };")]);
    let frames = e.pull_frames(0, 10, BANDS_MAX);
    assert_eq!(frames.len(), 1);
    assert_eq!(frames[0].seq, 2);
}

#[test]
fn pump_handles_at_most_the_bound() {
    let mut e = Engine::new();
    let mut msgs: Vec<BusMessage> = Vec::new();
    for _ in 0..140 {
        msgs.push(BusMessage::Eos);
    }
    let (events, processed, _p) = e.pump(msgs);
    assert_eq!(processed, 128);
    assert_eq!(events.len(), 128);
}

#[test]
fn quantum_snaps_to_the_ladder() {
    // 100 ms at 48 kHz is 4800 samples, nearest ladder step 4096.
    assert_eq!(quantum_for_buffer(100_000), 4096);
    assert_eq!(quantum_for_buffer(0), 4096);
    // 1 ms is 48 samples: nearest is 256, clamped up to 512.
    assert_eq!(quantum_for_buffer(1_000), 512);
    assert_eq!(quantum_for_buffer(21_000), 1024);
    assert_eq!(quantum_for_buffer(1_000_000), 8192);
}

#[test]
fn output_plans_follow_driver_names() {
    match plan_output(&cv("PipeWire"), &Some(cv(" dac ")), 100_000, 10_000, false).unwrap() {
        SinkPlan::Pipewire { device, quantum } => {
            assert_eq!(sv(device.as_ref().unwrap()), "dac");
            assert_eq!(quantum, 4096);
        },
        _ => panic!("expected the low-latency-server sink"),
    }
    match plan_output(&cv("alsa"), &None, 0, 0, true).unwrap() {
        SinkPlan::Alsa { device, buffer_time_us, latency_time_us, slave_none } => {
            assert!(device.is_none());
            assert_eq!(buffer_time_us, 100_000);
            assert_eq!(latency_time_us, 10_000);
            assert!(slave_none);
        },
        _ => panic!("expected the kernel-driver sink"),
    }
    match plan_output(&cv(""), &None, 0, 0, false).unwrap() {
        SinkPlan::Auto => {},
        _ => panic!("expected the automatic sink"),
    }
    let err = plan_output(&cv("jack"), &None, 0, 0, false).unwrap_err();
    assert_eq!(sv(&err), "unsupported driver: jack");
    assert_eq!(UNSUPPORTED_DRIVER_CODE, -14);
}

#[test]
fn sink_failures_carry_codes_and_texts() {
    let (c, t) = sink_fail(&SinkPlan::Pipewire { device: None, quantum: 1024 });
    assert_eq!(c, -11);
    assert_eq!(sv(&t), "pipewiresink unavailable");
    let (c2, t2) = sink_fail(&SinkPlan::Auto);
    assert_eq!(c2, -15);
    assert_eq!(sv(&t2), "failed to create audio sink");
}

#[test]
fn attach_restores_prior_transport_state() {
    assert_eq!(restore_target(PlayState::Playing), PlayState::Playing);
    assert_eq!(restore_target(PlayState::Paused), PlayState::Paused);
    assert_eq!(restore_target(PlayState::Ready), PlayState::Null);
    assert_eq!(restore_target(PlayState::Null), PlayState::Null);
}

#[test]
fn output_event_texts_are_exact() {
    assert_eq!(
        sv(&pw_configured_text(&Some(cv("dac")), 2048)),
        "pipewire-sink configured target=dac autoconnect=true latency=2048"
    );
    assert_eq!(
        sv(&output_switched_text(&cv("ALSA"), &None)),
        "output-switched driver=ALSA device=default"
    );
}

#[test]
fn state_change_outcomes_map_to_codes() {
    let mut e = Engine::new();
    let (code, ev) = e.state_change_outcome(true, cv("Paused"), cv(""));
    assert_eq!(code, 0);
    match ev {
        EngineEvent::State(t) => assert_eq!(sv(&t), "Paused"),
        _ => panic!("expected a state event"),
    }
    let (code2, ev2) = e.state_change_outcome(false, cv(""), cv("set_state failed: x"));
    assert_eq!(code2, -4);
    match ev2 {
        EngineEvent::Error(t) => assert_eq!(sv(&t), "set_state failed: x"),
        _ => panic!("expected an error event"),
    }
    assert_eq!(sv(&e.last_error_text()), "set_state failed: x");
}

#[test]
fn timestamp_resolution_prefers_structure_times() {
    let mut e = Engine::new();
    let msg = BusMessage::Element {
        name: cv("spectrum"),
        body: cv("magnitude (float) { -5 };"),
        times: no_times(),
        msg_ts_ns: None,
        query_pos_ns: Some(777),
    };
    let _ = e.pump(vec![msg]);
    let frames = e.pull_frames(0, 10, BANDS_MAX);
    assert_eq!(frames[0].pos_ns, 777);
    // With no source at all, the previous frame's timestamp is kept.
    let msg2 = BusMessage::Element {
        name: cv("spectrum"),
        body: cv("magnitude (float) { -6 };"),
        times: no_times(),
        msg_ts_ns: None,
        query_pos_ns: None,
    };
    let _ = e.pump(vec![msg2]);
    let frames2 = e.pull_frames(0, 10, BANDS_MAX);
    assert_eq!(frames2[1].pos_ns, 777);
}

#[test]
fn empty_or_missing_magnitudes_drop_the_frame() {
    let mut e = Engine::new();
    let msgs = vec![
        spectrum_msg("spectrum message without the key"),
        spectrum_msg("magnitude (float) {  };"),
        BusMessage::Element {
            name: cv("level"),
            body: cv("magnitude (float) { -3 };"),
            times: no_times(),
            msg_ts_ns: None,
            query_pos_ns: None,
        },
    ];
    let _ = e.pump(msgs);
    assert_eq!(e.pull_frames(0, 100, BANDS_MAX).len(), 0);
}
