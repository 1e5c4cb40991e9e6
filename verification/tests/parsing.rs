use audio_core::devices::{
    devices_json, dedup_adjacent, driver_mode, order_usb_first, parse_alsa_cards,
    parse_pactl_sinks, pw_sink_list, Device, DriverMode, PwSinkNode,
};
use audio_core::json::json_escape;
use audio_core::numtext::parse_mag_milli;
use audio_core::profile::{active_profile, card_of_output_node, is_pro_audio, switch_failed_text};
use audio_core::pwclient::{
    force_rate_value, parse_allowed_rates, parse_latency_micro_ms, rates_literal,
    select_stream_latency, PwStreamNode, SettingsReading,
};
use audio_core::snapshot::{
    build_snapshot_json, parse_hw_params, probe_json, probe_latency, snapshot_latency,
    status_running, LatencySource,
};
use audio_core::spectrum::mag_values;
use audio_core::strutil::bytes_contains;
use audio_core::tags::{depth_from_format, rate_depth_from_codec_text, tag_value, TagState};

fn cv(s: &str) -> Vec<char> {
    s.chars().collect()
}

fn sv(v: &[char]) -> String {
    v.iter().collect()
}

#[test]
fn allowed_rates_parse_dedups_and_sorts() {
    let r = parse_allowed_rates(&cv("48000, 44100, 44100,x,96000")).unwrap();
    assert_eq!(r, vec![44100, 48000, 96000]);
    assert_eq!(sv(&rates_literal(&r)), "[ 44100 48000 96000 ]");
}

#[test]
fn allowed_rates_parse_rejects_empty() {
    assert!(parse_allowed_rates(&cv("")).is_err());
    assert!(parse_allowed_rates(&cv("   ")).is_err());
    assert!(parse_allowed_rates(&cv("x, y,, -5, 0")).is_err());
    let err = parse_allowed_rates(&cv(" , ")).unwrap_err();
    assert_eq!(sv(&err), "empty allowed-rates");
}

#[test]
fn force_rate_value_clamps_to_zero() {
    assert_eq!(sv(&force_rate_value(48000)), "48000");
    assert_eq!(sv(&force_rate_value(0)), "0");
    assert_eq!(sv(&force_rate_value(-7)), "0");
}

#[test]
fn tag_value_extracts_and_unquotes() {
    let text = cv("taglist, audio-codec=(string)\"FLAC (Free Lossless Audio Codec)\", bitrate=(uint)320000;");
    let codec = tag_value(&text, &cv("audio-codec")).unwrap();
    assert_eq!(sv(&codec), "FLAC (Free Lossless Audio Codec)");
    let bitrate = tag_value(&text, &cv("bitrate")).unwrap();
    assert_eq!(sv(&bitrate), "320000");
    assert!(tag_value(&text, &cv("album")).is_none());
}

#[test]
fn tag_value_strips_type_annotation() {
    let text = cv("container-format=(string)Matroska, bitrate=(uint) 192000,");
    let v = tag_value(&text, &cv("bitrate")).unwrap();
    assert_eq!(sv(&v), "192000");
}

#[test]
fn codec_text_names_rate_and_depth() {
    let (r, d) = rate_depth_from_codec_text(&cv("FLAC, 44100 Hz, 16-bit"));
    assert_eq!(r, Some(44100));
    assert_eq!(d, Some(16));
    let (r2, d2) = rate_depth_from_codec_text(&cv("MPEG-1 Layer 3 (MP3)"));
    assert_eq!(r2, None);
    assert_eq!(d2, None);
    let (r3, d3) = rate_depth_from_codec_text(&cv("PCM 96000 hz 24 bit"));
    assert_eq!(r3, Some(96000));
    assert_eq!(d3, Some(24));
}

#[test]
fn format_names_carry_depth() {
    assert_eq!(depth_from_format(&cv("S24LE")), Some(24));
    assert_eq!(depth_from_format(&cv("s24_32le")), Some(24));
    assert_eq!(depth_from_format(&cv("F32LE")), Some(32));
    assert_eq!(depth_from_format(&cv("FLOAT")), None);
}

#[test]
fn change_gate_notifies_once() {
    let mut st = TagState::new();
    let c1 = st.apply_update(Some(cv("FLAC")), Some(320), Some(44100), Some(16));
    assert!(c1);
    let c2 = st.apply_update(Some(cv("FLAC")), Some(320), Some(44100), Some(16));
    assert!(!c2);
    let c3 = st.apply_update(Some(cv("FLAC")), Some(320), Some(48000), Some(16));
    assert!(c3);
    assert_eq!(st.rate, 48000);
    assert_eq!(st.bitrate, 320);
    assert_eq!(sv(&st.codec), "FLAC");
    let c4 = st.apply_update(None, None, None, None);
    assert!(!c4);
    // Unknown fields never overwrite known-good values.
    let c5 = st.apply_update(Some(cv("")), Some(0), Some(-1), None);
    assert!(!c5);
    assert_eq!(st.rate, 48000);
}

#[test]
fn magnitude_tokens_parse_to_milli_units() {
    assert_eq!(parse_mag_milli(&cv("-23.5"), 0, 5), Some(-23500));
    assert_eq!(parse_mag_milli(&cv("0.1234"), 0, 6), Some(123));
    assert_eq!(parse_mag_milli(&cv("+7"), 0, 2), Some(7000));
    assert_eq!(parse_mag_milli(&cv("-"), 0, 1), None);
    assert_eq!(parse_mag_milli(&cv("1.2.3"), 0, 5), None);
}

#[test]
fn magnitude_tokens_accept_exponent_notation() {
    assert_eq!(parse_mag_milli(&cv("1e3"), 0, 3), Some(1_000_000));
    assert_eq!(parse_mag_milli(&cv("1.5e2"), 0, 5), Some(150_000));
    assert_eq!(parse_mag_milli(&cv("1e+2"), 0, 4), Some(100_000));
    assert_eq!(parse_mag_milli(&cv("2e-3"), 0, 4), Some(2));
    assert_eq!(parse_mag_milli(&cv("-6.25e1"), 0, 7), Some(-62_500));
    // Truncation toward zero below a thousandth.
    assert_eq!(parse_mag_milli(&cv("0.0001"), 0, 6), Some(0));
    assert_eq!(parse_mag_milli(&cv("1e-300"), 0, 6), Some(0));
    // Out of range, or malformed suffixes.
    assert_eq!(parse_mag_milli(&cv("1e300"), 0, 5), None);
    assert_eq!(parse_mag_milli(&cv("1e"), 0, 2), None);
    assert_eq!(parse_mag_milli(&cv("1e9999"), 0, 6), None);
}

#[test]
fn magnitude_block_values_in_order() {
    let vals = mag_values(&cv(" -60.000000, -57.25, junk, -40 "));
    assert_eq!(vals, vec![-60000, -57250, -40000]);
    let with_exp = mag_values(&cv("-1e1, -4.5e-1, 1e999"));
    assert_eq!(with_exp, vec![-10000, -450]);
}

#[test]
fn latency_text_parses_fraction_and_plain() {
    assert_eq!(parse_latency_micro_ms(&cv("256/48000")), Some(5_333_333));
    assert_eq!(parse_latency_micro_ms(&cv(" 1024/44100 ")), Some(23_219_954));
    assert_eq!(parse_latency_micro_ms(&cv("12.5")), Some(12_500_000));
    assert_eq!(parse_latency_micro_ms(&cv("")), None);
    assert_eq!(parse_latency_micro_ms(&cv("10/0")), None);
    assert_eq!(parse_latency_micro_ms(&cv("-4")), None);
}

#[test]
fn stream_latency_prefers_exact_pid_match() {
    let mk = |pid: &str, bin: &str, name: &str, lat: &str| PwStreamNode {
        media_class: cv("Stream/Output/Audio"),
        app_pid: cv(pid),
        app_bin: cv(bin),
        app_name: cv(name),
        latency: cv(lat),
    };
    let nodes = vec![
        mk("10", "mpv", "mpv", "480/48000"),
        mk("77", "firefox", "Firefox", "512/48000"),
    ];
    // No pid match: the first candidate stream is the fallback.
    assert_eq!(select_stream_latency(&nodes, &cv("99")), Some(10_000_000));
    // Exact pid match wins over the fallback.
    assert_eq!(select_stream_latency(&nodes, &cv("77")), Some(10_666_666));
    // The wrapped-runtime heuristic matches a python binary.
    let nodes2 = vec![mk("10", "mpv", "mpv", "480/48000"), mk("55", "python3", "app", "96/48000")];
    assert_eq!(select_stream_latency(&nodes2, &cv("99")), Some(2_000_000));
    // An exact pid match is never overridden by a later heuristic match.
    let nodes3 = vec![mk("42", "myplayer", "app", "480/48000"), mk("55", "python3", "x", "96/48000")];
    assert_eq!(select_stream_latency(&nodes3, &cv("42")), Some(10_000_000));
    // Among several pid matches the last wins.
    let nodes4 = vec![mk("42", "a", "a", "480/48000"), mk("42", "b", "b", "96/48000")];
    assert_eq!(select_stream_latency(&nodes4, &cv("42")), Some(2_000_000));
    assert_eq!(select_stream_latency(&Vec::new(), &cv("1")), None);
}

#[test]
fn settings_reading_accumulates_clock_keys() {
    let mut s = SettingsReading::new();
    s.apply_property(&cv("clock.force-rate"), &cv(" 96000 "));
    s.apply_property(&cv("clock.quantum"), &cv("1024"));
    s.apply_property(&cv("clock.rate"), &cv("48000"));
    s.apply_property(&cv("clock.allowed-rates"), &cv("[ 44100 48000 ]"));
    s.apply_property(&cv("clock.min-quantum"), &cv("32"));
    assert_eq!(s.force_rate, 96000);
    assert_eq!(s.quantum, 1024);
    assert_eq!(s.rate, 48000);
    assert_eq!(sv(&s.allowed_raw), "[ 44100 48000 ]");
    s.apply_property(&cv("clock.force-rate"), &cv("-2"));
    assert_eq!(s.force_rate, 0);
    s.apply_property(&cv("clock.force-rate"), &cv("bogus"));
    assert_eq!(s.force_rate, 0);
}

#[test]
fn alsa_cards_parse_and_order_usb_first() {
    let text = cv(
        " 0 [PCH            ]: HDA-Intel - HDA Intel PCH\n                      HDA Intel PCH at 0xf7f30000\n 1 [Headset        ]: USB-Audio - Plantronics USB Headset\n                      Plantronics at usb-0000:00:14.0-3\n",
    );
    let cards = parse_alsa_cards(&text);
    assert_eq!(cards.len(), 2);
    assert_eq!(sv(&cards[0].name), "Plantronics USB Headset (Card 1)");
    assert_eq!(sv(cards[0].device_id.as_ref().unwrap()), "hw:1,0");
    assert_eq!(sv(&cards[1].name), "HDA Intel PCH (Card 0)");
    assert_eq!(sv(cards[1].device_id.as_ref().unwrap()), "hw:0,0");
    // Enumeration is order-stable: the same text lists the same order again.
    let again = parse_alsa_cards(&text);
    assert_eq!(cards.len(), again.len());
    for (a, b) in cards.iter().zip(again.iter()) {
        assert_eq!(a.name, b.name);
        assert_eq!(a.device_id, b.device_id);
    }
}

#[test]
fn pactl_sink_listing_parses_blocks() {
    let text = cv(
        "Sink #43\n\tState: RUNNING\n\tName: alsa_output.usb-Focusrite.analog-stereo\n\tDescription: Scarlett 2i2\n\nSink #44\n\tName: alsa_output.pci.analog-stereo.monitor\n",
    );
    let sinks = parse_pactl_sinks(&text);
    assert_eq!(sinks.len(), 1);
    assert_eq!(sv(&sinks[0].name), "Scarlett 2i2");
    assert_eq!(
        sv(sinks[0].device_id.as_ref().unwrap()),
        "alsa_output.usb-Focusrite.analog-stereo"
    );
}

#[test]
fn pw_sink_list_filters_and_orders() {
    let node = |mc: &str, name: &str, desc: Option<&str>| PwSinkNode {
        media_class: Some(cv(mc)),
        node_name: Some(cv(name)),
        node_description: desc.map(cv),
        device_description: None,
        node_nick: None,
    };
    let nodes = vec![
        node("Audio/Sink", "alsa_output.pci.analog-stereo", Some("Built-in Audio")),
        node("Stream/Output/Audio", "some-stream", Some("A stream")),
        node("Audio/Sink", "alsa_output.usb-Foo.analog-stereo", Some("USB DAC")),
        node("Audio/Sink", "alsa_output.pci.analog-stereo.monitor", Some("Monitor")),
        node("Audio/Sink", "alsa_output.usb-Foo.analog-stereo", Some("USB DAC")),
    ];
    let sinks = pw_sink_list(&nodes);
    assert_eq!(sinks.len(), 2);
    assert_eq!(sv(&sinks[0].name), "USB DAC");
    assert_eq!(sv(&sinks[1].name), "Built-in Audio");
}

#[test]
fn usb_order_is_stable_within_groups() {
    let dev = |n: &str| Device { name: cv(n), device_id: None };
    let list = vec![dev("B Card"), dev("USB One"), dev("A Card"), dev("USB Two")];
    let ordered = order_usb_first(&list, true);
    let names: Vec<String> = ordered.iter().map(|d| sv(&d.name)).collect();
    assert_eq!(names, vec!["USB One", "USB Two", "B Card", "A Card"]);
    let deduped = dedup_adjacent(&ordered);
    assert_eq!(deduped.len(), 4);
}

#[test]
fn driver_names_select_backends() {
    assert_eq!(driver_mode(&cv("Auto (Default)")), DriverMode::AutoMode);
    assert_eq!(driver_mode(&cv(" aUtO ")), DriverMode::AutoMode);
    assert_eq!(driver_mode(&cv("PipeWire")), DriverMode::PipewireMode);
    assert_eq!(driver_mode(&cv("PulseAudio")), DriverMode::PulseMode);
    assert_eq!(driver_mode(&cv("ALSA")), DriverMode::AlsaMode);
    assert_eq!(driver_mode(&cv("OSS")), DriverMode::UnknownMode);
}

#[test]
fn devices_render_as_json() {
    let list = vec![
        Device { name: cv("Default Output"), device_id: None },
        Device { name: cv("USB \"DAC\""), device_id: Some(cv("hw:1,0")) },
    ];
    assert_eq!(
        sv(&devices_json(&list)),
        "[{\"name\":\"Default Output\",\"device_id\":null},{\"name\":\"USB \\\"DAC\\\"\",\"device_id\":\"hw:1,0\"}]"
    );
}

#[test]
fn json_escape_handles_specials() {
    assert_eq!(sv(&json_escape(&cv("a\"b\\c\nd\te"))), "a\\\"b\\\\c\\nd\\te");
    assert_eq!(sv(&json_escape(&cv("\u{1}x"))), " x");
}

#[test]
fn latency_probe_prefers_bounded_max() {
    let (ns, src) = probe_latency(Some((1_000_000, 250_000_000)), Some(10_000), Some(100_000));
    assert_eq!(ns, 250_000_000);
    assert_eq!(src, LatencySource::QueryMax);
    // A max above the sanity ceiling falls back to the min bound.
    let (ns2, src2) = probe_latency(Some((1_000_000, 9_000_000_000)), None, None);
    assert_eq!(ns2, 1_000_000);
    assert_eq!(src2, LatencySource::QueryMin);
    // No usable query answer: the sink's configured timing.
    let (ns3, src3) = probe_latency(Some((0, 0)), Some(10_000), Some(100_000));
    assert_eq!(ns3, 10_000_000);
    assert_eq!(src3, LatencySource::SinkLatencyTime);
    let (ns4, src4) = probe_latency(None, None, Some(100_000));
    assert_eq!(ns4, 100_000_000);
    assert_eq!(src4, LatencySource::SinkBufferTime);
    let (ns5, src5) = probe_latency(None, None, None);
    assert_eq!(ns5, 0);
    assert_eq!(src5, LatencySource::NoSource);
}

#[test]
fn probe_report_prints_seconds() {
    assert_eq!(
        sv(&probe_json(250_000_000, LatencySource::QueryMax)),
        "{\"latency_s\":0.25,\"source\":\"gst-query-max\"}"
    );
    assert_eq!(
        sv(&probe_json(0, LatencySource::NoSource)),
        "{\"latency_s\":0,\"source\":\"none\"}"
    );
}

#[test]
fn hw_params_report_rate_and_depth() {
    let text = cv("access: MMAP_INTERLEAVED\nformat: S32_LE\nrate: 96000 (96000/1)\nchannels: 2\n");
    let (rate, depth) = parse_hw_params(&text);
    assert_eq!(rate, Some(96000));
    assert_eq!(depth, Some(32));
    assert!(status_running(&cv("state: RUNNING\nowner_pid: 123\n")));
    assert!(!status_running(&cv("closed\n")));
}

#[test]
fn snapshot_json_merges_all_parts() {
    let mut s = SettingsReading::new();
    s.apply_property(&cv("clock.force-rate"), &cv("0"));
    s.apply_property(&cv("clock.quantum"), &cv("1024"));
    s.apply_property(&cv("clock.rate"), &cv("48000"));
    s.apply_property(&cv("clock.allowed-rates"), &cv("[ 44100 48000 ]"));
    let lat = snapshot_latency(None, s.quantum, s.rate);
    assert_eq!(lat, Some(21_333_333));
    let mut tags = TagState::new();
    tags.apply_update(Some(cv("FLAC")), Some(320), None, Some(16));
    let json = build_snapshot_json(&s, lat, Some(48000), Some(24), None, None, &tags, 44100, 0);
    assert_eq!(
        sv(&json),
        "{\"pipewire-class\":{\"force_rate\":0,\"quantum\":1024,\"rate\":48000,\"latency_ms\":21.333333,\"allowed_rates_raw\":\"[ 44100 48000 ]\"},\"output\":{\"session_rate\":48000,\"session_depth\":24,\"hardware_rate\":0,\"hardware_depth\":0},\"source\":{\"codec\":\"FLAC\",\"bitrate\":320,\"rate\":44100,\"depth\":16}}"
    );
}

#[test]
fn card_derivation_strips_port_suffixes() {
    let card = card_of_output_node(&cv("alsa_output.usb-Focusrite_2i2-00.analog-stereo")).unwrap();
    assert_eq!(sv(&card), "alsa_card.usb-Focusrite_2i2-00");
    let card2 = card_of_output_node(&cv("alsa_output.pci-0000.pro-output-0")).unwrap();
    assert_eq!(sv(&card2), "alsa_card.pci-0000");
    assert!(card_of_output_node(&cv("bluez_output.foo")).is_none());
    assert!(card_of_output_node(&cv("alsa_output.")).is_none());
}

#[test]
fn active_profile_scan_matches_card() {
    let text = cv(
        "Card #1\n\tName: alsa_card.pci\n\tActive Profile: output:analog-stereo\nCard #2\n\tName: alsa_card.usb\n\tActive Profile: pro-audio\n",
    );
    let p = active_profile(&text, &cv("alsa_card.usb")).unwrap();
    assert_eq!(sv(&p), "pro-audio");
    assert!(is_pro_audio(&p));
    let q = active_profile(&text, &cv("alsa_card.pci")).unwrap();
    assert!(!is_pro_audio(&q));
    assert!(active_profile(&text, &cv("alsa_card.none")).is_none());
    assert_eq!(
        sv(&switch_failed_text(&cv("alsa_card.usb"), &cv("timeout"))),
        "failed to switch alsa_card.usb to pro-audio: timeout"
    );
}

#[test]
fn bytes_contains_finds_runs() {
    assert!(bytes_contains(b"hello world", b"lo wo"));
    assert!(bytes_contains(b"abc", b""));
    assert!(!bytes_contains(b"abc", b"abcd"));
    assert!(!bytes_contains(b"abc", b"ac"));
    assert!(bytes_contains(b"aaab", b"aab"));
}
