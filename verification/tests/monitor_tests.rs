use system_audio::error::SystemAudioError;
use system_audio::monitor::{choose_monitor_source, resolve_monitor_source_from_output};
use system_audio::pactl::PactlSink;

fn sink(name: &str, description: &str, monitor: &str) -> PactlSink {
    PactlSink {
        name: name.to_string(),
        description: description.to_string(),
        monitor_source: monitor.to_string(),
    }
}

fn sample_sinks() -> Vec<PactlSink> {
    vec![
        sink("alsa_output.hdmi", "HDMI Output", "alsa_output.hdmi.monitor"),
        sink("alsa_output.analog", "Built-in Audio Analog Stereo", "alsa_output.analog.monitor"),
        sink("bluez_output.headset", "WH-1000XM4 Headphones", "bluez_output.headset.monitor"),
    ]
}

const LIST: &[u8] = b"Sink #0\n\tName: alsa_output.hdmi\n\tDescription: HDMI Output\n\tMonitor Source: alsa_output.hdmi.monitor\nSink #1\n\tName: alsa_output.analog\n\tDescription: Built-in Audio Analog Stereo\n\tMonitor Source: alsa_output.analog.monitor\n";

#[test]
fn exact_name_is_preferred() {
    let r = choose_monitor_source(&sample_sinks(), "alsa_output.analog", Some("bluez_output.headset"));
    assert_eq!(r.ok().unwrap(), "bluez_output.headset.monitor");
}

#[test]
fn exact_name_beats_description_match() {
    // "alsa_output.hdmi" occurs nowhere in a description, but a description
    // containing the requested text comes earlier than the exact name here.
    let sinks = vec![
        sink("first", "mentions target inside", "first.monitor"),
        sink("target", "other", "target.monitor"),
    ];
    let r = choose_monitor_source(&sinks, "first", Some("target"));
    assert_eq!(r.ok().unwrap(), "target.monitor");
}

#[test]
fn description_matches_without_regard_to_case() {
    let r = choose_monitor_source(&sample_sinks(), "alsa_output.hdmi", Some("BUILT-IN AUDIO"));
    assert_eq!(r.ok().unwrap(), "alsa_output.analog.monitor");
}

#[test]
fn unknown_request_falls_back_to_default_sink() {
    let r = choose_monitor_source(&sample_sinks(), "bluez_output.headset", Some("USB Mic"));
    assert_eq!(r.ok().unwrap(), "bluez_output.headset.monitor");
}

#[test]
fn no_request_uses_default_sink() {
    let r = choose_monitor_source(&sample_sinks(), "alsa_output.analog", None);
    assert_eq!(r.ok().unwrap(), "alsa_output.analog.monitor");
}

#[test]
fn unknown_default_falls_back_to_first_sink() {
    let r = choose_monitor_source(&sample_sinks(), "gone", None);
    assert_eq!(r.ok().unwrap(), "alsa_output.hdmi.monitor");
}

#[test]
fn no_sinks_is_an_error() {
    let r = choose_monitor_source(&Vec::new(), "alsa_output.analog", Some("alsa_output.analog"));
    match r {
        Err(e) => {
            assert!(matches!(e, SystemAudioError::NoSinks));
            assert_eq!(e.message(), "pactl reported no sinks; is PulseAudio/PipeWire running?");
        }
        Ok(_) => panic!("expected an error"),
    }
}

#[test]
fn resolves_from_command_output_with_trailing_newline() {
    let r = resolve_monitor_source_from_output(b"alsa_output.analog\n", LIST, None);
    assert_eq!(r.ok().unwrap(), "alsa_output.analog.monitor");
}

#[test]
fn resolves_requested_name_from_command_output() {
    let r = resolve_monitor_source_from_output(b"alsa_output.analog\n", LIST, Some("hdmi output"));
    assert_eq!(r.ok().unwrap(), "alsa_output.hdmi.monitor");
}

#[test]
fn invalid_utf8_in_default_sink_falls_back_to_first() {
    let r = resolve_monitor_source_from_output(b"alsa_output.analog\xff\n", LIST, None);
    assert_eq!(r.ok().unwrap(), "alsa_output.hdmi.monitor");
}

#[test]
fn empty_listing_is_an_error() {
    let r = resolve_monitor_source_from_output(b"alsa_output.analog\n", b"", None);
    assert!(matches!(r, Err(SystemAudioError::NoSinks)));
}

#[test]
fn lowercasing_is_unicode_aware() {
    let sinks = vec![
        sink("a", "plain", "a.monitor"),
        sink("b", "Écouteurs ÉLÉGANTS", "b.monitor"),
    ];
    let r = choose_monitor_source(&sinks, "a", Some("ÉLÉGANTS"));
    assert_eq!(r.ok().unwrap(), "b.monitor");
}

use system_audio::monitor::{choose_monitor, resolve_monitor_from_output, MonitorRule};

#[test]
fn rule_exact_name() {
    let c = choose_monitor(&sample_sinks(), "alsa_output.hdmi", Some("alsa_output.analog")).ok().unwrap();
    assert!(c.rule == MonitorRule::ExactName);
    assert_eq!(c.monitor_source, "alsa_output.analog.monitor");
    assert_eq!(c.description, "Built-in Audio Analog Stereo");
}

#[test]
fn rule_description_match() {
    let c = choose_monitor(&sample_sinks(), "alsa_output.hdmi", Some("wh-1000")).ok().unwrap();
    assert!(c.rule == MonitorRule::DescriptionMatch);
    assert_eq!(c.description, "WH-1000XM4 Headphones");
}

#[test]
fn rule_default_sink() {
    let c = choose_monitor(&sample_sinks(), "alsa_output.analog", Some("nothing like it")).ok().unwrap();
    assert!(c.rule == MonitorRule::DefaultSink);
    assert_eq!(c.monitor_source, "alsa_output.analog.monitor");
}

#[test]
fn rule_first_sink() {
    let c = choose_monitor(&sample_sinks(), "unknown", None).ok().unwrap();
    assert!(c.rule == MonitorRule::FirstSink);
    assert_eq!(c.monitor_source, "alsa_output.hdmi.monitor");
}

#[test]
fn resolve_reports_rule() {
    let c = resolve_monitor_from_output(b"alsa_output.analog\n", LIST, Some("HDMI")).ok().unwrap();
    assert!(c.rule == MonitorRule::DescriptionMatch);
    assert_eq!(c.monitor_source, "alsa_output.hdmi.monitor");
}
