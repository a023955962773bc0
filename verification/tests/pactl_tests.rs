use system_audio::pactl::{parse_pactl_sinks, PactlSink};

const TWO_SINKS: &str = "Sink #0
\tState: SUSPENDED
\tName: alsa_output.pci-0000_00_1f.3.analog-stereo
\tDescription: Built-in Audio Analog Stereo
\tDriver: PipeWire
\tMonitor Source: alsa_output.pci-0000_00_1f.3.analog-stereo.monitor
\tMute: no

Sink #57
\tState: RUNNING
\tName: bluez_output.AA_BB_CC_DD_EE_FF.1
\tDescription: WH-1000XM4
\tMonitor Source: bluez_output.AA_BB_CC_DD_EE_FF.1.monitor
";

fn triple(s: &PactlSink) -> (&str, &str, &str) {
    (s.name.as_str(), s.description.as_str(), s.monitor_source.as_str())
}

#[test]
fn parses_two_sinks_in_order() {
    let sinks = parse_pactl_sinks(TWO_SINKS);
    assert_eq!(sinks.len(), 2);
    assert_eq!(
        triple(&sinks[0]),
        (
            "alsa_output.pci-0000_00_1f.3.analog-stereo",
            "Built-in Audio Analog Stereo",
            "alsa_output.pci-0000_00_1f.3.analog-stereo.monitor"
        )
    );
    assert_eq!(
        triple(&sinks[1]),
        (
            "bluez_output.AA_BB_CC_DD_EE_FF.1",
            "WH-1000XM4",
            "bluez_output.AA_BB_CC_DD_EE_FF.1.monitor"
        )
    );
}

#[test]
fn empty_output_has_no_sinks() {
    assert!(parse_pactl_sinks("").is_empty());
    assert!(parse_pactl_sinks("\n\n   \n").is_empty());
}

#[test]
fn block_without_monitor_source_is_dropped() {
    let text = "Sink #1\n\tName: a\n\tDescription: A\nSink #2\n\tName: b\n\tMonitor Source: b.monitor\n";
    let sinks = parse_pactl_sinks(text);
    assert_eq!(sinks.len(), 1);
    assert_eq!(triple(&sinks[0]), ("b", "", "b.monitor"));
}

#[test]
fn block_without_name_is_dropped() {
    let text = "Sink #1\n\tDescription: A\n\tMonitor Source: a.monitor\n";
    assert!(parse_pactl_sinks(text).is_empty());
}

#[test]
fn missing_description_reads_as_empty() {
    let sinks = parse_pactl_sinks("Sink #3\nName: n\nMonitor Source: m");
    assert_eq!(sinks.len(), 1);
    assert_eq!(triple(&sinks[0]), ("n", "", "m"));
}

#[test]
fn fields_before_any_header_are_ignored() {
    let text = "Name: stray\nMonitor Source: stray.monitor\nSink #0\nName: real\nMonitor Source: real.monitor\n";
    let sinks = parse_pactl_sinks(text);
    assert_eq!(sinks.len(), 1);
    assert_eq!(triple(&sinks[0]), ("real", "", "real.monitor"));
}

#[test]
fn later_field_overrides_earlier_one() {
    let text = "Sink #0\nName: first\nName: second\nMonitor Source: m\n";
    let sinks = parse_pactl_sinks(text);
    assert_eq!(triple(&sinks[0]), ("second", "", "m"));
}

#[test]
fn crlf_and_surrounding_white_space_are_trimmed() {
    let text = "  Sink #0\r\n\t  Name: spaced out  \r\n Description:   Desc  \r\n\u{3000}Monitor Source: mon\u{a0}\r\n";
    let sinks = parse_pactl_sinks(text);
    assert_eq!(sinks.len(), 1);
    // Only the line is trimmed: the spaces after the label stay in the value.
    assert_eq!(triple(&sinks[0]), ("spaced out", "  Desc", "mon"));
}

#[test]
fn labels_are_case_sensitive_and_need_their_space() {
    let text = "Sink #0\nname: lower\nName:nospace\nName: ok\nmonitor source: x\nMonitor Source: y\n";
    let sinks = parse_pactl_sinks(text);
    assert_eq!(triple(&sinks[0]), ("ok", "", "y"));
}

#[test]
fn label_with_nothing_after_it_is_not_a_field() {
    // The trimmed line "Name:" no longer carries the label "Name: ".
    let sinks = parse_pactl_sinks("Sink #0\nName: \nMonitor Source: m\n");
    assert!(sinks.is_empty());
}

#[test]
fn unicode_descriptions_survive() {
    let sinks = parse_pactl_sinks("Sink #0\nName: x\nDescription: Haut-parleur intégré ♪\nMonitor Source: x.monitor");
    assert_eq!(sinks[0].description, "Haut-parleur intégré ♪");
}

#[test]
fn final_line_ending_is_optional() {
    let without = parse_pactl_sinks(TWO_SINKS.trim_end_matches('\n'));
    let with = parse_pactl_sinks(TWO_SINKS);
    let doubled = parse_pactl_sinks(&format!("{}\n", TWO_SINKS));
    let a: Vec<_> = without.iter().map(triple).collect();
    let b: Vec<_> = with.iter().map(triple).collect();
    let c: Vec<_> = doubled.iter().map(triple).collect();
    assert_eq!(a, b);
    assert_eq!(b, c);
}

#[test]
fn no_more_sinks_than_headers() {
    let text = "Sink #0\nName: a\nMonitor Source: a.m\nName: b\nMonitor Source: b.m\n";
    assert_eq!(parse_pactl_sinks(text).len(), 1);
}

#[test]
fn concatenated_listings_read_as_one() {
    let a = "Sink #0\nName: a\nMonitor Source: a.m\n";
    let b = "Sink #1\nName: b\nDescription: B\nMonitor Source: b.m\n";
    let joined = parse_pactl_sinks(&format!("{}{}", a, b));
    let mut apart: Vec<(String, String, String)> = Vec::new();
    for s in parse_pactl_sinks(a).iter().chain(parse_pactl_sinks(b).iter()) {
        apart.push((s.name.clone(), s.description.clone(), s.monitor_source.clone()));
    }
    let together: Vec<(String, String, String)> = joined
        .iter()
        .map(|s| (s.name.clone(), s.description.clone(), s.monitor_source.clone()))
        .collect();
    assert_eq!(together, apart);
    assert_eq!(together.len(), 2);
}

#[test]
fn padding_lines_with_blanks_changes_nothing() {
    let padded: String = TWO_SINKS.lines().map(|l| format!(" \t {} \t\n", l)).collect();
    let a: Vec<_> = parse_pactl_sinks(TWO_SINKS).iter().map(|s| (s.name.clone(), s.description.clone(), s.monitor_source.clone())).collect();
    let b: Vec<_> = parse_pactl_sinks(&padded).iter().map(|s| (s.name.clone(), s.description.clone(), s.monitor_source.clone())).collect();
    assert_eq!(a, b);
}
