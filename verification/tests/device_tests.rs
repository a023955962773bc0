use system_audio::devices::{
    check_system_audio_permissions, configure_linux_audio, list_system_audio_devices, AudioDevice,
    DeviceType,
};
use system_audio::error::SystemAudioError;

#[test]
fn lists_readable_names_in_order() {
    let found = vec![
        Some("Speakers".to_string()),
        None,
        Some("HDMI".to_string()),
        None,
        Some("Headphones".to_string()),
    ];
    let names = list_system_audio_devices(Ok(found)).ok().unwrap();
    assert_eq!(names, vec!["Speakers", "HDMI", "Headphones"]);
}

#[test]
fn lists_nothing_when_no_name_is_readable() {
    let names = list_system_audio_devices(Ok(vec![None, None])).ok().unwrap();
    assert!(names.is_empty());
}

#[test]
fn failed_output_enumeration_is_an_error() {
    match list_system_audio_devices(Err("backend unavailable".to_string())) {
        Err(e) => {
            assert!(matches!(e, SystemAudioError::OutputEnumerationFailed(_)));
            assert_eq!(e.message(), "Failed to enumerate output devices: backend unavailable");
        }
        Ok(_) => panic!("expected an error"),
    }
}

#[test]
fn permissions_follow_enumeration() {
    assert!(check_system_audio_permissions::<Vec<Option<String>>>(&Ok(vec![])));
    assert!(!check_system_audio_permissions::<Vec<Option<String>>>(&Err("denied".to_string())));
}

#[test]
fn input_devices_are_configured_as_inputs() {
    let devices = configure_linux_audio(Ok(vec![Some("Mic".to_string()), None, Some("Webcam".to_string())]))
        .ok()
        .unwrap();
    assert_eq!(devices.len(), 2);
    assert_eq!(devices[0].name, "Mic");
    assert!(devices[0].device_type == DeviceType::Input);
    assert_eq!(devices[1].name, "Webcam");
    assert!(devices[1].device_type == DeviceType::Input);
}

#[test]
fn failed_input_enumeration_keeps_the_host_text() {
    match configure_linux_audio(Err("no ALSA".to_string())) {
        Err(e) => {
            assert!(matches!(e, SystemAudioError::InputEnumerationFailed(_)));
            assert_eq!(e.message(), "no ALSA");
        }
        Ok(_) => panic!("expected an error"),
    }
}

#[test]
fn audio_device_new_keeps_its_fields() {
    let d = AudioDevice::new("Out".to_string(), DeviceType::Output);
    assert_eq!(d.name, "Out");
    assert!(d.device_type == DeviceType::Output);
}

#[test]
fn unsupported_platform_message() {
    assert_eq!(
        SystemAudioError::UnsupportedPlatform.message(),
        "System audio capture not yet implemented for this platform"
    );
}
