//! The library's error type.
use vstd::prelude::*;

verus! {

broadcast use vstd::string::group_string_axioms;

/// Why system audio could not be listed, resolved or captured.
pub enum SystemAudioError {
    /// Output devices could not be enumerated; the host's own explanation.
    OutputEnumerationFailed(String),
    /// Input devices could not be enumerated; the host's own explanation.
    InputEnumerationFailed(String),
    /// This platform has no system audio capture.
    UnsupportedPlatform,
    /// `pactl` listed no sinks at all.
    NoSinks,
}

/// The text that describes `e`.
pub open spec fn error_text(e: SystemAudioError) -> Seq<char> {
    match e {
        SystemAudioError::OutputEnumerationFailed(detail) => "Failed to enumerate output devices: "@
            + detail@,
        SystemAudioError::InputEnumerationFailed(detail) => detail@,
        SystemAudioError::UnsupportedPlatform => "System audio capture not yet implemented for this platform"@,
        SystemAudioError::NoSinks => "pactl reported no sinks; is PulseAudio/PipeWire running?"@,
    }
}

impl SystemAudioError {
    /// The text that describes this error.
    pub fn message(&self) -> (res: String)
        ensures
            res@ == error_text(*self),
    {
        match self {
            SystemAudioError::OutputEnumerationFailed(detail) => {
                let mut text = String::from_str("Failed to enumerate output devices: ");
                text.append(detail.as_str());
                text
            },
            SystemAudioError::InputEnumerationFailed(detail) => detail.clone(),
            SystemAudioError::UnsupportedPlatform => String::from_str(
                "System audio capture not yet implemented for this platform",
            ),
            SystemAudioError::NoSinks => String::from_str(
                "pactl reported no sinks; is PulseAudio/PipeWire running?",
            ),
        }
    }
}

} // verus!
