# system_audio

Verified logic behind system-audio capture on a desktop meeting recorder.

- `src/pactl.rs` reads the block output of `pactl list sinks` into sink records.
- `src/monitor.rs` chooses the PulseAudio/PipeWire monitor source to record from, and says which rule chose it.
- `src/devices.rs` turns what an audio host enumerated into device lists.
- `src/chunker.rs` groups a sample stream into fixed-size chunks and decides each step of forwarding them.
- `src/text.rs` holds the line, white-space, prefix and substring handling they share.
- `src/error.rs` is the library's error type and its messages.

`app/` holds what talks to the machine: the audio host, the `pactl` commands,
the PulseAudio recording thread and the asynchronous sample stream.
