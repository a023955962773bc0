//! Device listings: the names of the devices that an audio host enumerated.
use vstd::prelude::*;

use crate::error::SystemAudioError;

verus! {

/// Which way audio flows through a device.
#[derive(PartialEq, Eq, Structural, Clone, Copy)]
pub enum DeviceType {
    Input,
    Output,
}

/// An audio device known by name.
pub struct AudioDevice {
    pub name: String,
    pub device_type: DeviceType,
}

impl AudioDevice {
    /// A device with the given name and direction.
    pub fn new(name: String, device_type: DeviceType) -> (res: Self)
        ensures
            res.name == name,
            res.device_type == device_type,
    {
        AudioDevice { name, device_type }
    }
}

/// The names of the devices whose name could be read, in enumeration order.
pub open spec fn resolved_names(names: Seq<Option<String>>) -> Seq<Seq<char>>
    decreases names.len(),
{
    if names.len() == 0 {
        Seq::empty()
    } else {
        let before = resolved_names(names.drop_last());
        match names.last() {
            Some(n) => before.push(n@),
            None => before,
        }
    }
}

/// The views of a list of strings.
pub open spec fn strings_view(v: Seq<String>) -> Seq<Seq<char>> {
    v.map_values(|s: String| s@)
}

/// The views of a list of devices.
pub open spec fn devices_view(v: Seq<AudioDevice>) -> Seq<(Seq<char>, DeviceType)> {
    v.map_values(|d: AudioDevice| (d.name@, d.device_type))
}

/// The names of the devices whose name could be read, in order.
fn resolved_device_names(names: Vec<Option<String>>) -> (res: Vec<String>)
    ensures
        strings_view(res@) == resolved_names(names@),
{
    let mut out: Vec<String> = Vec::new();
    let mut i: usize = 0;
    while i < names.len()
        invariant
            i <= names.len(),
            strings_view(out@) == resolved_names(names@.take(i as int)),
        decreases names.len() - i,
    {
        proof {
            assert(names@.take(i + 1).drop_last() =~= names@.take(i as int));
        }
        let ghost before = out@;
        match &names[i] {
            Some(name) => {
                out.push(name.clone());
                assert(strings_view(out@) =~= strings_view(before).push(name@));
            },
            None => {},
        }
        i = i + 1;
    }
    assert(names@.take(i as int) =~= names@);
    out
}

/// Reading the names of two runs of devices one after the other gives the names
/// of the first run followed by those of the second.
pub proof fn lemma_resolved_names_concat(a: Seq<Option<String>>, b: Seq<Option<String>>)
    ensures
        resolved_names(a + b) == resolved_names(a) + resolved_names(b),
    decreases b.len(),
{
    if b.len() == 0 {
        assert(a + b =~= a);
        assert(resolved_names(a) + resolved_names(b) =~= resolved_names(a));
    } else {
        let c = b.drop_last();
        assert((a + b).drop_last() =~= a + c);
        assert((a + b).last() == b.last());
        lemma_resolved_names_concat(a, c);
        match b.last() {
            Some(n) => {
                assert(resolved_names(a) + resolved_names(c).push(n@) =~= (resolved_names(a)
                    + resolved_names(c)).push(n@));
            },
            None => {},
        }
    }
}

/// One device gives its name where the name could be read, whatever the name
/// holds, and nothing where it could not.
pub proof fn lemma_resolved_names_single(entry: Option<String>)
    ensures
        resolved_names(seq![entry]) == match entry {
            Some(n) => seq![n@],
            None => Seq::<Seq<char>>::empty(),
        },
{
    let e = seq![entry];
    let none = Seq::<Option<String>>::empty();
    assert(e.drop_last() =~= none);
    assert(e.last() == entry);
    assert(resolved_names(none) == Seq::<Seq<char>>::empty());
    match entry {
        Some(n) => {
            assert(resolved_names(e) == resolved_names(none).push(n@));
            assert(Seq::<Seq<char>>::empty().push(n@) =~= seq![n@]);
        },
        None => {
            assert(resolved_names(e) == resolved_names(none));
        },
    }
}

/// Where every name could be read, the list is exactly those names, in order.
pub proof fn lemma_resolved_names_all_readable(names: Seq<Option<String>>)
    requires
        forall|i: int| 0 <= i < names.len() ==> (#[trigger] names[i]) is Some,
    ensures
        resolved_names(names).len() == names.len(),
        forall|i: int| 0 <= i < names.len() ==> #[trigger] resolved_names(names)[i] == names[i]->0@,
    decreases names.len(),
{
    if names.len() > 0 {
        let init = names.drop_last();
        assert forall|i: int| 0 <= i < init.len() implies (#[trigger] init[i]) is Some by {
            assert(init[i] == names[i]);
        }
        lemma_resolved_names_all_readable(init);
        assert(names[names.len() - 1] is Some);
        assert forall|i: int| 0 <= i < names.len() implies #[trigger] resolved_names(names)[i]
            == names[i]->0@ by {
            if i < init.len() {
                assert(init[i] == names[i]);
            }
        }
    }
}

/// The names of the output devices, from what enumerating them gave: for each
/// device, its name where it could be read. A failed enumeration is an error.
pub fn list_system_audio_devices(devices: Result<Vec<Option<String>>, String>) -> (res: Result<
    Vec<String>,
    SystemAudioError,
>)
    ensures
        match devices {
            Err(e) => res == Err::<Vec<String>, SystemAudioError>(
                SystemAudioError::OutputEnumerationFailed(e),
            ),
            Ok(names) => res matches Ok(v) && strings_view(v@) == resolved_names(names@),
        },
{
    match devices {
        Err(e) => Err(SystemAudioError::OutputEnumerationFailed(e)),
        Ok(names) => Ok(resolved_device_names(names)),
    }
}

/// Whether system audio may be captured: it may where the output devices could
/// be enumerated.
pub fn check_system_audio_permissions<T>(devices: &Result<T, String>) -> (res: bool)
    ensures
        res == devices is Ok,
{
    match devices {
        Ok(_) => true,
        Err(_) => false,
    }
}

/// The input devices, from what enumerating them gave: one device for each
/// device whose name could be read, in order. A failed enumeration is an error.
pub fn configure_linux_audio(devices: Result<Vec<Option<String>>, String>) -> (res: Result<
    Vec<AudioDevice>,
    SystemAudioError,
>)
    ensures
        match devices {
            Err(e) => res == Err::<Vec<AudioDevice>, SystemAudioError>(
                SystemAudioError::InputEnumerationFailed(e),
            ),
            Ok(names) => res matches Ok(v) && devices_view(v@) == resolved_names(names@).map_values(
                |n: Seq<char>| (n, DeviceType::Input),
            ),
        },
{
    match devices {
        Err(e) => Err(SystemAudioError::InputEnumerationFailed(e)),
        Ok(names) => {
            let found = resolved_device_names(names);
            let mut out: Vec<AudioDevice> = Vec::new();
            let mut i: usize = 0;
            while i < found.len()
                invariant
                    i <= found.len(),
                    devices_view(out@) == strings_view(found@).take(i as int).map_values(
                        |n: Seq<char>| (n, DeviceType::Input),
                    ),
                decreases found.len() - i,
            {
                let ghost before = out@;
                let device = AudioDevice::new(found[i].clone(), DeviceType::Input);
                out.push(device);
                assert(strings_view(found@)[i as int] == device.name@);
                assert(devices_view(out@) =~= devices_view(before).push((device.name@, DeviceType::Input)));
                assert(devices_view(out@) =~= strings_view(found@).take(i + 1).map_values(
                    |n: Seq<char>| (n, DeviceType::Input),
                ));
                i = i + 1;
            }
            assert(strings_view(found@).take(i as int) =~= strings_view(found@));
            Ok(out)
        },
    }
}

} // verus!
