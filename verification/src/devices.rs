//! The inputs that can be recorded from.

use crate::pipelines::name_view;
use crate::seqs::first_index;
use crate::text::same;
use vstd::prelude::*;

verus! {

/// What is known about an input.
#[derive(Debug)]
pub struct AudioDeviceInfo {
    /// The name again: inputs have no other identifier that lasts.
    pub id: String,
    pub name: String,
    pub sample_rate: u32,
    pub channels: u16,
    pub is_default: bool,
}

/// An input as the system lists it. It may not give its name or its format.
#[derive(Debug)]
pub struct ListedDevice {
    pub name: Option<String>,
    /// Frames per second and channels.
    pub format: Option<(u32, u16)>,
}

impl ListedDevice {
    /// The input can be used.
    pub open spec fn usable(self) -> bool {
        self.name is Some && self.format is Some
    }
}

/// Describes an input.
pub open spec fn described(
    info: AudioDeviceInfo,
    device: ListedDevice,
    default_name: Option<Seq<char>>,
) -> bool {
    &&& info.id@ == device.name->0@
    &&& info.name@ == device.name->0@
    &&& info.sample_rate == (device.format->0).0
    &&& info.channels == (device.format->0).1
    &&& info.is_default == (default_name == Some(device.name->0@))
}

/// The inputs that can be used.
pub open spec fn usable_devices(devices: Seq<ListedDevice>) -> Seq<ListedDevice> {
    crate::seqs::filtered(devices, |d: ListedDevice| d.usable(), devices.len() as int)
}

/// Describes every input that can be used, in the order of the list.
pub fn list_input_devices(devices: &Vec<ListedDevice>, default_name: Option<&str>) -> (r: Vec<
    AudioDeviceInfo,
>)
    ensures
        r@.len() == usable_devices(devices@).len(),
        forall|i: int|
            0 <= i < r@.len() ==> described(
                #[trigger] r@[i],
                usable_devices(devices@)[i],
                crate::pipelines::str_view(default_name),
            ),
{
    let ghost p = |d: ListedDevice| d.usable();
    let ghost default = crate::pipelines::str_view(default_name);
    let mut out: Vec<AudioDeviceInfo> = Vec::new();
    let mut i: usize = 0;
    while i < devices.len()
        invariant
            i <= devices@.len(),
            p == (|d: ListedDevice| d.usable()),
            default == crate::pipelines::str_view(default_name),
            out@.len() == crate::seqs::filtered(devices@, p, i as int).len(),
            forall|k: int|
                0 <= k < out@.len() ==> described(
                    #[trigger] out@[k],
                    crate::seqs::filtered(devices@, p, i as int)[k],
                    default,
                ),
        decreases devices@.len() - i,
    {
        let ghost before = crate::seqs::filtered(devices@, p, i as int);
        match (&devices[i].name, &devices[i].format) {
            (Some(name), Some(format)) => {
                let is_default = match default_name {
                    Some(d) => same(d, name.as_str()),
                    None => false,
                };
                assert(crate::seqs::filtered(devices@, p, i as int + 1) == before.push(
                    devices@[i as int],
                ));
                out.push(
                    AudioDeviceInfo {
                        id: name.clone(),
                        name: name.clone(),
                        sample_rate: format.0,
                        channels: format.1,
                        is_default,
                    },
                );
            },
            _ => {},
        }
        i += 1;
    }
    out
}

/// The inputs with the name `name`.
pub open spec fn named(name: Seq<char>) -> spec_fn(ListedDevice) -> bool {
    |d: ListedDevice| name_view(d.name) == Some(name)
}

/// The first input with the name `name`.
pub fn get_device_by_name(devices: &Vec<ListedDevice>, name: &str) -> (r: Option<usize>)
    ensures
        match r {
            Some(i) => first_index(devices@, named(name@), 0) == Some(i as int),
            None => first_index(devices@, named(name@), 0) is None,
        },
{
    let mut i: usize = 0;
    while i < devices.len()
        invariant
            i <= devices@.len(),
            first_index(devices@, named(name@), 0) == first_index(
                devices@,
                named(name@),
                i as int,
            ),
        decreases devices@.len() - i,
    {
        let found = match &devices[i].name {
            Some(n) => same(n.as_str(), name),
            None => false,
        };
        if found {
            return Some(i);
        }
        i += 1;
    }
    None
}

/// An input can be used exactly if it gave its name and its format; every such input is
/// described, and no other.
pub proof fn law_usable(devices: Seq<ListedDevice>, d: ListedDevice)
    ensures
        usable_devices(devices).contains(d) <==> devices.contains(d) && d.name is Some && d.format
            is Some,
{
    let p = |x: ListedDevice| x.usable();
    crate::seqs::lemma_filtered(devices, p, devices.len() as int);
    let kept = usable_devices(devices);
    if kept.contains(d) {
        let k = choose|k: int| 0 <= k < kept.len() && kept[k] == d;
        assert(p(kept[k]));
        assert(devices.contains(kept[k]));
    }
    if devices.contains(d) && p(d) {
        let k = choose|k: int| 0 <= k < devices.len() && devices[k] == d;
        assert(kept.contains(devices[k]));
    }
}

/// An input is described by its own name and format, and is the default exactly if it has
/// the name of the default.
pub proof fn law_described(
    info: AudioDeviceInfo,
    device: ListedDevice,
    default_name: Option<Seq<char>>,
    name: String,
    rate: u32,
    channels: u16,
)
    requires
        described(info, device, default_name),
        device.name == Some(name),
        device.format == Some((rate, channels)),
    ensures
        info.id@ == name@ && info.name@ == name@,
        info.sample_rate == rate && info.channels == channels,
        info.is_default <==> default_name == Some(name@),
{
}

} // verus!
