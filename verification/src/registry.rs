//! The machines this build can drive, and how a device attached to one is named.
use vstd::prelude::*;
use crate::locator::{locator_text, parse_locator_spec, Locator, LocatorView};
use crate::ports::{PortId, PortIdView};
use crate::text::{chars_equal, chars_of, push_chars};
use crate::transport::{DeviceInfo, DeviceInfoView, TransportKind, TransportKindView};

verus! {

/// One machine this build can drive: its id, and whether it connects over serial (so that an
/// operator can name its port).
#[derive(Clone, Copy, Debug)]
pub struct MachineEntry {
    pub id: &'static str,
    pub serial: bool,
}

/// The machine table, as ids and serial flags, in its fixed order.
pub open spec fn machine_table() -> Seq<(Seq<char>, bool)> {
    seq![("cameo5"@, false), ("puma"@, true)]
}

/// Every machine this build can drive: the Cameo 5 over USB, the Puma over serial.
pub fn machines() -> (r: Vec<MachineEntry>)
    ensures
        r@.len() == machine_table().len(),
        forall|i: int|
            0 <= i < r@.len() ==> (#[trigger] r@[i]).id@ == machine_table()[i].0 && r@[i].serial
                == machine_table()[i].1,
{
    let mut r = Vec::new();
    r.push(MachineEntry { id: "cameo5", serial: false });
    r.push(MachineEntry { id: "puma", serial: true });
    r
}

/// The machines a caller can offer as a choice, in a stable order.
pub fn machine_ids() -> (r: Vec<&'static str>)
    ensures
        r@.len() == machine_table().len(),
        forall|i: int| 0 <= i < r@.len() ==> (#[trigger] r@[i])@ == machine_table()[i].0,
{
    let table = machines();
    let mut r: Vec<&'static str> = Vec::new();
    let mut i: usize = 0;
    while i < table.len()
        invariant
            i <= table@.len(),
            table@.len() == machine_table().len(),
            forall|k: int|
                0 <= k < table@.len() ==> (#[trigger] table@[k]).id@ == machine_table()[k].0,
            r@.len() == i,
            forall|k: int| 0 <= k < i ==> (#[trigger] r@[k])@ == machine_table()[k].0,
        decreases table@.len() - i,
    {
        r.push(table[i].id);
        i = i + 1;
    }
    r
}

/// Whether an operator can name a port for `machine_id`: true for a known machine that connects
/// over serial.
pub open spec fn takes_a_named_port_spec(machine_id: Seq<char>) -> bool {
    exists|i: int|
        0 <= i < machine_table().len() && (#[trigger] machine_table()[i]).0 == machine_id
            && machine_table()[i].1
}

/// Whether naming a port for `machine_id` means anything.
pub fn takes_a_named_port(machine_id: &str) -> (r: bool)
    ensures
        r == takes_a_named_port_spec(machine_id@),
{
    let table = machines();
    let want = chars_of(machine_id);
    let mut i: usize = 0;
    while i < table.len()
        invariant
            i <= table@.len(),
            table@.len() == machine_table().len(),
            want@ == machine_id@,
            forall|k: int|
                0 <= k < table@.len() ==> (#[trigger] table@[k]).id@ == machine_table()[k].0
                    && table@[k].serial == machine_table()[k].1,
            forall|k: int|
                0 <= k < i ==> !((#[trigger] machine_table()[k]).0 == machine_id@
                    && machine_table()[k].1),
        decreases table@.len() - i,
    {
        let e = table[i];
        if e.serial && chars_equal(&chars_of(e.id), &want) {
            assert(machine_table()[i as int].0 == machine_id@ && machine_table()[i as int].1);
            return true;
        }
        i = i + 1;
    }
    false
}

/// The device an operator names at `path`: a serial candidate named by its socket, for a
/// machine that speaks serial; none for any other machine.
pub open spec fn device_at_port_spec(machine_id: Seq<char>, path: Seq<char>, baud: u32) -> Option<DeviceInfoView> {
    if takes_a_named_port_spec(machine_id) {
        Some(
            DeviceInfoView {
                instance_id: "serial:at:"@ + path,
                machine_id,
                transport: TransportKindView::Serial { path, baud },
                candidate: true,
            },
        )
    } else {
        None
    }
}

/// The device an operator names with `--port`, or none if that machine cannot be named that
/// way.
pub fn device_at_port(machine_id: &str, path: &str, baud: u32) -> (r: Option<DeviceInfo>)
    ensures
        match r {
            Some(d) => device_at_port_spec(machine_id@, path@, baud) == Some(d@),
            None => device_at_port_spec(machine_id@, path@, baud) is None,
        },
{
    if !takes_a_named_port(machine_id) {
        return None;
    }
    let mut instance_id = String::new();
    instance_id.append("serial:at:");
    instance_id.append(path);
    let mut mid = String::new();
    mid.append(machine_id);
    let mut p = String::new();
    p.append(path);
    Some(
        DeviceInfo {
            instance_id,
            machine_id: mid,
            transport: TransportKind::Serial { path: p, baud },
            candidate: true,
        },
    )
}

/// A USB device's instance id: `usb:sn:<serial>` when its locator names it by serial number,
/// else `usb:at:<locator>`, which promises only the socket.
pub open spec fn usb_instance_id_spec(locator: Seq<char>) -> Seq<char> {
    match parse_locator_spec(locator) {
        Some(l) if l is Serial => "usb:"@ + locator_text(l),
        _ => "usb:at:"@ + locator,
    }
}

/// A USB device's instance id.
pub fn usb_instance_id(locator: &str) -> (r: String)
    ensures
        r@ == usb_instance_id_spec(locator@),
{
    let mut r = String::new();
    match Locator::parse_text(locator) {
        Some(l) => {
            if l.is_stable() {
                r.append("usb:");
                let t = l.to_text();
                r.append(t.as_str());
                return r;
            }
        },
        None => {},
    }
    r.append("usb:at:");
    r.append(locator);
    r
}

/// A serial port's instance id: `serial:sn:<serial>` when the adapter reports a serial number,
/// else `serial:at:<path>`.
pub open spec fn serial_instance_id_spec(port: PortIdView) -> Seq<char> {
    match port.serial_number {
        Some(sn) => "serial:sn:"@ + sn,
        None => "serial:at:"@ + port.path,
    }
}

/// A serial port's instance id.
pub fn serial_instance_id(port: &PortId) -> (r: String)
    ensures
        r@ == serial_instance_id_spec(port@),
{
    let mut r = String::new();
    match &port.serial_number {
        Some(sn) => {
            r.append("serial:sn:");
            r.append(sn.as_str());
        },
        None => {
            r.append("serial:at:");
            r.append(port.path.as_str());
        },
    }
    r
}

/// The Cameo found at a USB locator: named by `usb_instance_id`, and no candidate, since USB
/// is matched on vendor and product id.
pub open spec fn cameo5_device(locator: Seq<char>) -> DeviceInfoView {
    DeviceInfoView {
        instance_id: usb_instance_id_spec(locator),
        machine_id: "cameo5"@,
        transport: TransportKindView::Usb { locator },
        candidate: false,
    }
}

/// The Puma that may be on a serial port: named by `serial_instance_id`, at 9600 baud, and a
/// candidate, since any serial port could be one.
pub open spec fn puma_device(port: PortIdView) -> DeviceInfoView {
    DeviceInfoView {
        instance_id: serial_instance_id_spec(port),
        machine_id: "puma"@,
        transport: TransportKindView::Serial { path: port.path, baud: 9600 },
        candidate: true,
    }
}

/// Devices, each as values.
pub open spec fn devices_view(s: Seq<DeviceInfo>) -> Seq<DeviceInfoView> {
    s.map_values(|d: DeviceInfo| d@)
}

/// The Cameos at the USB locators the OS listed, in order.
pub fn cameo5_devices(locators: Vec<String>) -> (r: Vec<DeviceInfo>)
    ensures
        devices_view(r@) == locators@.map_values(|l: String| cameo5_device(l@)),
{
    let mut r: Vec<DeviceInfo> = Vec::new();
    let mut i: usize = 0;
    while i < locators.len()
        invariant
            i <= locators.len(),
            devices_view(r@) == locators@.take(i as int).map_values(|l: String| cameo5_device(l@)),
        decreases locators.len() - i,
    {
        let locator = locators[i].clone();
        let instance_id = usb_instance_id(locator.as_str());
        let ghost was = devices_view(r@);
        r.push(
            DeviceInfo {
                instance_id,
                machine_id: String::from_str("cameo5"),
                transport: TransportKind::Usb { locator },
                candidate: false,
            },
        );
        assert(devices_view(r@) =~= was.push(cameo5_device(locators@[i as int]@)));
        i = i + 1;
        assert(devices_view(r@) =~= locators@.take(i as int).map_values(|l: String| cameo5_device(l@)));
    }
    assert(locators@.take(locators.len() as int) =~= locators@);
    r
}

/// The Pumas that may be on the serial ports the OS listed, in order.
pub fn puma_devices(ports: Vec<PortId>) -> (r: Vec<DeviceInfo>)
    ensures
        devices_view(r@) == ports@.map_values(|p: PortId| puma_device(p@)),
{
    let mut r: Vec<DeviceInfo> = Vec::new();
    let mut i: usize = 0;
    while i < ports.len()
        invariant
            i <= ports.len(),
            devices_view(r@) == ports@.take(i as int).map_values(|p: PortId| puma_device(p@)),
        decreases ports.len() - i,
    {
        let port = &ports[i];
        let instance_id = serial_instance_id(port);
        let path = port.path.clone();
        let ghost was = devices_view(r@);
        r.push(
            DeviceInfo {
                instance_id,
                machine_id: String::from_str("puma"),
                transport: TransportKind::Serial { path, baud: 9600 },
                candidate: true,
            },
        );
        assert(devices_view(r@) =~= was.push(puma_device(ports@[i as int]@)));
        i = i + 1;
        assert(devices_view(r@) =~= ports@.take(i as int).map_values(|p: PortId| puma_device(p@)));
    }
    assert(ports@.take(ports.len() as int) =~= ports@);
    r
}

/// The devices of one machine among what the OS listed: the Cameos at the USB locators for
/// the Cameo, the Pumas that may be on the serial ports for the Puma, and none for a machine
/// this build does not drive.
pub fn enumerated_devices(machine_id: &str, locators: Vec<String>, ports: Vec<PortId>) -> (r: Vec<DeviceInfo>)
    ensures
        machine_id@ == "cameo5"@ ==> devices_view(r@) == locators@.map_values(|l: String| cameo5_device(l@)),
        machine_id@ == "puma"@ ==> devices_view(r@) == ports@.map_values(|p: PortId| puma_device(p@)),
        machine_id@ != "cameo5"@ && machine_id@ != "puma"@ ==> r@.len() == 0,
{
    proof {
        reveal_strlit("cameo5");
        reveal_strlit("puma");
        assert("cameo5"@.len() != "puma"@.len());
    }
    let id = chars_of(machine_id);
    let cameo = chars_of("cameo5");
    let puma = chars_of("puma");
    if chars_equal(&id, &cameo) {
        cameo5_devices(locators)
    } else if chars_equal(&id, &puma) {
        puma_devices(ports)
    } else {
        Vec::new()
    }
}

/// Enumerates attached USB and serial hardware and builds the driver for it; the hardware
/// access itself lives with the program that runs the device manager.
pub struct HardwareBackendFactory;

/// An id built from an identity never equals one built from a socket: a device named by its
/// serial number cannot be mistaken for one named by where it was found, on either transport.
pub proof fn lemma_identity_and_socket_ids_differ(loc1: Seq<char>, loc2: Seq<char>, p1: PortIdView, p2: PortIdView)
    requires
        parse_locator_spec(loc1) matches Some(l) && l is Serial,
        !(parse_locator_spec(loc2) matches Some(l) && l is Serial),
        p1.serial_number is Some,
        p2.serial_number is None,
    ensures
        usb_instance_id_spec(loc1) != usb_instance_id_spec(loc2),
        serial_instance_id_spec(p1) != serial_instance_id_spec(p2),
{
    reveal_strlit("usb:");
    reveal_strlit("usb:at:");
    reveal_strlit("sn:");
    reveal_strlit("serial:sn:");
    reveal_strlit("serial:at:");
    let a = usb_instance_id_spec(loc1);
    let b = usb_instance_id_spec(loc2);
    assert(a[4] == 's');
    assert(b[4] == 'a');
    let c = serial_instance_id_spec(p1);
    let d = serial_instance_id_spec(p2);
    assert(c[7] == 's');
    assert(d[7] == 'a');
}

/// An adapter's serial number names it wherever it is plugged in, and two adapters with
/// different serial numbers never share an id, even in the same socket.
pub proof fn lemma_serial_ids_follow_the_adapter(p1: PortIdView, p2: PortIdView)
    requires
        p1.serial_number is Some,
        p2.serial_number is Some,
    ensures
        (serial_instance_id_spec(p1) == serial_instance_id_spec(p2)) <==> (p1.serial_number
            == p2.serial_number),
{
    let pre = "serial:sn:"@;
    let a = serial_instance_id_spec(p1);
    let b = serial_instance_id_spec(p2);
    if a == b {
        assert(a.skip(pre.len() as int) =~= p1.serial_number->0);
        assert(b.skip(pre.len() as int) =~= p2.serial_number->0);
    }
}

} // verus!
