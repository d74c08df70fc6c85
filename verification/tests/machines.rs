use cuthulhu::locator::{classify_transfer_failure, locator_for, Locator};
use cuthulhu::ports::{classify_serial_failure, port_is_present, serial_number_of, usable_ports, PortId};
use cuthulhu::registry::{
    cameo5_devices, device_at_port, enumerated_devices, machine_ids, machines, puma_devices,
    serial_instance_id, takes_a_named_port, usb_instance_id,
};
use cuthulhu::transport::{TransportError, TransportKind};

const CAMEO5: &str = "cameo5";
const PUMA: &str = "puma";

// ---------------------------------------------------------------------------
// Serial ports
// ---------------------------------------------------------------------------

#[test]
fn usable_ports_drops_system_ports_and_dialin_duplicates() {
    let observed = [
        "/dev/cu.debug-console",
        "/dev/tty.debug-console",
        "/dev/cu.wlan-debug",
        "/dev/tty.wlan-debug",
        "/dev/cu.Bluetooth-Incoming-Port",
        "/dev/tty.Bluetooth-Incoming-Port",
        "/dev/cu.usbserial-1420",
        "/dev/tty.usbserial-1420",
    ]
    .map(String::from)
    .to_vec();
    assert_eq!(usable_ports(observed), vec!["/dev/cu.usbserial-1420"]);
}

#[test]
fn usable_ports_keeps_linux_names_and_unpaired_dialin_nodes() {
    let names = ["/dev/ttyUSB0", "/dev/ttyACM0", "/dev/tty.orphan"].map(String::from).to_vec();
    assert_eq!(usable_ports(names.clone()), names);
}

#[test]
fn an_adapters_serial_number_survives_a_path_change() {
    let before = PortId { path: "/dev/ttyUSB0".into(), serial_number: Some("FT-A".into()) };
    let after = PortId { path: "/dev/ttyUSB1".into(), serial_number: Some("FT-A".into()) };
    assert_eq!(before.serial_number, after.serial_number, "same adapter, new node");
    assert!(before.is_stable());

    let other = PortId { path: "/dev/ttyUSB0".into(), serial_number: Some("FT-B".into()) };
    assert_ne!(before.serial_number, other.serial_number, "same node, different adapter");
}

#[test]
fn a_port_reports_whether_its_name_can_be_trusted() {
    assert!(PortId { path: "/dev/ttyUSB0".into(), serial_number: Some("FT-A".into()) }.is_stable());
    assert!(!PortId { path: "/dev/ttyUSB0".into(), serial_number: None }.is_stable());
}

#[test]
fn a_serial_number_is_read_from_a_usb_port_and_trimmed() {
    assert_eq!(serial_number_of(Some("FT-A")), Some("FT-A".into()));
    assert_eq!(serial_number_of(Some("  FT-A  ")), Some("FT-A".into()));
}

#[test]
fn a_blank_or_missing_descriptor_reports_no_serial_number() {
    assert_eq!(serial_number_of(None), None);
    assert_eq!(serial_number_of(Some("")), None);
    assert_eq!(serial_number_of(Some("   ")), None);
}

#[test]
fn vanished_port_is_a_disconnect_whatever_the_os_said() {
    for timed_out in [false, true] {
        assert_eq!(classify_serial_failure(timed_out, "boom".into(), false), TransportError::Disconnected);
    }
}

#[test]
fn timeout_on_a_present_port_stays_a_timeout_but_on_a_gone_one_does_not() {
    assert_eq!(classify_serial_failure(true, "timed out".into(), true), TransportError::Timeout);
    assert_eq!(classify_serial_failure(true, "timed out".into(), false), TransportError::Disconnected);
}

#[test]
fn present_port_keeps_the_os_message() {
    match classify_serial_failure(false, "access denied".into(), true) {
        TransportError::Io(msg) => assert!(msg.contains("access denied"), "got: {msg}"),
        other => panic!("expected Io, got {other:?}"),
    }
}

#[test]
fn a_port_opened_through_an_alias_counts_as_present() {
    let real = "/dev/ttyUSB0".to_string();
    let alias = "/dev/serial/by-id/usb-cutter".to_string();
    let enumerated = vec![real.clone()];
    let resolved = vec![Some(real.clone())];
    assert!(port_is_present(&alias, &enumerated, &Some(real.clone()), &resolved), "alias resolves to an enumerated port");
    assert!(port_is_present(&real, &enumerated, &Some(real.clone()), &resolved), "the plain name still matches");
    assert!(!port_is_present(&"/dev/ttyUSB9".to_string(), &enumerated, &None, &resolved),
        "a path that resolves to nothing is absent");
}

// ---------------------------------------------------------------------------
// USB locators
// ---------------------------------------------------------------------------

#[test]
fn a_serial_number_outranks_where_the_device_was_found() {
    let before = locator_for(Some("CAMEO-A"), 1, 4);
    let after_a_reboot_at_a_different_address = locator_for(Some("CAMEO-A"), 2, 9);
    assert_eq!(before, after_a_reboot_at_a_different_address);
    assert!(before.is_stable());

    let other = locator_for(Some("CAMEO-B"), 1, 4);
    assert_ne!(before, other, "two Cameos at the same address are still two Cameos");
}

#[test]
fn a_device_without_a_serial_number_falls_back_to_its_address() {
    let l = locator_for(None, 1, 4);
    assert_eq!(l, Locator::BusAddress(1, 4));
    assert!(!l.is_stable());
    assert_eq!(locator_for(Some(""), 1, 4), Locator::BusAddress(1, 4));
    assert_eq!(locator_for(Some("   "), 1, 4), Locator::BusAddress(1, 4));
}

#[test]
fn a_locator_round_trips_through_its_text_form() {
    for l in [Locator::Serial("CAMEO-A".into()), Locator::BusAddress(1, 4)] {
        assert_eq!(l.to_text().parse::<Locator>(), Ok(l.clone()), "{l:?}");
    }
    assert_eq!("sn:CAMEO-A".parse::<Locator>(), Ok(Locator::Serial("CAMEO-A".into())));
    assert_eq!("1:4".parse::<Locator>(), Ok(Locator::BusAddress(1, 4)));
}

#[test]
fn a_malformed_locator_is_refused_rather_than_guessed() {
    assert_eq!("sn:12:34".parse::<Locator>(), Ok(Locator::Serial("12:34".into())));
    assert!("sn:".parse::<Locator>().is_err());
    assert!("not-a-locator".parse::<Locator>().is_err());
    assert!("1:notanumber".parse::<Locator>().is_err());
}

#[test]
fn gone_device_classifies_as_disconnected_whatever_the_transfer_error() {
    assert_eq!(classify_transfer_failure(true, "disconnected".into(), true), TransportError::Disconnected);
    assert_eq!(classify_transfer_failure(false, "unknown error".into(), false), TransportError::Disconnected);
}

#[test]
fn present_device_keeps_a_readable_fault_message() {
    match classify_transfer_failure(false, "endpoint stalled".into(), true) {
        TransportError::Io(msg) => assert_eq!(msg, "endpoint stalled"),
        other => panic!("expected Io, got: {other:?}"),
    }
}

// ---------------------------------------------------------------------------
// The machine table and device names
// ---------------------------------------------------------------------------

#[test]
fn each_machine_enumerates_devices_under_its_own_id() {
    let locators = vec!["sn:CAMEO-A".to_string(), "1:4".to_string()];
    let ports = vec![PortId { path: "/dev/ttyUSB0".into(), serial_number: Some("FT-A".into()) }];
    for m in machines() {
        for device in enumerated_devices(m.id, locators.clone(), ports.clone()) {
            assert_eq!(device.machine_id, m.id);
        }
    }
    assert!(enumerated_devices("unknown", locators, ports).is_empty());
}

#[test]
fn the_machine_ids_are_the_table_in_order() {
    assert_eq!(machine_ids(), vec![CAMEO5, PUMA]);
    assert!(takes_a_named_port(PUMA));
    assert!(!takes_a_named_port(CAMEO5));
    assert!(!takes_a_named_port("unknown"));
}

#[test]
fn enumerated_devices_are_named_and_flagged_by_their_transport() {
    let cameos = cameo5_devices(vec!["sn:CAMEO-A".into()]);
    assert_eq!(cameos.len(), 1);
    assert_eq!(cameos[0].instance_id, "usb:sn:CAMEO-A");
    assert!(!cameos[0].candidate, "USB is matched on vendor and product id");
    assert!(matches!(&cameos[0].transport, TransportKind::Usb { locator } if locator == "sn:CAMEO-A"));

    let pumas = puma_devices(vec![PortId { path: "/dev/ttyUSB0".into(), serial_number: None }]);
    assert_eq!(pumas[0].instance_id, "serial:at:/dev/ttyUSB0");
    assert!(pumas[0].candidate, "any serial port could be a Puma");
    assert!(matches!(&pumas[0].transport, TransportKind::Serial { path, baud } if path == "/dev/ttyUSB0" && *baud == 9600));
}

#[test]
fn only_a_serial_machine_can_be_named_at_a_port() {
    let puma = device_at_port(PUMA, "/dev/ttyUSB0", 19200).expect("the Puma is a serial machine");
    assert_eq!(puma.machine_id, PUMA);
    assert!(matches!(&puma.transport, TransportKind::Serial { path, baud } if path == "/dev/ttyUSB0" && *baud == 19200));
    assert!(puma.candidate, "an operator-named port is still unverified hardware");

    assert!(device_at_port(CAMEO5, "/dev/ttyUSB0", 9600).is_none(), "the Cameo is USB-only");
    assert!(device_at_port("unknown", "/dev/ttyUSB0", 9600).is_none());
}

#[test]
fn a_device_that_reports_a_serial_number_is_named_by_it() {
    assert_eq!(usb_instance_id("sn:CAMEO-A"), "usb:sn:CAMEO-A");
    assert_eq!(
        serial_instance_id(&PortId { path: "/dev/ttyUSB0".into(), serial_number: Some("FT-A".into()) }),
        "serial:sn:FT-A"
    );
}

#[test]
fn moving_a_device_to_another_socket_does_not_rename_it() {
    assert_eq!(usb_instance_id("sn:CAMEO-A"), usb_instance_id("sn:CAMEO-A"));
    let before = PortId { path: "/dev/ttyUSB0".into(), serial_number: Some("FT-A".into()) };
    let after_a_reboot = PortId { path: "/dev/ttyUSB1".into(), serial_number: Some("FT-A".into()) };
    assert_eq!(serial_instance_id(&before), serial_instance_id(&after_a_reboot));
}

#[test]
fn two_devices_in_one_socket_do_not_share_an_id() {
    let a = PortId { path: "/dev/ttyUSB0".into(), serial_number: Some("FT-A".into()) };
    let b = PortId { path: "/dev/ttyUSB0".into(), serial_number: Some("FT-B".into()) };
    assert_ne!(serial_instance_id(&a), serial_instance_id(&b));
    assert_ne!(usb_instance_id("sn:CAMEO-A"), usb_instance_id("sn:CAMEO-B"));
}

#[test]
fn a_device_without_an_identity_is_named_by_its_socket_and_says_so() {
    assert_eq!(usb_instance_id("1:4"), "usb:at:1:4");
    assert_eq!(
        serial_instance_id(&PortId { path: "/dev/ttyUSB0".into(), serial_number: None }),
        "serial:at:/dev/ttyUSB0"
    );
    let named = device_at_port(PUMA, "/dev/ttyUSB0", 9600).expect("the Puma is a serial machine");
    assert_eq!(named.instance_id, "serial:at:/dev/ttyUSB0");
}

#[test]
fn a_socket_named_device_cannot_be_confused_with_an_identified_one() {
    assert_ne!(usb_instance_id("sn:1:4"), usb_instance_id("1:4"));
    let ids = [
        usb_instance_id("sn:CAMEO-A"),
        usb_instance_id("1:4"),
        serial_instance_id(&PortId { path: "/dev/ttyUSB0".into(), serial_number: Some("FT-A".into()) }),
        serial_instance_id(&PortId { path: "/dev/ttyUSB0".into(), serial_number: None }),
    ];
    let unique: std::collections::HashSet<&String> = ids.iter().collect();
    assert_eq!(unique.len(), ids.len(), "every id form must be distinguishable: {ids:?}");
}
