use mcp_nordic_ppk2::ports::{
    discover_ppk2_port, select_control_port, PortInfo, UsbPort, PPK2_PID, PPK2_VID,
};

fn p(name: &str, iface: Option<u8>) -> (String, Option<u8>) {
    (name.to_string(), iface)
}

#[test]
fn control_port_prefers_interface_1() {
    // Real PPK2 layout: control = iface 1 (ttyACM0), secondary = iface 3.
    let got = select_control_port(vec![p("/dev/ttyACM2", Some(3)), p("/dev/ttyACM0", Some(1))]);
    assert_eq!(got.as_deref(), Some("/dev/ttyACM0"));
}

#[test]
fn control_port_interface_1_wins_over_lower_path() {
    // Interface number, not device path, decides — survives re-enumeration.
    let got = select_control_port(vec![p("/dev/ttyACM0", Some(3)), p("/dev/ttyACM2", Some(1))]);
    assert_eq!(got.as_deref(), Some("/dev/ttyACM2"));
}

#[test]
fn control_port_falls_back_to_lowest_path_without_interface_info() {
    let got = select_control_port(vec![p("/dev/ttyACM2", None), p("/dev/ttyACM0", None)]);
    assert_eq!(got.as_deref(), Some("/dev/ttyACM0"));
}

#[test]
fn control_port_none_when_empty() {
    assert_eq!(select_control_port(vec![]), None);
}

#[test]
fn control_port_ignores_the_order_of_candidates() {
    let a = p("/dev/ttyACM4", Some(1));
    let b = p("/dev/ttyACM1", Some(1));
    let c = p("/dev/ttyACM0", Some(3));
    for list in [
        vec![a.clone(), b.clone(), c.clone()],
        vec![c.clone(), b.clone(), a.clone()],
        vec![b.clone(), a.clone(), c.clone()],
        vec![a, c, b],
    ] {
        assert_eq!(select_control_port(list).as_deref(), Some("/dev/ttyACM1"));
    }
}

#[test]
fn control_port_order_is_by_code_point() {
    let names = ["/dev/ttyACM10", "/dev/ttyACM2", "/dev/ttyACM", "COM3", "é", "😀", "\u{ffff}"];
    for a in names {
        for b in names {
            let got = select_control_port(vec![p(a, None), p(b, None)]);
            assert_eq!(got.as_deref(), Some(a.min(b)));
        }
    }
}

fn usb(name: &str, vid: u16, pid: u16, interface: Option<u8>) -> PortInfo {
    PortInfo { port_name: name.to_string(), usb: Some(UsbPort { vid, pid, interface }) }
}

#[test]
fn discovery_keeps_to_the_ppk2() {
    let ports = vec![
        PortInfo { port_name: "/dev/ttyS0".to_string(), usb: None },
        usb("/dev/ttyACM0", 0x1234, PPK2_PID, Some(1)),
        usb("/dev/ttyACM1", PPK2_VID, 0x1234, Some(1)),
        usb("/dev/ttyACM3", PPK2_VID, PPK2_PID, Some(3)),
        usb("/dev/ttyACM5", 0x1915, 0xc00a, Some(1)),
    ];
    assert_eq!(discover_ppk2_port(Some(&ports)).unwrap(), "/dev/ttyACM5");
}

#[test]
fn discovery_failures_say_why() {
    let none = vec![usb("/dev/ttyACM0", 0x1234, PPK2_PID, Some(1))];
    assert_eq!(
        discover_ppk2_port(Some(&none)).unwrap_err().message(),
        "no PPK2 (USB 1915:c00a) found — is it plugged in, \
         and are permissions set (dialout group / nrf-udev rules)?"
    );
    assert_eq!(
        discover_ppk2_port(None).unwrap_err().message(),
        "enumerating serial ports"
    );
}
