use snart_laser::device::discovery::{
    describe_usb_port, scan_connection_devices, windows_usb_printer_queues, windows_usbprint_paths,
    PortInfo, UsbPortInfo,
};

#[test]
fn queue_lines_are_trimmed_and_nonempty() {
    let out = windows_usb_printer_queues(Some(b"  Printer Queue: A [USB001]\r\n\r\n  \nB \n".to_vec()));
    assert_eq!(out, vec!["Printer Queue: A [USB001]", "B"]);
    assert!(windows_usb_printer_queues(None).is_empty());
    assert!(windows_usb_printer_queues(Some(Vec::new())).is_empty());
}

#[test]
fn queue_output_with_invalid_bytes_is_replaced() {
    let out = windows_usb_printer_queues(Some(vec![b'Q', 0xFF, b'\n']));
    assert_eq!(out, vec!["Q\u{FFFD}"]);
}

#[test]
fn usbprint_paths_are_merged_sorted_unique() {
    let out = windows_usbprint_paths(
        Some(b"Printer Queue: Z [USB002]\nPrinter Queue: A [USB001]\n".to_vec()),
        None,
        Some(b"Printer Queue: A [USB001]\nUSB Path: \\\\.\\USB001 | POSTEK\n".to_vec()),
    );
    assert_eq!(
        out,
        vec![
            "Printer Queue: A [USB001]",
            "Printer Queue: Z [USB002]",
            "USB Path: \\\\.\\USB001 | POSTEK",
        ]
    );
    assert!(windows_usbprint_paths(None, None, None).is_empty());
}

#[test]
fn usb_port_descriptions() {
    let full = UsbPortInfo { product: Some("CH340".to_owned()), serial_number: Some("123".to_owned()) };
    assert_eq!(describe_usb_port("COM3", &full), "COM3 | CH340 | SN:123");
    let empty = UsbPortInfo { product: Some(String::new()), serial_number: None };
    assert_eq!(describe_usb_port("/dev/ttyUSB0", &empty), "/dev/ttyUSB0");
    let serial_only = UsbPortInfo { product: None, serial_number: Some("9".to_owned()) };
    assert_eq!(describe_usb_port("X", &serial_only), "X | SN:9");
}

#[test]
fn connection_device_lists() {
    let ports = vec![
        PortInfo { port_name: "COM4".to_owned(), usb: None },
        PortInfo {
            port_name: "COM3".to_owned(),
            usb: Some(UsbPortInfo { product: Some("CH340".to_owned()), serial_number: None }),
        },
    ];
    let (available, usb) = scan_connection_devices(
        &ports,
        vec!["Printer Queue: Q [USB001]".to_owned(), "COM3 | CH340".to_owned()],
        vec!["A".to_owned()],
    );
    assert_eq!(available, vec!["COM4", "COM3"]);
    assert_eq!(usb, vec!["A", "COM3 | CH340", "Printer Queue: Q [USB001]"]);
}
