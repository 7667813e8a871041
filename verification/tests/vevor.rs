use snart_laser::device::vevor::{
    auto_detect_windows_target, connect_plan, ConnectStep, describe_pnp_device, extract_usb_port_token, is_usb_printer_path,
    job_text_of, line_job_payloads, parse_printer_queue_name, parse_usb_pnp_instance, queue_job,
    PREPARE_HEIGHT_UNITS, PREPARE_WIDTH_UNITS,
};
use snart_laser::device::vevor_usb_protocol::{
    generate_eject_command, generate_hpgl_message, generate_prepare_job_with_size,
    generate_stream_reset_command,
};

#[test]
fn usb_printer_paths() {
    assert!(is_usb_printer_path("/dev/usb/lp0"));
    assert!(is_usb_printer_path("/DEV/USB/LP0"));
    assert!(is_usb_printer_path("LPT1"));
    assert!(is_usb_printer_path("\\\\.\\USB001"));
    assert!(is_usb_printer_path("port usb002"));
    assert!(!is_usb_printer_path("COM3"));
    assert!(!is_usb_printer_path("/dev/ttyUSB0"));
}

#[test]
fn usb_port_token() {
    assert_eq!(extract_usb_port_token("xusb001y"), Some("USB001".to_owned()));
    assert_eq!(extract_usb_port_token("\\\\.\\usb003 "), Some("USB003".to_owned()));
    // a token must be followed by at least one more character
    assert_eq!(extract_usb_port_token("USB001"), None);
    assert_eq!(extract_usb_port_token("USBX01abc"), None);
    assert_eq!(extract_usb_port_token(""), None);
}

#[test]
fn printer_queue_name() {
    assert_eq!(
        parse_printer_queue_name("  Printer Queue: Vevor Cutter [USB001] "),
        Some("Vevor Cutter".to_owned())
    );
    assert_eq!(parse_printer_queue_name("Printer Queue: Plain"), Some("Plain".to_owned()));
    assert_eq!(parse_printer_queue_name("Printer Queue:  [USB001]"), None);
    assert_eq!(parse_printer_queue_name("COM3"), None);
}

#[test]
fn pnp_instance() {
    assert_eq!(
        parse_usb_pnp_instance("USB PnP: SWD\\PRINTENUM\\{1} | POSTEK Q8"),
        Some("SWD\\PRINTENUM\\{1}".to_owned())
    );
    assert_eq!(parse_usb_pnp_instance("USB PnP: ABC"), Some("ABC".to_owned()));
    assert_eq!(parse_usb_pnp_instance("USB PnP:  | name"), None);
    assert_eq!(parse_usb_pnp_instance("Printer Queue: X"), None);
}

#[test]
fn pnp_device_descriptions() {
    assert_eq!(
        describe_pnp_device("USBPRINT\\X\\USB001&0||POSTEK"),
        Some("USB Path: \\\\.\\USB001".to_owned())
    );
    // the token at the very end of the instance is not found
    assert_eq!(
        describe_pnp_device("USBPRINT\\POSTEKQ8\\7&abc&0&USB001||POSTEK Q8"),
        Some("USB PnP: USBPRINT\\POSTEKQ8\\7&abc&0&USB001 | POSTEK Q8".to_owned())
    );
    assert_eq!(describe_pnp_device("SWD\\X||"), Some("USB PnP: SWD\\X".to_owned()));
    assert_eq!(describe_pnp_device("  ||Friendly"), None);
}

#[test]
fn auto_detect_prefers_queue_queries() {
    let queues = vec![
        None,
        Some(b"\n \r\n".to_vec()),
        Some(b"\n  Printer Queue: Q [USB001]\r\nmore".to_vec()),
    ];
    let pnp = Some(b"SWD\\X||Y".to_vec());
    assert_eq!(
        auto_detect_windows_target(&queues, &pnp),
        Some("Printer Queue: Q [USB001]".to_owned())
    );
}

#[test]
fn auto_detect_falls_back_to_pnp() {
    let queues = vec![None, Some(b"   ".to_vec())];
    let pnp = Some(b"\r\nSWD\\PRINTENUM\\A || POSTEK \n".to_vec());
    assert_eq!(
        auto_detect_windows_target(&queues, &pnp),
        Some("USB PnP: SWD\\PRINTENUM\\A | POSTEK".to_owned())
    );
    assert_eq!(auto_detect_windows_target(&queues, &None), None);
    assert_eq!(auto_detect_windows_target(&vec![], &Some(b"\n".to_vec())), None);
    assert_eq!(
        auto_detect_windows_target(&vec![Some(vec![0xFF, b'Q'])], &None),
        Some("\u{FFFD}Q".to_owned())
    );
}

#[test]
fn job_lines_are_trimmed_and_terminated() {
    let lines: Vec<String> = vec!["  PU0,0;  ".to_owned(), "PD1,1;".to_owned()];
    let payloads = line_job_payloads(&lines);
    assert_eq!(payloads, vec![b"PU0,0;\r\n".to_vec(), b"PD1,1;\r\n".to_vec()]);
    assert_eq!(job_text_of(&lines), "PU0,0;\r\nPD1,1;\r\n");
}

#[test]
fn queue_job_plan() {
    let lines: Vec<String> = vec!["IN;".to_owned()];
    let j = queue_job(&lines);
    assert_eq!(j.prepare, generate_prepare_job_with_size(1, PREPARE_WIDTH_UNITS, PREPARE_HEIGHT_UNITS));
    assert_eq!(&j.prepare[28..], b"setmat:1;JS12192,13912;");
    assert_eq!(j.chunks, vec![generate_hpgl_message("IN;\r\n")]);
    assert_eq!(j.progress, vec![100]);
    assert_eq!(j.eject, generate_eject_command());
    assert_eq!(j.reset, generate_stream_reset_command());
}

#[test]
fn queue_job_splits_into_256_byte_chunks() {
    let line = "X".repeat(298); // 300 bytes with CR LF
    let lines: Vec<String> = vec![line.clone(), line];
    let j = queue_job(&lines);
    assert_eq!(j.chunks.len(), 3);
    assert_eq!(j.progress, vec![33, 66, 100]);
    let text = job_text_of(&lines);
    assert_eq!(j.chunks[0], generate_hpgl_message(&text[0..256]));
    assert_eq!(j.chunks[1], generate_hpgl_message(&text[256..512]));
    assert_eq!(j.chunks[2], generate_hpgl_message(&text[512..]));
}

#[test]
fn queue_job_chunk_split_inside_character_is_replaced() {
    // 255 ASCII bytes then a two-byte character: the first chunk ends inside it
    let mut line = "a".repeat(255);
    line.push('é');
    let lines: Vec<String> = vec![line];
    let j = queue_job(&lines);
    assert_eq!(j.chunks.len(), 2);
    let mut first = "a".repeat(255);
    first.push('\u{FFFD}');
    assert_eq!(j.chunks[0], generate_hpgl_message(&first));
    assert_eq!(j.chunks[1], generate_hpgl_message("\u{FFFD}\r\n"));
}

#[test]
fn connect_plans() {
    assert_eq!(
        connect_plan("Printer Queue: Vevor [USB001]", true),
        vec![
            ConnectStep::PrinterQueue("Vevor".to_owned()),
            ConnectStep::QueueForPort("USB001".to_owned()),
            ConnectStep::OpenFile { alt: Some("\\\\.\\USB001".to_owned()) },
        ]
    );
    assert_eq!(connect_plan("COM3", true), vec![ConnectStep::OpenSerial]);
    assert_eq!(connect_plan("/dev/usb/lp0", false), vec![ConnectStep::OpenFile { alt: None }]);
    assert_eq!(
        connect_plan("USB PnP: SWD\\X | Y", true),
        vec![ConnectStep::QueueForDevice, ConnectStep::InterfaceForDevice, ConnectStep::OpenSerial]
    );
    assert_eq!(connect_plan("Printer Queue: Vevor [USB001]", false), vec![ConnectStep::OpenFile { alt: None }]);
}

use snart_laser::device::vevor::{
    first_output_line, names_cutter_interface, pick_usbprint_interface, printer_queue_for_port_query,
};

#[test]
fn lookup_answers() {
    assert_eq!(first_output_line(&Some(b"\r\n  Vevor Q8  \r\nOther\r\n".to_vec())), Some("Vevor Q8".to_owned()));
    assert_eq!(first_output_line(&Some(b"  \n".to_vec())), None);
    assert_eq!(first_output_line(&None), None);
    assert_eq!(
        printer_queue_for_port_query("USB001"),
        "Get-Printer | Where-Object { $_.PortName -eq 'USB001' } | Select-Object -First 1 -ExpandProperty Name"
    );
}

#[test]
fn usbprint_interface_choice() {
    let a = "\\\\?\\usb#vid_1234&pid_0001#x#{28d78fad}".to_owned();
    let b = "\\\\?\\USB#VID_045B&PID_5310#Y#{28d78fad}".to_owned();
    assert!(names_cutter_interface(&b));
    assert!(!names_cutter_interface(&a));
    assert_eq!(pick_usbprint_interface(&vec![a.clone(), b.clone()]), Some(b.clone()));
    assert_eq!(pick_usbprint_interface(&vec![a.clone()]), Some(a));
    assert_eq!(pick_usbprint_interface(&vec![]), None);
}

use snart_laser::device::vevor::{QueueRun, QueueStep, MEDIA_POLLS};

#[test]
fn queue_run_in_order() {
    let mut r = QueueRun::new(2);
    let mut steps = Vec::new();
    loop {
        let s = r.next_step();
        steps.push(s);
        match s {
            QueueStep::Finish(_) => r.end_reported(),
            QueueStep::Idle => break,
            _ => r.written(true),
        }
    }
    let mut expected = vec![QueueStep::WritePrepare];
    for n in 0..MEDIA_POLLS {
        expected.push(QueueStep::WritePoll(n));
    }
    expected.extend([
        QueueStep::WriteChunk(0),
        QueueStep::WriteChunk(1),
        QueueStep::WriteEject(true),
        QueueStep::WriteReset(true),
        QueueStep::Finish(true),
        QueueStep::Idle,
    ]);
    assert_eq!(steps, expected);
}

#[test]
fn queue_run_poll_failure_skips_the_job() {
    let mut r = QueueRun::new(3);
    r.written(true);
    assert_eq!(r.next_step(), QueueStep::WritePoll(0));
    r.written(true);
    r.written(false);
    assert_eq!(r.next_step(), QueueStep::Finish(false));
}

#[test]
fn queue_run_chunk_failure_ejects_and_resets_then_fails() {
    let mut r = QueueRun::new(3);
    for _ in 0..=MEDIA_POLLS {
        r.written(true);
    }
    assert_eq!(r.next_step(), QueueStep::WriteChunk(0));
    r.written(true);
    assert_eq!(r.next_step(), QueueStep::WriteChunk(1));
    r.written(false);
    assert_eq!(r.next_step(), QueueStep::WriteEject(false));
    r.written(true);
    assert_eq!(r.next_step(), QueueStep::WriteReset(false));
    r.written(true);
    assert_eq!(r.next_step(), QueueStep::Finish(false));
    r.end_reported();
    assert_eq!(r.next_step(), QueueStep::Idle);
}

#[test]
fn queue_run_without_chunks_ejects() {
    let mut r = QueueRun::new(0);
    for _ in 0..=MEDIA_POLLS {
        r.written(true);
    }
    assert_eq!(r.next_step(), QueueStep::WriteEject(true));
    r.written(false);
    assert_eq!(r.next_step(), QueueStep::WriteReset(true));
    r.written(false);
    assert_eq!(r.next_step(), QueueStep::Finish(true));
}
