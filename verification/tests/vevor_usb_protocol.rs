use snart_laser::device::vevor_usb_protocol::{
    extract_event_keywords, generate_eject_command, generate_hpgl_message,
    generate_prepare_job_command, generate_prepare_job_with_size, generate_status_poll_command,
    generate_stream_reset_command, parse_device_response, VevorJobState,
};

#[test]
fn test_hpgl_message_generation() {
    let hpgl = "IN;\r\nSP1;FS10;VS250;PU40,40;PD40,60;PU5875,1265;PD6117,1265;";
    let msg = generate_hpgl_message(hpgl);

    // Header should be 28 bytes
    assert!(msg.len() >= 28);

    // Byte 0 should be ESC
    assert_eq!(msg[0], 0x1B);

    // Bytes 6-23 should be the fixed constant
    let expected_fixed = &[
        0x09, 0x91, 0xff, 0xff, 0x00, 0x00, 0x00, 0x00, 0x09, 0x00, 0x00, 0x01, 0x03, 0x00, 0x18,
        0x00, 0x02, 0x03,
    ];
    assert_eq!(&msg[6..24], expected_fixed);

    // Bytes 24-25 should encode the HPGL payload length
    let encoded_len = u16::from_le_bytes([msg[24], msg[25]]) as usize;
    assert_eq!(encoded_len, hpgl.len());

    // The payload should be appended after the header
    let payload_start = 28;
    assert_eq!(&msg[payload_start..], hpgl.as_bytes());
}

#[test]
fn message_checksum_covers_header_tail_and_payload() {
    let msg = generate_hpgl_message("TB42;");
    assert_eq!(msg.len(), 28 + 5);
    assert_eq!(msg[1], 0x00);
    let crc = u32::from_le_bytes([msg[2], msg[3], msg[4], msg[5]]);
    assert_eq!(crc, crc32fast::hash(&msg[6..]));
    assert_ne!(crc, 0);
    assert_eq!(&msg[26..28], &[0x00, 0x00]);
}

#[test]
fn fixed_commands_carry_their_payloads() {
    assert_eq!(&generate_prepare_job_command()[28..], b"setmat:0;");
    assert_eq!(&generate_status_poll_command()[28..], b"TB42;");
    assert_eq!(&generate_eject_command()[28..], b"PG;");
    assert_eq!(&generate_stream_reset_command()[28..], b"JS;");
    assert_eq!(generate_eject_command(), generate_hpgl_message("PG;"));
}

#[test]
fn prepare_with_size_payload_text() {
    let msg = generate_prepare_job_with_size(1, 12192, 12192);
    assert_eq!(&msg[28..], b"setmat:1;JS12192,12192;");
    let msg = generate_prepare_job_with_size(0, 0, 7);
    assert_eq!(&msg[28..], b"setmat:0;JS0,7;");
}

#[test]
fn payload_length_field_wraps_at_16_bits() {
    let long = "A".repeat(65536 + 3);
    let msg = generate_hpgl_message(&long);
    assert_eq!(u16::from_le_bytes([msg[24], msg[25]]), 3);
    assert_eq!(msg.len(), 28 + 65539);
}

#[test]
fn response_round_trip() {
    let msg = generate_hpgl_message("LOADSUCCESS;IDLE");
    assert_eq!(parse_device_response(&msg), Ok("LOADSUCCESS;IDLE".to_owned()));
    let msg = generate_hpgl_message("");
    assert_eq!(parse_device_response(&msg), Ok(String::new()));
}

#[test]
fn response_with_extra_bytes_reads_announced_length() {
    let mut msg = generate_hpgl_message("BUSY");
    msg.extend_from_slice(b"trailing");
    assert_eq!(parse_device_response(&msg), Ok("BUSY".to_owned()));
}

#[test]
fn response_errors() {
    assert_eq!(
        parse_device_response(&[0x1B; 27]),
        Err("Response too short: insufficient header")
    );
    let mut msg = generate_hpgl_message("IDLE");
    msg[0] = 0x00;
    assert_eq!(parse_device_response(&msg), Err("Invalid response: missing ESC marker"));
    let msg = generate_hpgl_message("IDLE");
    assert_eq!(
        parse_device_response(&msg[..msg.len() - 1]),
        Err("Response truncated: insufficient payload data")
    );
    let mut bad = generate_hpgl_message("ab");
    bad[28] = 0xFF;
    assert_eq!(parse_device_response(&bad), Err("Invalid UTF-8 in device response"));
}

#[test]
fn event_keywords_in_list_order() {
    assert_eq!(extract_event_keywords("CUTOVER then BUSY"), vec!["BUSY", "CUTOVER"]);
    assert_eq!(
        extract_event_keywords("LOADPRESSED LOADSUCCESS START IDLE CUTSUCCESS ERROR"),
        vec!["LOADPRESSED", "LOADSUCCESS", "START", "IDLE", "CUTSUCCESS", "ERROR"]
    );
    assert!(extract_event_keywords("busy").is_empty());
    assert!(extract_event_keywords("").is_empty());
}

#[test]
fn job_state_names() {
    assert_eq!(VevorJobState::Idle.as_str(), "Idle");
    assert_eq!(VevorJobState::AwaitingMediaLoad.as_str(), "Awaiting Media Load");
    assert_eq!(VevorJobState::MediaLoaded.as_str(), "Media Loaded");
    assert_eq!(VevorJobState::AwaitingStart.as_str(), "Awaiting Start");
    assert_eq!(VevorJobState::Cutting.as_str(), "Cutting");
    assert_eq!(VevorJobState::CutFinished.as_str(), "Cut Finished");
    assert_eq!(VevorJobState::Error.as_str(), "Error");
}
