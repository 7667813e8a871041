use snart_laser::device::ruida::{
    decode_rd_lines, hex_summary, job_transfer, make_packet, position_units, request_packet,
    scramble, RuidaRequest, TransferRun, TransferStep, CMD_FILE_BEGIN, CMD_FILE_DATA, CMD_FILE_END,
    XOR_KEY,
};

#[test]
fn scramble_xors_every_byte() {
    let mut v = vec![0x00, 0x88, 0xFF, 0x12];
    scramble(&mut v);
    assert_eq!(v, vec![0x88, 0x00, 0x77, 0x9A]);
}

#[test]
fn scramble_twice_restores() {
    let orig: Vec<u8> = (0..=255u8).collect();
    let mut v = orig.clone();
    scramble(&mut v);
    assert_ne!(v, orig);
    scramble(&mut v);
    assert_eq!(v, orig);
}

#[test]
fn packet_has_checksum_and_is_scrambled() {
    let p = make_packet(0xDA, &[0x00]);
    assert_eq!(p, vec![0xDA ^ XOR_KEY, 0x00 ^ XOR_KEY, 0xDA ^ XOR_KEY]);
    let p = make_packet(0xF0, &[0x20, 0x01]);
    // checksum 0xF0 + 0x20 + 0x01 = 0x111 -> 0x11
    assert_eq!(p, vec![0xF0 ^ 0x88, 0x20 ^ 0x88, 0x01 ^ 0x88, 0x11 ^ 0x88]);
    let mut raw = p.clone();
    scramble(&mut raw);
    assert_eq!(raw, vec![0xF0, 0x20, 0x01, 0x11]);
}

#[test]
fn request_packets() {
    assert_eq!(request_packet(RuidaRequest::Ping), make_packet(0xDA, &[0x00]));
    assert_eq!(request_packet(RuidaRequest::PollPosition), make_packet(0xD8, &[0x00]));
    assert_eq!(request_packet(RuidaRequest::FeedHold), make_packet(0x24, &[]));
    assert_eq!(request_packet(RuidaRequest::CycleStart), make_packet(0x25, &[]));
    assert_eq!(request_packet(RuidaRequest::SoftReset), make_packet(0x26, &[]));
    assert_eq!(request_packet(RuidaRequest::Home), make_packet(0xD8, &[0x2C]));
    assert_eq!(
        request_packet(RuidaRequest::Jog { x_units: 0x01020304, y_units: 10 }),
        make_packet(0xD9, &[0x01, 0x01, 0x02, 0x03, 0x04, 0x00, 0x00, 0x00, 0x0A])
    );
}

#[test]
fn job_transfer_chunks_and_progress() {
    let data: Vec<u8> = (0..1001u32).map(|i| (i % 251) as u8).collect();
    let t = job_transfer(&data);
    assert_eq!(t.packets.len(), 5);
    assert_eq!(t.packets[0], make_packet(CMD_FILE_BEGIN, &[]));
    assert_eq!(t.packets[1], make_packet(CMD_FILE_DATA, &data[0..500]));
    assert_eq!(t.packets[2], make_packet(CMD_FILE_DATA, &data[500..1000]));
    assert_eq!(t.packets[3], make_packet(CMD_FILE_DATA, &data[1000..]));
    assert_eq!(t.packets[4], make_packet(CMD_FILE_END, &[]));
    assert_eq!(t.progress, vec![49, 99, 100]);
}

#[test]
fn job_transfer_of_nothing() {
    let t = job_transfer(&[]);
    assert_eq!(t.packets, vec![make_packet(CMD_FILE_BEGIN, &[]), make_packet(CMD_FILE_END, &[])]);
    assert!(t.progress.is_empty());
}

#[test]
fn position_from_response() {
    assert_eq!(position_units(&[0xD8, 0, 0, 1, 0, 0, 0, 2, 0]), Some((256, 512)));
    assert_eq!(
        position_units(&[0xD8, 0xFF, 0xFF, 0xFF, 0xFF, 0, 0, 0, 1, 9]),
        Some((u32::MAX, 1))
    );
    assert_eq!(position_units(&[0xD8, 0, 0, 1, 0, 0, 0, 2]), None);
    assert_eq!(position_units(&[0xDA, 0, 0, 1, 0, 0, 0, 2, 0]), None);
}

#[test]
fn hex_summary_format() {
    assert_eq!(hex_summary(&[0xD8, 0x00, 0xAB]), "D8 00 AB");
    assert_eq!(hex_summary(&[0x05]), "05");
    assert_eq!(hex_summary(&[]), "");
}

#[test]
fn rd_lines_decode() {
    let lines: Vec<String> =
        ["ff", " 0A ", "zz", "+1", "100", "", "-1", "7f\r"].iter().map(|s| s.to_string()).collect();
    assert_eq!(decode_rd_lines(&lines), vec![0xFF, 0x0A, 0x01, 0x7F]);
}

#[test]
fn transfer_run_sends_in_order_with_progress() {
    // begin, two data packets, end
    let mut r = TransferRun::new(4);
    let mut sent = Vec::new();
    let mut reported = Vec::new();
    loop {
        match r.next_step() {
            TransferStep::Send(i) => {
                sent.push(i);
                if let Some(k) = r.packet_sent(true) {
                    reported.push(k);
                }
            }
            TransferStep::Finish => r.end_reported(),
            TransferStep::Abort => panic!("aborted"),
            TransferStep::Idle => break,
        }
    }
    assert_eq!(sent, vec![0, 1, 2, 3]);
    assert_eq!(reported, vec![0, 1]);
}

#[test]
fn transfer_run_aborts_on_a_failed_data_packet() {
    let mut r = TransferRun::new(4);
    assert_eq!(r.packet_sent(true), None);
    assert_eq!(r.packet_sent(false), None);
    assert_eq!(r.next_step(), TransferStep::Abort);
    r.end_reported();
    assert_eq!(r.next_step(), TransferStep::Idle);
}

#[test]
fn transfer_run_aborts_on_a_failed_begin_packet() {
    let mut r = TransferRun::new(2);
    assert_eq!(r.packet_sent(false), None);
    assert_eq!(r.next_step(), TransferStep::Abort);
}

#[test]
fn transfer_run_finishes_whatever_the_end_packet_gives() {
    let mut r = TransferRun::new(2);
    assert_eq!(r.packet_sent(true), None);
    assert_eq!(r.next_step(), TransferStep::Send(1));
    assert_eq!(r.packet_sent(false), None);
    assert_eq!(r.next_step(), TransferStep::Finish);
}
