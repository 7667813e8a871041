use snart_laser::device::grbl::{parse_grbl_response, request_bytes, GrblAction, GrblJob, GrblRequest};

#[test]
fn realtime_request_bytes() {
    assert_eq!(request_bytes(GrblRequest::FeedHold), b"!".to_vec());
    assert_eq!(request_bytes(GrblRequest::CycleStart), b"~".to_vec());
    assert_eq!(request_bytes(GrblRequest::SoftReset), vec![0x18]);
    assert_eq!(request_bytes(GrblRequest::Home), b"$H\n".to_vec());
    assert_eq!(request_bytes(GrblRequest::PollStatus), b"?".to_vec());
}

#[test]
fn job_streams_each_line_once_in_order() {
    let mut job = GrblJob::new();
    assert_eq!(job.next_action(), GrblAction::Idle);
    job.load(vec!["G0 X0".to_owned(), "G1 X1".to_owned(), "M5".to_owned()]);
    assert_eq!(job.next_action(), GrblAction::Send("G0 X0\n".to_owned()));
    assert_eq!(job.line_sent(), 33);
    // nothing more is sent until the line is answered
    assert_eq!(job.next_action(), GrblAction::AwaitReply);
    job.reply_received(&parse_grbl_response("<Run|MPos:0,0,0>"));
    assert_eq!(job.next_action(), GrblAction::AwaitReply);
    job.reply_received(&parse_grbl_response("ok"));
    assert_eq!(job.next_action(), GrblAction::Send("G1 X1\n".to_owned()));
    assert_eq!(job.line_sent(), 66);
    job.reply_received(&parse_grbl_response("error:20"));
    assert_eq!(job.next_action(), GrblAction::Send("M5\n".to_owned()));
    assert_eq!(job.line_sent(), 100);
    assert_eq!(job.next_action(), GrblAction::AwaitReply);
    job.reply_received(&parse_grbl_response("ok"));
    assert_eq!(job.next_action(), GrblAction::Finished);
    job.clear();
    assert_eq!(job.next_action(), GrblAction::Idle);
}

#[test]
fn replies_are_ok_and_error_lines() {
    assert!(parse_grbl_response("ok").reply);
    assert!(parse_grbl_response("error:9").reply);
    assert!(!parse_grbl_response("<Idle|MPos:0,0,0>").reply);
    assert!(!parse_grbl_response("okay").reply);
    assert!(!parse_grbl_response("Grbl 1.1h ['$' for help]").reply);
}

#[test]
fn empty_job_is_idle() {
    let mut job = GrblJob::new();
    job.load(Vec::new());
    assert_eq!(job.next_action(), GrblAction::Idle);
}

#[test]
fn new_job_replaces_old() {
    let mut job = GrblJob::new();
    job.load(vec!["A".to_owned(), "B".to_owned()]);
    job.line_sent();
    assert_eq!(job.next_action(), GrblAction::AwaitReply);
    job.load(vec!["C".to_owned()]);
    assert_eq!(job.next_action(), GrblAction::Send("C\n".to_owned()));
}

#[test]
fn status_report_positions() {
    let r = parse_grbl_response("<Idle|MPos:1.000,2.500,0.000|FS:0,0>");
    assert_eq!(r.positions, vec![("1.000".to_owned(), "2.500".to_owned())]);
    assert_eq!(r.message, None);
    let r = parse_grbl_response("<Run|MPos:5>");
    assert!(r.positions.is_empty());
    let r = parse_grbl_response("<Idle|WPos:1,2,3>");
    assert!(r.positions.is_empty());
}

#[test]
fn error_lines_become_messages() {
    let r = parse_grbl_response("error:9");
    assert_eq!(r.message, Some("GRBL error:9".to_owned()));
    assert!(r.positions.is_empty());
    let r = parse_grbl_response("ok");
    assert_eq!(r.message, None);
    assert!(r.positions.is_empty());
}
