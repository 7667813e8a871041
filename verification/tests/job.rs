use snart_laser::device::job::{progress_percent, split_chunks};

#[test]
fn chunks_rejoin_to_the_data() {
    let data: Vec<u8> = (0..1000u32).map(|i| (i * 7 % 256) as u8).collect();
    for size in [1usize, 3, 256, 500, 999, 1000, 4096] {
        let parts = split_chunks(&data, size);
        assert_eq!(parts.len(), (data.len() + size - 1) / size);
        assert!(parts.iter().all(|p| p.len() <= size && !p.is_empty()));
        let joined: Vec<u8> = parts.concat();
        assert_eq!(joined, data);
    }
    assert!(split_chunks(&[], 8).is_empty());
}

#[test]
fn progress_values() {
    assert_eq!(progress_percent(0, 0), 0);
    assert_eq!(progress_percent(1, 3), 33);
    assert_eq!(progress_percent(2, 3), 66);
    assert_eq!(progress_percent(3, 3), 100);
    assert_eq!(progress_percent(usize::MAX, usize::MAX), 100);
}

use snart_laser::device::job::{LineStream, StreamStep};

#[test]
fn stream_reports_success_once() {
    let mut s = LineStream::new(2);
    assert_eq!(s.next_step(), StreamStep::Write(0));
    assert_eq!(s.line_written(true), Some(50));
    assert_eq!(s.next_step(), StreamStep::Write(1));
    assert_eq!(s.line_written(true), Some(100));
    assert_eq!(s.next_step(), StreamStep::Finish(true));
    s.end_reported();
    assert_eq!(s.next_step(), StreamStep::Idle);
}

#[test]
fn stream_failure_ends_the_job() {
    let mut s = LineStream::new(3);
    assert_eq!(s.line_written(true), Some(33));
    assert_eq!(s.line_written(false), None);
    assert_eq!(s.next_step(), StreamStep::Finish(false));
    s.end_reported();
    assert_eq!(s.next_step(), StreamStep::Idle);
}

#[test]
fn empty_stream_succeeds() {
    let s = LineStream::new(0);
    assert_eq!(s.next_step(), StreamStep::Finish(true));
}
