use grin_terminal::pty::{is_pty_eof, reader_step, PtyEvent, ReadOutcome, ReaderStep};

#[test]
fn eio_means_the_terminal_closed() {
    assert!(is_pty_eof(Some(5)));
    assert!(!is_pty_eof(Some(4)));
    assert!(!is_pty_eof(None));
}

#[test]
fn reader_decides_per_read() {
    match reader_step(ReadOutcome::Data(vec![1, 2])) {
        ReaderStep::Deliver(PtyEvent::Output(bytes)) => assert_eq!(bytes, vec![1, 2]),
        _ => panic!("output should be delivered"),
    }
    assert!(matches!(reader_step(ReadOutcome::Closed), ReaderStep::Stop));
    assert!(matches!(reader_step(ReadOutcome::Interrupted), ReaderStep::Retry));
    assert!(matches!(
        reader_step(ReadOutcome::Failed { raw_os_error: Some(5), message: "eio".to_string() }),
        ReaderStep::Stop
    ));
    match reader_step(ReadOutcome::Failed { raw_os_error: None, message: "boom".to_string() }) {
        ReaderStep::ReportAndStop(PtyEvent::Error(text)) => assert_eq!(text, "PTY read failed: boom"),
        _ => panic!("failure should be reported"),
    }
}
