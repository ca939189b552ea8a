use strip_ansi_escapes::BoundedSink;
use strip_ansi_escapes::SinkError;
use strip_ansi_escapes::Writer;

fn full() -> SinkError {
    SinkError { message: "the sink is full".to_string() }
}

#[test]
fn write_reports_a_sink_failure_after_taking_every_byte() {
    let mut writer = Writer::new(BoundedSink::new(4));
    let r = writer.write(b"one\ntwo\n\x1b[1mthree");
    assert_eq!(r, Err(full()));
    match writer.into_inner() {
        Ok(_) => panic!("the held-back bytes do not fit"),
        Err(e) => {
            assert_eq!(e.error, full());
            let sink = e.writer.into_inner();
            assert!(sink.is_err());
        }
    }
}

#[test]
fn reported_failure_is_not_reported_twice() {
    let mut writer = Writer::new(BoundedSink::new(4));
    assert_eq!(writer.write(b"one\ntwo\n"), Err(full()));
    assert_eq!(writer.write(b"\x1b[0mno line end").ok(), Some(15));
}

#[test]
fn write_without_linefeed_does_not_reach_the_sink() {
    let mut writer = Writer::new(BoundedSink::new(0));
    assert_eq!(writer.write(b"no line end").ok(), Some(11));
    assert_eq!(writer.flush(), Err(full()));
}

#[test]
fn failed_release_gives_back_the_error() {
    let mut writer = Writer::new(BoundedSink::new(2));
    assert_eq!(writer.write(b"\x1b[32mkept").ok(), Some(9));
    match writer.into_inner() {
        Ok(_) => panic!("four bytes do not fit in two"),
        Err(e) => assert_eq!(e.error, full()),
    }
}

#[test]
fn release_within_the_limit_succeeds() {
    let mut writer = Writer::new(BoundedSink::new(8));
    assert_eq!(writer.write(b"\x1b[7mab\ncd").ok(), Some(9));
    let sink = writer.into_inner().ok().unwrap();
    assert_eq!(sink.data().clone(), b"ab\ncd".to_vec());
}

#[test]
fn dropped_sequences_never_reach_a_failing_sink() {
    let mut writer = Writer::new(BoundedSink::new(0));
    let input = b"\x1b[31m\x1b]0;title\x07\x1bPq#0\x1b\\\x1b7\r\t\x07";
    assert_eq!(writer.write(input).ok(), Some(input.len()));
    assert_eq!(writer.flush().ok(), Some(()));
    assert!(writer.into_inner().is_ok());
}

#[test]
fn linefeed_hands_the_line_to_the_sink() {
    let mut writer = Writer::new(BoundedSink::new(3));
    assert_eq!(writer.write(b"\x1b[1mab\n").ok(), Some(7));
    assert_eq!(writer.write(b"c"), Ok(1));
    assert_eq!(writer.into_inner().err().map(|e| e.error), Some(full()));
}
