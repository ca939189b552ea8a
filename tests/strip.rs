use strip_ansi_escapes::strip;
use strip_ansi_escapes::Performer;
use strip_ansi_escapes::Writer;

fn assert_parsed(input: &[u8], expected: &[u8]) {
    let bytes = strip(input).expect("Failed to strip escapes");
    assert_eq!(bytes, expected);
}

#[test]
fn test_simple() {
    assert_parsed(b"\x1b[m\x1b[m\x1b[32m\x1b[1m    Finished\x1b[m dev [unoptimized + debuginfo] target(s) in 0.0 secs",
                  b"    Finished dev [unoptimized + debuginfo] target(s) in 0.0 secs");
}

#[test]
fn test_newlines() {
    assert_parsed(b"foo\nbar\n", b"foo\nbar\n");
}

#[test]
fn test_escapes_newlines() {
    assert_parsed(b"\x1b[m\x1b[m\x1b[32m\x1b[1m   Compiling\x1b[m utf8parse v0.1.0
\x1b[m\x1b[m\x1b[32m\x1b[1m   Compiling\x1b[m vte v0.3.2
\x1b[m\x1b[m\x1b[32m\x1b[1m   Compiling\x1b[m strip-ansi-escapes v0.1.0-pre (file:///build/strip-ansi-escapes)
\x1b[m\x1b[m\x1b[32m\x1b[1m    Finished\x1b[m dev [unoptimized + debuginfo] target(s) in 0.66 secs
",
                  b"   Compiling utf8parse v0.1.0
   Compiling vte v0.3.2
   Compiling strip-ansi-escapes v0.1.0-pre (file:///build/strip-ansi-escapes)
    Finished dev [unoptimized + debuginfo] target(s) in 0.66 secs
");
}

#[test]
fn pass_normal_text_through() {
    let output = strip("hello".as_bytes()).unwrap();
    assert_eq!(std::str::from_utf8(&output).unwrap(), "hello");
}

#[test]
fn strip_escape_sequences() {
    let output = strip("foo\x1B7bar".as_bytes()).unwrap();
    assert_eq!(std::str::from_utf8(&output).unwrap(), "foobar");
}

#[test]
fn plain_text_write_reports_full_length() {
    let mut writer = Writer::new(Vec::new());
    let input = b"plain text, no control bytes at all";
    assert_eq!(writer.write(input).ok(), Some(input.len()));
    let out = writer.into_inner().ok().unwrap();
    assert_eq!(out, input.to_vec());
}

#[test]
fn csi_sequences_between_text_are_removed() {
    assert_parsed(b"a\x1b[1;31mb\x1b[0mc\x1b[2Jd\x1b[10;20He", b"abcde");
}

#[test]
fn trailing_linefeed_is_kept_on_every_line() {
    assert_parsed(b"\x1b[31mred\x1b[m\n\x1b[32mgreen\x1b[m\n", b"red\ngreen\n");
}

#[test]
fn osc_and_dcs_sequences_are_removed() {
    assert_parsed(b"x\x1b]0;window title\x07y", b"xy");
    assert_parsed(b"x\x1b]2;title\x1b\\y", b"xy");
    assert_parsed(b"x\x1bPq#0;2;0;0;0\x1b\\y", b"xy");
}

#[test]
fn other_control_bytes_are_dropped() {
    assert_parsed(b"a\rb\tc\x07d\x08e", b"abcde");
}

#[test]
fn multibyte_characters_pass_through() {
    let input = "caf\u{e9} \u{20ac}5 \u{1F600}!".as_bytes();
    assert_parsed(input, input);
}

#[test]
fn empty_input_gives_empty_output() {
    assert_parsed(b"", b"");
}

#[test]
fn chunked_writes_match_one_write() {
    let input: &[u8] = b"\x1b[m\x1b[32mgreen\x1b[m text\n\x1b]0;t\x07more \xc3\xa9\x1b7end\n";
    let whole = strip(input).unwrap();
    for split in 0..=input.len() {
        let mut writer = Writer::new(Vec::new());
        assert_eq!(writer.write(&input[..split]).ok(), Some(split));
        assert_eq!(writer.write(&input[split..]).ok(), Some(input.len() - split));
        assert_eq!(writer.into_inner().ok().unwrap(), whole);
    }
    let mut writer = Writer::new(Vec::new());
    for b in input {
        assert_eq!(writer.write(&[*b]).ok(), Some(1));
    }
    assert_eq!(writer.into_inner().ok().unwrap(), whole);
}

#[test]
fn writer_and_unwrap_match_strip() {
    let input = b"\x1b[1mbold\x1b[0m and plain";
    let mut writer = Writer::new(Vec::new());
    writer.write(input).ok().unwrap();
    assert_eq!(writer.into_inner().ok().unwrap(), strip(input).unwrap());
}

#[test]
fn writer_keeps_what_the_sink_held() {
    let mut writer = Writer::new(b"start:".to_vec());
    writer.write(b"\x1b[4mx\x1b[24m").ok().unwrap();
    assert_eq!(writer.flush().ok(), Some(()));
    assert_eq!(writer.into_inner().ok().unwrap(), b"start:x".to_vec());
}

#[test]
fn long_line_without_linefeed_is_kept_whole() {
    let input = vec![b'z'; 5000];
    assert_parsed(&input, &input);
}

#[test]
fn performer_forwards_characters_and_linefeeds() {
    let mut performer = Performer::new(Vec::new());
    performer.print('h');
    performer.print('\u{e9}');
    performer.execute(b'\r');
    performer.execute(b'\n');
    assert_eq!(performer.flush().ok(), Some(()));
    let out = performer.into_inner().ok().unwrap();
    assert_eq!(out, vec![b'h', 0xc3, 0xa9, b'\n']);
}

#[test]
fn finished_lines_can_be_taken_as_they_come() {
    let mut writer = Writer::new(Vec::new());
    assert_eq!(writer.write(b"\x1b[32mone\x1b[m\ntw").ok(), Some(14));
    assert_eq!(writer.take_delivered(), b"one\n".to_vec());
    assert_eq!(writer.take_delivered(), Vec::<u8>::new());
    assert_eq!(writer.write(b"o\n").ok(), Some(2));
    assert_eq!(writer.write(b"three").ok(), Some(5));
    assert_eq!(writer.take_delivered(), b"two\n".to_vec());
    assert_eq!(writer.into_inner().ok().unwrap(), b"three".to_vec());
}
