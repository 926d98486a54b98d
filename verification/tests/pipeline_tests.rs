use std::io::{Read, Write};

use flate2::read::GzDecoder;
use flate2::write::GzEncoder;
use flate2::Compression;
use rdns_domains::pipeline::{emit_line, has_unicode_escape, process_line, LineOutcome};
use rdns_domains::suffix::SuffixSet;

// Raw strings keep the backslash: the second line below really holds the
// two bytes `\` `u`, exactly as they sit in an undecoded record.
const LINE_OK: &[u8] = br#"{"ts":"1","name":"1.2.3.4","t":"a","value":"foo.example.com"}"#;
const LINE_UNICODE: &[u8] = br#"{"ts":"2","name":"5.6.7.8","t":"a","value":"\u0041bc.example.com"}"#;

fn com_set() -> SuffixSet {
    let mut s = SuffixSet::new();
    s.insert(b"com".to_vec());
    s
}

#[test]
fn detects_unicode_escape() {
    assert!(has_unicode_escape(br#"{"a":"\u0041"}"#));
    assert!(has_unicode_escape(LINE_UNICODE));
    assert!(!has_unicode_escape(br#"{"a":"A"}"#));
    assert!(!has_unicode_escape(b"ends with a backslash\\"));
    assert!(!has_unicode_escape(b"u\\"));
    assert!(!has_unicode_escape(b""));
}

#[test]
fn valid_record_is_emitted() {
    let set = com_set();
    match process_line(LINE_OK, &set) {
        LineOutcome::Emit { ip, domain_start, domain_end } => {
            assert_eq!(ip, 16909060);
            assert_eq!(&LINE_OK[domain_start..domain_end], b"example");
        }
        other => panic!("expected an emit, got {:?}", other),
    }
}

#[test]
fn unicode_line_is_rejected() {
    let set = com_set();
    assert_eq!(process_line(LINE_UNICODE, &set), LineOutcome::Rejected);
}

#[test]
fn malformed_line_is_a_parse_failure() {
    let set = com_set();
    assert_eq!(process_line(b"not json", &set), LineOutcome::ParseFailure);
    assert_eq!(
        process_line(br#"{"ts":"1","name":"1.2.3.4"}"#, &set),
        LineOutcome::ParseFailure
    );
}

#[test]
fn hostname_without_domain_is_dropped() {
    let set = com_set();
    let line = br#"{"ts":"1","name":"1.2.3.4","t":"a","value":"foo.example.org"}"#;
    assert_eq!(process_line(line, &set), LineOutcome::NoDomain);
}

#[test]
fn malformed_address_is_reported() {
    let set = com_set();
    let line = br#"{"ts":"1","name":"999.2.3.4","t":"a","value":"foo.example.com"}"#;
    assert_eq!(process_line(line, &set), LineOutcome::BadAddress);
}

#[test]
fn renders_output_lines() {
    assert_eq!(emit_line(16909060, b"example"), b"16909060,example\n");
    assert_eq!(emit_line(0, b"a"), b"0,a\n");
    assert_eq!(emit_line(4294967295, b"x.y"), b"4294967295,x.y\n");
    assert_eq!(emit_line(10, b""), b"10,\n");
}

/// Runs the whole per-line pipeline over a gzip buffer the way the driver
/// does, returning the primary output and the rejects output.
fn run_pipeline(gz: &[u8], set: &SuffixSet) -> (String, Vec<u8>) {
    // Decompression aside, every step below is a library call.
    let mut decoder = GzDecoder::new(gz);
    let mut text = String::new();
    decoder.read_to_string(&mut text).unwrap();
    let mut output: Vec<u8> = Vec::new();
    let mut rejects: Vec<u8> = Vec::new();
    for line in text.split_inclusive('\n') {
        match process_line(line.as_bytes(), set) {
            LineOutcome::Rejected => rejects.extend_from_slice(line.as_bytes()),
            LineOutcome::Emit { ip, domain_start, domain_end } => {
                output.extend_from_slice(&emit_line(ip, &line.as_bytes()[domain_start..domain_end]));
            }
            LineOutcome::ParseFailure | LineOutcome::NoDomain | LineOutcome::BadAddress => {}
        }
    }
    (String::from_utf8(output).unwrap(), rejects)
}

fn two_line_gzip_input() -> Vec<u8> {
    let mut encoder = GzEncoder::new(Vec::new(), Compression::default());
    encoder.write_all(LINE_OK).unwrap();
    encoder.write_all(b"\n").unwrap();
    encoder.write_all(LINE_UNICODE).unwrap();
    encoder.write_all(b"\n").unwrap();
    encoder.finish().unwrap()
}

#[test]
fn end_to_end_two_line_gzip_stream() {
    let gz = two_line_gzip_input();
    let (output, rejects) = run_pipeline(&gz, &com_set());
    assert_eq!(output, "16909060,example\n");
    let mut expected_rejects = LINE_UNICODE.to_vec();
    expected_rejects.push(b'\n');
    assert_eq!(rejects, expected_rejects);
}

#[test]
fn rerunning_the_pipeline_is_byte_identical() {
    let gz = two_line_gzip_input();
    let set_a = com_set();
    let set_b = com_set();
    let (out_a, rej_a) = run_pipeline(&gz, &set_a);
    let (out_b, rej_b) = run_pipeline(&gz, &set_b);
    assert_eq!(out_a, out_b);
    assert_eq!(rej_a, rej_b);
}
