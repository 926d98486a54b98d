use rdns_domains::record::Parser;

fn parse(buf: &[u8]) -> Option<((usize, usize), (usize, usize))> {
    let mut p = Parser { buf, pos: 0 };
    p.parse().map(|info| (info.name, info.value))
}

const LINE: &[u8] = br#"{"timestamp": "1627467007", "name": "1.120.175.74", "type": "cname", "value": "cpe-1-120-175-74.4cbp-r-037.cha.qld.bigpond.net.au"}"#;

#[test]
fn extracts_second_and_fourth_values() {
    let (name, value) = parse(LINE).unwrap();
    assert_eq!(&LINE[name.0..name.1], b"1.120.175.74");
    assert_eq!(
        &LINE[value.0..value.1],
        &b"cpe-1-120-175-74.4cbp-r-037.cha.qld.bigpond.net.au"[..]
    );
}

#[test]
fn parses_without_whitespace() {
    let buf = br#"{"a":"1","name":"1.2.3.4","t":"x","value":"foo.example.com"}"#;
    let (name, value) = parse(buf).unwrap();
    assert_eq!(&buf[name.0..name.1], b"1.2.3.4");
    assert_eq!(&buf[value.0..value.1], b"foo.example.com");
}

#[test]
fn parses_with_scattered_whitespace() {
    let buf = b"  {\t\"a\" : \"1\" ,\n\"name\" : \"1.2.3.4\" , \"t\" : \"x\" , \"value\" : \"foo.example.com\"\r\n}";
    let (name, value) = parse(buf).unwrap();
    assert_eq!(&buf[name.0..name.1], b"1.2.3.4");
    assert_eq!(&buf[value.0..value.1], b"foo.example.com");
}

#[test]
fn empty_values_are_allowed() {
    let buf = br#"{"":"","name":"","t":"","value":""}"#;
    let (name, value) = parse(buf).unwrap();
    assert_eq!(name.0, name.1);
    assert_eq!(value.0, value.1);
}

#[test]
fn truncated_input_yields_absent() {
    // Every proper prefix of a well-formed record fails to parse.
    let buf = br#"{"a":"1","name":"1.2.3.4","t":"x","value":"foo.example.com"}"#;
    for n in 0..buf.len() {
        assert_eq!(parse(&buf[..n]), None, "prefix of length {}", n);
    }
}

#[test]
fn missing_delimiter_yields_absent() {
    assert_eq!(parse(br#"{"a":"1","name" "1.2.3.4","t":"x","value":"v"}"#), None);
    assert_eq!(parse(br#"{"a":"1" "name":"1.2.3.4","t":"x","value":"v"}"#), None);
    assert_eq!(parse(br#""a":"1","name":"1.2.3.4","t":"x","value":"v"}"#), None);
    assert_eq!(parse(br#"{"a":"1","name":"1.2.3.4","t":"x","value":"v""#), None);
}

#[test]
fn fewer_than_four_fields_yields_absent() {
    assert_eq!(parse(br#"{}"#), None);
    assert_eq!(parse(br#"{"a":"1"}"#), None);
    assert_eq!(parse(br#"{"a":"1","name":"1.2.3.4"}"#), None);
    assert_eq!(parse(br#"{"a":"1","name":"1.2.3.4","t":"x"}"#), None);
}

#[test]
fn empty_buffer_yields_absent() {
    assert_eq!(parse(b""), None);
}

#[test]
fn key_names_are_not_checked() {
    // The contract relies on fixed field order, not on the key spellings.
    let buf = br#"{"x":"1","y":"1.2.3.4","z":"x","w":"foo.example.com"}"#;
    let (name, value) = parse(buf).unwrap();
    assert_eq!(&buf[name.0..name.1], b"1.2.3.4");
    assert_eq!(&buf[value.0..value.1], b"foo.example.com");
}
