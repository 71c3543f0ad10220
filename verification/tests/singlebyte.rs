use encoding::codec::singlebyte::{SingleByteEncoding, SingleByteTable};
use encoding::ErrorCause;

fn chars(s: &str) -> Vec<char> {
    s.chars().collect()
}

fn iso_8859_2() -> SingleByteEncoding {
    SingleByteEncoding::new("iso-8859-2", SingleByteTable::Iso8859_2)
}

#[test]
fn test_encoder_non_bmp() {
    let mut e = iso_8859_2().encoder();
    let mut out: Vec<u8> = Vec::new();
    let (n, err) = e.raw_feed(&chars("A\u{FFFF}B"), &mut out);
    assert_eq!(n, 1);
    let err = err.unwrap();
    assert_eq!(err.upto, 2);
    assert_eq!(err.cause, ErrorCause::UnrepresentableCharacter);
    assert_eq!(out, vec![0x41]);
    out.clear();
    let (n, err) = e.raw_feed(&chars("A\u{10000}B"), &mut out);
    assert_eq!(n, 1);
    let err = err.unwrap();
    assert_eq!(err.upto, 2);
    assert_eq!(err.cause, ErrorCause::UnrepresentableCharacter);
    assert_eq!(out, vec![0x41]);
}

#[test]
fn singlebyte_resume_after_error() {
    // After the unrepresentable code point is reported, re-feeding the
    // remainder succeeds.
    let mut e = iso_8859_2().encoder();
    let mut out: Vec<u8> = Vec::new();
    let (n, err) = e.raw_feed(&chars("A\u{FFFF}B"), &mut out);
    assert_eq!(n, 1);
    assert!(err.is_some());
    assert_eq!(out, vec![0x41]);
    let (n, err) = e.raw_feed(&chars("B"), &mut out);
    assert_eq!((n, err), (1, None));
    assert_eq!(out, vec![0x41, 0x42]);
    assert_eq!(e.raw_finish(&mut out), None);
    assert_eq!(out, vec![0x41, 0x42]);
}

#[test]
fn singlebyte_table_round_trip() {
    // U+0105 (a with ogonek) sits at byte 0xB1 of ISO-8859-2.
    let enc = iso_8859_2();
    let mut e = enc.encoder();
    let mut bytes: Vec<u8> = Vec::new();
    assert_eq!(e.raw_feed(&chars("a\u{105}b"), &mut bytes), (3, None));
    assert_eq!(bytes, vec![0x61, 0xb1, 0x62]);
    assert_eq!(e.raw_finish(&mut bytes), None);
    let mut d = enc.decoder();
    let mut text: Vec<char> = Vec::new();
    assert_eq!(d.raw_feed(&bytes, &mut text), (3, None));
    assert_eq!(d.raw_finish(&mut text), None);
    assert_eq!(text, chars("a\u{105}b"));
}

#[test]
fn singlebyte_ascii_identity() {
    let enc = iso_8859_2();
    let mut e = enc.encoder();
    let mut bytes: Vec<u8> = Vec::new();
    let text = chars("The quick brown fox; 0123456789!");
    assert_eq!(e.raw_feed(&text, &mut bytes), (text.len(), None));
    let mut d = enc.decoder();
    let mut back: Vec<char> = Vec::new();
    assert_eq!(d.raw_feed(&bytes, &mut back), (bytes.len(), None));
    assert_eq!(back, text);
}

#[test]
fn singlebyte_name() {
    let enc = iso_8859_2();
    assert_eq!(enc.name(), "iso-8859-2");
    assert_eq!(enc.encoder().encoding().name(), "iso-8859-2");
    assert_eq!(enc.decoder().encoding().name(), "iso-8859-2");
}
