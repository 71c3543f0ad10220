use encoding::codec::japanese::{EUCJPEncoding, ShiftJISEncoding};
use encoding::ErrorCause;

fn chars(s: &str) -> Vec<char> {
    s.chars().collect()
}

#[test]
fn japanese_test_encoder_valid() {
    let mut e = EUCJPEncoding.encoder();
    let mut out: Vec<u8> = Vec::new();
    assert_eq!(e.raw_feed(&chars("A"), &mut out), (1, None));
    assert_eq!(out, vec![0x41]);
    out.clear();
    assert_eq!(e.raw_feed(&chars("BC"), &mut out), (2, None));
    assert_eq!(out, vec![0x42, 0x43]);
    out.clear();
    assert_eq!(e.raw_feed(&chars(""), &mut out), (0, None));
    assert_eq!(out, vec![]);
    out.clear();
    assert_eq!(e.raw_feed(&chars("\u{a5}"), &mut out), (1, None));
    assert_eq!(out, vec![0x5c]);
    out.clear();
    assert_eq!(e.raw_feed(&chars("\u{203e}"), &mut out), (1, None));
    assert_eq!(out, vec![0x7e]);
    out.clear();
    assert_eq!(e.raw_feed(&chars("\u{306b}\u{307b}\u{3093}"), &mut out), (3, None));
    assert_eq!(out, vec![0xa4, 0xcb, 0xa4, 0xdb, 0xa4, 0xf3]);
    out.clear();
    assert_eq!(e.raw_feed(&chars("\u{ff86}\u{ff8e}\u{ff9d}"), &mut out), (3, None));
    assert_eq!(out, vec![0x8e, 0xc6, 0x8e, 0xce, 0x8e, 0xdd]);
    out.clear();
    assert_eq!(e.raw_feed(&chars("\u{65e5}\u{672c}"), &mut out), (2, None));
    assert_eq!(out, vec![0xc6, 0xfc, 0xcb, 0xdc]);
    out.clear();
    assert_eq!(e.raw_finish(&mut out), None);
    assert_eq!(out, vec![]);
}

#[test]
fn japanese_test_encoder_invalid() {
    let mut e = EUCJPEncoding.encoder();
    let mut out: Vec<u8> = Vec::new();
    let (n, err) = e.raw_feed(&chars("\u{ffff}"), &mut out);
    assert_eq!(n, 0);
    let err = err.unwrap();
    assert_eq!(err.upto, 1);
    assert_eq!(err.cause, ErrorCause::UnrepresentableCharacter);
    assert_eq!(out, vec![]);
    out.clear();
    let (n, err) = e.raw_feed(&chars("?\u{ffff}!"), &mut out);
    assert_eq!(n, 1);
    let err = err.unwrap();
    assert_eq!(err.upto, 2);
    assert_eq!(err.cause, ErrorCause::UnrepresentableCharacter);
    assert_eq!(out, vec![0x3f]);
    out.clear();
    // JIS X 0212 is not supported in the encoder
    let (n, err) = e.raw_feed(&chars("\u{736c}\u{8c78}"), &mut out);
    assert_eq!(n, 0);
    let err = err.unwrap();
    assert_eq!(err.upto, 1);
    assert_eq!(err.cause, ErrorCause::UnrepresentableCharacter);
    assert_eq!(out, vec![]);
    out.clear();
    assert_eq!(e.raw_finish(&mut out), None);
    assert_eq!(out, vec![]);
}

#[test]
fn japanese_test_decoder_valid() {
    let mut d = EUCJPEncoding.decoder();
    let mut out: Vec<char> = Vec::new();
    assert_eq!(d.raw_feed(&[0x41], &mut out), (1, None));
    assert_eq!(out, chars("A"));
    out.clear();
    assert_eq!(d.raw_feed(&[0x42, 0x43], &mut out), (2, None));
    assert_eq!(out, chars("BC"));
    out.clear();
    assert_eq!(d.raw_feed(&[], &mut out), (0, None));
    assert_eq!(out, chars(""));
    out.clear();
    assert_eq!(d.raw_feed(&[0x5c], &mut out), (1, None));
    assert_eq!(out, chars("\\"));
    out.clear();
    assert_eq!(d.raw_feed(&[0x7e], &mut out), (1, None));
    assert_eq!(out, chars("~"));
    out.clear();
    assert_eq!(d.raw_feed(&[0xa4, 0xcb, 0xa4, 0xdb, 0xa4, 0xf3], &mut out), (6, None));
    assert_eq!(out, chars("\u{306b}\u{307b}\u{3093}"));
    out.clear();
    assert_eq!(d.raw_feed(&[0x8e, 0xc6, 0x8e, 0xce, 0x8e, 0xdd], &mut out), (6, None));
    assert_eq!(out, chars("\u{ff86}\u{ff8e}\u{ff9d}"));
    out.clear();
    assert_eq!(d.raw_feed(&[0xc6, 0xfc, 0xcb, 0xdc], &mut out), (4, None));
    assert_eq!(out, chars("\u{65e5}\u{672c}"));
    out.clear();
    assert_eq!(d.raw_feed(&[0x8f, 0xcb, 0xc6, 0xec, 0xb8], &mut out), (5, None));
    assert_eq!(out, chars("\u{736c}\u{8c78}"));
    out.clear();
    assert_eq!(d.raw_finish(&mut out), None);
    assert_eq!(out, chars(""));
}

#[test]
fn test_encoder_valid() {
    let mut e = ShiftJISEncoding.encoder();
    let mut out: Vec<u8> = Vec::new();
    assert_eq!(e.raw_feed(&chars("A"), &mut out), (1, None));
    assert_eq!(out, vec![0x41]);
    out.clear();
    assert_eq!(e.raw_feed(&chars("BC"), &mut out), (2, None));
    assert_eq!(out, vec![0x42, 0x43]);
    out.clear();
    assert_eq!(e.raw_feed(&chars(""), &mut out), (0, None));
    assert_eq!(out, vec![]);
    out.clear();
    assert_eq!(e.raw_feed(&chars("\u{a5}"), &mut out), (1, None));
    assert_eq!(out, vec![0x5c]);
    out.clear();
    assert_eq!(e.raw_feed(&chars("\u{203e}"), &mut out), (1, None));
    assert_eq!(out, vec![0x7e]);
    out.clear();
    assert_eq!(e.raw_feed(&chars("\u{306b}\u{307b}\u{3093}"), &mut out), (3, None));
    assert_eq!(out, vec![0x82, 0xc9, 0x82, 0xd9, 0x82, 0xf1]);
    out.clear();
    assert_eq!(e.raw_feed(&chars("\u{ff86}\u{ff8e}\u{ff9d}"), &mut out), (3, None));
    assert_eq!(out, vec![0xc6, 0xce, 0xdd]);
    out.clear();
    assert_eq!(e.raw_feed(&chars("\u{65e5}\u{672c}"), &mut out), (2, None));
    assert_eq!(out, vec![0x93, 0xfa, 0x96, 0x7b]);
    out.clear();
    assert_eq!(e.raw_finish(&mut out), None);
    assert_eq!(out, vec![]);
}

#[test]
fn test_encoder_invalid() {
    let mut e = ShiftJISEncoding.encoder();
    let mut out: Vec<u8> = Vec::new();
    let (n, err) = e.raw_feed(&chars("\u{ffff}"), &mut out);
    assert_eq!(n, 0);
    let err = err.unwrap();
    assert_eq!(err.upto, 1);
    assert_eq!(err.cause, ErrorCause::UnrepresentableCharacter);
    assert_eq!(out, vec![]);
    out.clear();
    let (n, err) = e.raw_feed(&chars("?\u{ffff}!"), &mut out);
    assert_eq!(n, 1);
    let err = err.unwrap();
    assert_eq!(err.upto, 2);
    assert_eq!(err.cause, ErrorCause::UnrepresentableCharacter);
    assert_eq!(out, vec![0x3f]);
    out.clear();
    let (n, err) = e.raw_feed(&chars("\u{736c}\u{8c78}"), &mut out);
    assert_eq!(n, 0);
    let err = err.unwrap();
    assert_eq!(err.upto, 1);
    assert_eq!(err.cause, ErrorCause::UnrepresentableCharacter);
    assert_eq!(out, vec![]);
    out.clear();
    assert_eq!(e.raw_finish(&mut out), None);
    assert_eq!(out, vec![]);
}

#[test]
fn test_decoder_valid() {
    let mut d = ShiftJISEncoding.decoder();
    let mut out: Vec<char> = Vec::new();
    assert_eq!(d.raw_feed(&[0x41], &mut out), (1, None));
    assert_eq!(out, chars("A"));
    out.clear();
    assert_eq!(d.raw_feed(&[0x42, 0x43], &mut out), (2, None));
    assert_eq!(out, chars("BC"));
    out.clear();
    assert_eq!(d.raw_feed(&[], &mut out), (0, None));
    assert_eq!(out, chars(""));
    out.clear();
    assert_eq!(d.raw_feed(&[0x5c], &mut out), (1, None));
    assert_eq!(out, chars("\\"));
    out.clear();
    assert_eq!(d.raw_feed(&[0x7e], &mut out), (1, None));
    assert_eq!(out, chars("~"));
    out.clear();
    assert_eq!(d.raw_feed(&[0x82, 0xc9, 0x82, 0xd9, 0x82, 0xf1], &mut out), (6, None));
    assert_eq!(out, chars("\u{306b}\u{307b}\u{3093}"));
    out.clear();
    assert_eq!(d.raw_feed(&[0xc6, 0xce, 0xdd], &mut out), (3, None));
    assert_eq!(out, chars("\u{ff86}\u{ff8e}\u{ff9d}"));
    out.clear();
    assert_eq!(d.raw_feed(&[0x93, 0xfa, 0x96, 0x7b], &mut out), (4, None));
    assert_eq!(out, chars("\u{65e5}\u{672c}"));
    out.clear();
    assert_eq!(d.raw_finish(&mut out), None);
    assert_eq!(out, chars(""));
}

#[test]
fn eucjp_encode_yen_and_overline() {
    let mut e = EUCJPEncoding.encoder();
    let mut out: Vec<u8> = Vec::new();
    assert_eq!(e.raw_feed(&chars("A\u{a5}\u{203e}"), &mut out), (3, None));
    assert_eq!(out, vec![0x41, 0x5c, 0x7e]);
    assert_eq!(e.raw_finish(&mut out), None);
    assert_eq!(out, vec![0x41, 0x5c, 0x7e]);
}

#[test]
fn eucjp_names() {
    assert_eq!(EUCJPEncoding.name(), "euc-jp");
    assert_eq!(ShiftJISEncoding.name(), "shift-jis");
    assert_eq!(EUCJPEncoding.encoder().encoding().name(), "euc-jp");
    assert_eq!(ShiftJISEncoding.decoder().encoding().name(), "shift-jis");
}

#[test]
fn eucjp_decoder_invalid_byte() {
    let mut d = EUCJPEncoding.decoder();
    let mut out: Vec<char> = Vec::new();
    let (n, err) = d.raw_feed(&[0x41, 0xff, 0x42], &mut out);
    assert_eq!(n, 1);
    let err = err.unwrap();
    assert_eq!(err.upto, 2);
    assert_eq!(err.cause, ErrorCause::InvalidSequence);
    assert_eq!(out, chars("A"));
}

#[test]
fn eucjp_decoder_resync_on_bad_trail() {
    // A trail byte outside 0xA1-0xFE stays unconsumed: the fault span ends
    // before it, so the caller may re-feed it as the start of a new unit.
    let mut d = EUCJPEncoding.decoder();
    let mut out: Vec<char> = Vec::new();
    let (n, err) = d.raw_feed(&[0xa4, 0x30], &mut out);
    assert_eq!(n, 0);
    let err = err.unwrap();
    assert_eq!(err.upto, 1);
    assert_eq!(err.cause, ErrorCause::InvalidSequence);
    assert_eq!(out, chars(""));
    // An in-range trail whose coordinate is unmapped is taken into the span.
    let mut d = EUCJPEncoding.decoder();
    let (n, err) = d.raw_feed(&[0xa9, 0xa1], &mut out);
    assert_eq!(n, 0);
    let err = err.unwrap();
    assert_eq!(err.upto, 2);
    assert_eq!(err.cause, ErrorCause::InvalidSequence);
    assert_eq!(out, chars(""));
}

#[test]
fn eucjp_decoder_chunk_boundaries() {
    // Splitting a valid stream at every position resolves the same text.
    let bytes = [0x8f, 0xcb, 0xc6, 0xec, 0xb8, 0x8e, 0xc6, 0xa4, 0xcb, 0x41];
    let expected = chars("\u{736c}\u{8c78}\u{ff86}\u{306b}A");
    for split in 0..=bytes.len() {
        let mut d = EUCJPEncoding.decoder();
        let mut out: Vec<char> = Vec::new();
        let (a, b) = bytes.split_at(split);
        let (n1, e1) = d.raw_feed(a, &mut out);
        assert_eq!((n1, e1), (a.len(), None));
        let (n2, e2) = d.raw_feed(b, &mut out);
        assert_eq!((n2, e2), (b.len(), None));
        assert_eq!(d.raw_finish(&mut out), None);
        assert_eq!(out, expected);
    }
}

#[test]
fn eucjp_decoder_truncated() {
    let mut d = EUCJPEncoding.decoder();
    let mut out: Vec<char> = Vec::new();
    assert_eq!(d.raw_feed(&[0x8e], &mut out), (1, None));
    let err = d.raw_finish(&mut out).unwrap();
    assert_eq!(err.cause, ErrorCause::IncompleteSequence);
    assert_eq!(out, chars(""));

    let mut d = EUCJPEncoding.decoder();
    assert_eq!(d.raw_feed(&[0x8f, 0xcb], &mut out), (2, None));
    let err = d.raw_finish(&mut out).unwrap();
    assert_eq!(err.cause, ErrorCause::IncompleteSequence);
    assert_eq!(out, chars(""));
}

#[test]
fn shiftjis_decoder_chunk_boundaries() {
    let bytes = [0x93, 0xfa, 0x96, 0x7b, 0xc6, 0x41];
    let expected = chars("\u{65e5}\u{672c}\u{ff86}A");
    for split in 0..=bytes.len() {
        let mut d = ShiftJISEncoding.decoder();
        let mut out: Vec<char> = Vec::new();
        let (a, b) = bytes.split_at(split);
        let (n1, e1) = d.raw_feed(a, &mut out);
        assert_eq!((n1, e1), (a.len(), None));
        let (n2, e2) = d.raw_feed(b, &mut out);
        assert_eq!((n2, e2), (b.len(), None));
        assert_eq!(d.raw_finish(&mut out), None);
        assert_eq!(out, expected);
    }
}

#[test]
fn shiftjis_decoder_invalid_byte() {
    let mut d = ShiftJISEncoding.decoder();
    let mut out: Vec<char> = Vec::new();
    let (n, err) = d.raw_feed(&[0x41, 0xa0], &mut out);
    assert_eq!(n, 1);
    let err = err.unwrap();
    assert_eq!(err.upto, 2);
    assert_eq!(err.cause, ErrorCause::InvalidSequence);
    assert_eq!(out, chars("A"));
}

#[test]
fn shiftjis_decoder_truncated() {
    let mut d = ShiftJISEncoding.decoder();
    let mut out: Vec<char> = Vec::new();
    assert_eq!(d.raw_feed(&[0x93], &mut out), (1, None));
    let err = d.raw_finish(&mut out).unwrap();
    assert_eq!(err.cause, ErrorCause::IncompleteSequence);
    assert_eq!(out, chars(""));
}
