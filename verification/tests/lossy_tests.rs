use tci::lossy::{string_append_utf8_lossy, write_utf8_lossy, Utf8Lossy};
use tci::util::StringWriter;

fn chunks(bytes: &[u8]) -> Vec<(Vec<u8>, Vec<u8>)> {
    let mut iter = Utf8Lossy::from_bytes(bytes).chunks();
    let mut all = Vec::new();
    loop {
        let chunk = iter.next();
        all.push((chunk.valid.to_vec(), chunk.broken.to_vec()));
        if chunk.broken.is_empty() {
            return all;
        }
    }
}

fn lossy(bytes: &[u8]) -> Vec<u8> {
    let mut out = StringWriter::new();
    let total = write_utf8_lossy(&mut out, bytes);
    assert_eq!(total, out.len());
    out.as_bytes().clone()
}

#[test]
fn well_formed_text_is_one_chunk() {
    assert_eq!(chunks(b""), vec![(vec![], vec![])]);
    assert_eq!(chunks(b"abc"), vec![(b"abc".to_vec(), vec![])]);
    let text = "aé€😀\u{7FF}\u{800}\u{FFFF}\u{10000}\u{10FFFF}\u{D7FF}\u{E000}";
    assert_eq!(chunks(text.as_bytes()), vec![(text.as_bytes().to_vec(), vec![])]);
    let mut iter = Utf8Lossy::from_str(text).chunks();
    assert_eq!(iter.next().valid, text.as_bytes());
}

#[test]
fn ill_formed_sequences_end_the_chunks() {
    assert_eq!(chunks(b"a\xFFb"), vec![(b"a".to_vec(), vec![0xFF]), (b"b".to_vec(), vec![])]);
    assert_eq!(chunks(b"\x80"), vec![(vec![], vec![0x80]), (vec![], vec![])]);
    assert_eq!(
        chunks(b"\xC0\xAF"),
        vec![(vec![], vec![0xC0]), (vec![], vec![0xAF]), (vec![], vec![])]
    );
    // A sequence that breaks off is one ill-formed sequence as far as it
    // fits together.
    assert_eq!(chunks(b"\xE2\x82"), vec![(vec![], vec![0xE2, 0x82]), (vec![], vec![])]);
    assert_eq!(chunks(b"\xE2\x82x"), vec![(vec![], vec![0xE2, 0x82]), (b"x".to_vec(), vec![])]);
    assert_eq!(
        chunks(b"\xF0\x9F\x98x"),
        vec![(vec![], vec![0xF0, 0x9F, 0x98]), (b"x".to_vec(), vec![])]
    );
    assert_eq!(chunks(b"\xC3"), vec![(vec![], vec![0xC3]), (vec![], vec![])]);
    // Surrogates, overlong forms and values past U+10FFFF break at the lead
    // byte.
    assert_eq!(chunks(b"\xED\xA0\x80")[0], (vec![], vec![0xED]));
    assert_eq!(chunks(b"\xE0\x80\x80")[0], (vec![], vec![0xE0]));
    assert_eq!(chunks(b"\xF0\x80\x80\x80")[0], (vec![], vec![0xF0]));
    assert_eq!(chunks(b"\xF4\x90\x80\x80")[0], (vec![], vec![0xF4]));
    assert_eq!(chunks(b"\xF5\x80\x80\x80")[0], (vec![], vec![0xF5]));
}

#[test]
fn the_replacement_agrees_with_the_standard_library() {
    let samples: Vec<&[u8]> = vec![
        b"",
        b"plain",
        b"a\xFFb",
        b"\xFF\xFE\xFD",
        b"\xC3\xA9\xC3",
        b"\xE2\x82\xAC\xE2\x82",
        b"\xE2\x82\xE2\x82\xAC",
        b"\xF0\x9F\x98\x80\xF0\x9F\x98",
        b"\xF0\x9F\x98\xF0\x9F\x98\x80",
        b"\xED\xA0\x80x",
        b"\xED\x9F\xBFx",
        b"\xE0\x9F\xBFx",
        b"\xE0\xA0\x80x",
        b"\xF0\x8F\xBF\xBFx",
        b"\xF0\x90\x80\x80x",
        b"\xF4\x8F\xBF\xBFx",
        b"\xF4\x90\x80\x80x",
        b"\xC1\xBF\xC2\x80",
        b"\x00\x7F\x80\xBF\xC0",
        b"Hello \xF0\x90\x80World",
        b"\xEF\xBF\xBD",
    ];
    for sample in samples {
        let expected = String::from_utf8_lossy(sample).into_owned();
        assert_eq!(lossy(sample), expected.as_bytes());
        let mut text = String::from("> ");
        string_append_utf8_lossy(&mut text, sample);
        assert_eq!(text, format!("> {}", expected));
    }
    for first in 0..=255u8 {
        for second in [0x00u8, 0x41, 0x7F, 0x80, 0x8F, 0x90, 0x9F, 0xA0, 0xBF, 0xC0, 0xE0, 0xF4, 0xFF] {
            let sample = [first, second, 0x80, 0x80, b'z'];
            let expected = String::from_utf8_lossy(&sample).into_owned();
            assert_eq!(lossy(&sample), expected.as_bytes());
        }
    }
}

#[test]
fn a_string_writer_takes_well_formed_text_only() {
    let mut out = StringWriter::new();
    assert_eq!(out.write("añ".as_bytes()).unwrap(), 3);
    assert_eq!(out.write(b"").unwrap(), 0);
    assert_eq!(out.write(b"\xC3").unwrap_err().short_name, "WriteFailed");
    assert_eq!(out.write(b"ok\xFF").unwrap_err().short_name, "WriteFailed");
    assert_eq!(out.len(), 3);
    assert_eq!(out.to_string(), "añ");
    assert_eq!(out.flush_string(), "añ");
    assert_eq!(out.len(), 0);
    out.write(b"x").unwrap();
    assert_eq!(out.as_bytes(), &b"x".to_vec());
    assert_eq!(out.into_string(), "x");
}
