use pixelrs::cell::{Color, Pixel};
use pixelrs::codec::{decode_record, encode, split_records, SerializableErase, SerializableSync, SerializableTermChar, Update};
use pixelrs::screen::Item;

fn placement(x: i32, y: i32, c: char, fg: u8, bg: u8, empty: bool) -> SerializableTermChar {
    SerializableTermChar { abs_x: x, abs_y: y, character: c, foreground_color: fg, background_color: bg, empty }
}

fn round_trip(u: &Update) -> Option<Update> {
    let bytes = encode(u);
    assert_eq!(bytes.last(), Some(&b'\n'));
    decode_record(&bytes[..bytes.len() - 1])
}

#[test]
fn placement_round_trips() {
    for u in [
        Update::TermChar(placement(10, 4, ' ', 3, 3, false)),
        Update::TermChar(placement(-7, i32::MIN, 'Z', 0, 255, true)),
        Update::TermChar(placement(i32::MAX, -1, '\u{e9}', 17, 200, false)),
        Update::TermChar(placement(0, 0, '\u{1F600}', 1, 2, true)),
    ] {
        assert_eq!(round_trip(&u), Some(u.clone()));
    }
}

#[test]
fn erasure_round_trips() {
    for u in [
        Update::Erase(SerializableErase { abs_x: 10, abs_y: 4 }),
        Update::Erase(SerializableErase { abs_x: i32::MIN, abs_y: i32::MAX }),
    ] {
        assert_eq!(round_trip(&u), Some(u.clone()));
    }
}

#[test]
fn sync_round_trips() {
    let empty = Update::Sync(SerializableSync { items: vec![] });
    assert_eq!(round_trip(&empty), Some(empty.clone()));
    let two = Update::Sync(SerializableSync { items: vec![placement(1, 2, 'a', 3, 4, false), placement(-5, 6, 'b', 7, 8, true)] });
    assert_eq!(round_trip(&two), Some(two.clone()));
}

#[test]
fn records_have_the_documented_layout() {
    let bytes = encode(&Update::Erase(SerializableErase { abs_x: 1, abs_y: -1 }));
    assert_eq!(bytes, b"E x=80000001 y=7fffffff\n".to_vec());
    let bytes = encode(&Update::TermChar(placement(0, 2, 'A', 3, 16, false)));
    assert_eq!(bytes, b"P x=80000000 y=80000002 character=00000041 fg-index=03 bg-index=10 transparent=0\n".to_vec());
    let bytes = encode(&Update::Sync(SerializableSync { items: vec![placement(0, 0, ' ', 0, 0, true)] }));
    assert_eq!(bytes, b"S n=00000001 x=80000000 y=80000000 character=00000020 fg-index=00 bg-index=00 transparent=1\n".to_vec());
}

#[test]
fn malformed_records_are_rejected() {
    assert_eq!(decode_record(b""), None);
    assert_eq!(decode_record(b"{\"TermChar\":{}}"), None);
    assert_eq!(decode_record(b"E x=80000001 y=7fffffff "), None);
    assert_eq!(decode_record(b"E x=8000000g y=7fffffff"), None);
    assert_eq!(decode_record(b"E x=80000001 z=7fffffff"), None);
    assert_eq!(decode_record(b"P x=80000000 y=80000002 character=00000041 fg-index=03 bg-index=10 transparent=2"), None);
    assert_eq!(decode_record(b"P x=80000000 y=80000002 character=00000041 fg-index=03 bg-index=1G transparent=0"), None);
    assert_eq!(decode_record(b"S n=00000002 x=80000000 y=80000000 character=00000020 fg-index=00 bg-index=00 transparent=1"), None);
}

#[test]
fn surrogate_characters_are_rejected() {
    assert_eq!(decode_record(b"P x=80000000 y=80000002 character=0000d800 fg-index=03 bg-index=10 transparent=0"), None);
    assert_eq!(decode_record(b"P x=80000000 y=80000002 character=00110000 fg-index=03 bg-index=10 transparent=0"), None);
    assert_eq!(
        decode_record(b"P x=80000000 y=80000002 character=0000e000 fg-index=03 bg-index=10 transparent=0"),
        Some(Update::TermChar(placement(0, 2, '\u{e000}', 3, 16, false)))
    );
}

#[test]
fn chunks_split_at_newlines() {
    let parts = split_records(b"ab\n\ncd\nef");
    assert_eq!(parts, vec![b"ab".to_vec(), vec![], b"cd".to_vec(), b"ef".to_vec()]);
    assert!(split_records(b"").is_empty());
    assert_eq!(split_records(b"x\n"), vec![b"x".to_vec()]);
}

#[test]
fn a_malformed_record_does_not_affect_the_next() {
    let mut chunk = b"garbage\n".to_vec();
    chunk.extend(encode(&Update::Erase(SerializableErase { abs_x: 3, abs_y: 4 })));
    let parts = split_records(&chunk);
    assert_eq!(parts.len(), 2);
    assert_eq!(decode_record(&parts[0]), None);
    assert_eq!(decode_record(&parts[1]), Some(Update::Erase(SerializableErase { abs_x: 3, abs_y: 4 })));
}

#[test]
fn placement_from_pixel_takes_the_palette_index() {
    let pixel = Item { name: "P".to_string(), offset: (0, 0), chars: Pixel::new(Color::AnsiValue(9)).to_chars() };
    assert_eq!(SerializableTermChar::from_pixel(pixel, 5, -6), placement(5, -6, ' ', 9, 9, false));
    let plain = Item { name: "P".to_string(), offset: (0, 0), chars: Pixel::new(Color::White).to_chars() };
    assert_eq!(SerializableTermChar::from_pixel(plain, 1, 1), placement(1, 1, ' ', 0, 0, false));
}

#[test]
fn placement_with_old_short_keys_is_rejected() {
    assert_eq!(decode_record(b"P x=80000000 y=80000002 c=00000041 f=03 b=10 t=0"), None);
    assert_eq!(decode_record(b"P x=80000000 y=80000002 character=00000041 fg-index=03 bg_index=10 transparent=0"), None);
}
