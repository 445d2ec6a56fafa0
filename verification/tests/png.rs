use std::collections::HashMap;

use cap_recording::cursor::{CursorRecorder, MouseState, RgbaPicture, ShownCursor};
use cap_recording::png::palette_is_broken;

fn crc(bytes: &[u8]) -> u32 {
    let mut crc = !0u32;
    for byte in bytes {
        crc ^= *byte as u32;
        for _ in 0..8 {
            crc = if crc & 1 == 1 { (crc >> 1) ^ 0xedb8_8320 } else { crc >> 1 };
        }
    }
    !crc
}

fn chunk(kind: &[u8; 4], data: &[u8]) -> Vec<u8> {
    let mut checked = kind.to_vec();
    checked.extend(data);
    let mut bytes = (data.len() as u32).to_be_bytes().to_vec();
    bytes.extend(&checked);
    bytes.extend(crc(&checked).to_be_bytes());
    bytes
}

/// A PNG file of one pixel of this colour type, with these chunks behind the
/// header.
fn png(colour_type: u8, chunks: &[Vec<u8>]) -> Vec<u8> {
    let mut file = vec![137, 80, 78, 71, 13, 10, 26, 10];
    file.extend(chunk(b"IHDR", &[0, 0, 0, 1, 0, 0, 0, 1, 8, colour_type, 0, 0, 0]));
    for chunk in chunks {
        file.extend(chunk);
    }
    file.extend(chunk(b"IEND", &[]));
    file
}

fn palette(len: usize) -> Vec<u8> {
    chunk(b"PLTE", &(0..len).map(|i| (i % 251) as u8 + 10).collect::<Vec<_>>())
}

/// One row, without a filter.
fn pixels(row: &[u8]) -> Vec<u8> {
    let mut raw = vec![0];
    raw.extend(row);
    let (mut low, mut high) = (1u32, 0u32);
    for byte in &raw {
        low = (low + *byte as u32) % 65521;
        high = (high + low) % 65521;
    }
    let len = raw.len() as u16;
    let mut data = vec![0x78, 0x01, 1];
    data.extend(len.to_le_bytes());
    data.extend((!len).to_le_bytes());
    data.extend(&raw);
    data.extend(((high << 16) | low).to_be_bytes());
    chunk(b"IDAT", &data)
}

fn decode(file: &Vec<u8>) -> Option<RgbaPicture> {
    let mouse_state = MouseState { coords: (0, 0), button_pressed: vec![] };
    let recorder: CursorRecorder<f64> = CursorRecorder::new(HashMap::new(), 0, mouse_state);
    match recorder.identify(Some(file)) {
        ShownCursor::New(new) => new.picture,
        ShownCursor::Known(id) => panic!("known as {id}"),
    }
}

#[test]
fn pixels_have_colours_of_the_palette() {
    let file = png(3, &[palette(6), pixels(&[1])]);
    assert!(!palette_is_broken(&file));
    assert_eq!(decode(&file).unwrap().rgba, [13, 14, 15, 255]);
    // As many colours as there can be.
    let file = png(3, &[palette(768), pixels(&[0])]);
    assert!(!palette_is_broken(&file));
    assert_eq!(decode(&file).unwrap().rgba, [10, 11, 12, 255]);
}

#[test]
fn broken_palette_is_not_decoded() {
    for len in [1, 2, 4, 767, 769, 771] {
        let file = png(3, &[chunk(b"gAMA", &[0, 0, 0, 1]), palette(len), pixels(&[0])]);
        assert!(palette_is_broken(&file));
        assert!(decode(&file).is_none());
    }
}

#[test]
fn palette_counts_only_where_it_is_used() {
    // Behind the pixels.
    let file = png(3, &[palette(3), pixels(&[0]), palette(4)]);
    assert!(!palette_is_broken(&file));
    assert_eq!(decode(&file).unwrap().rgba, [10, 11, 12, 255]);
    // In a file whose pixels are colours themselves.
    let file = png(2, &[palette(4), pixels(&[7, 8, 9])]);
    assert!(!palette_is_broken(&file));
    assert_eq!(decode(&file).unwrap().rgba, [7, 8, 9, 255]);
    // In a file that ends within a chunk, or is no PNG file.
    let file = png(3, &[palette(4), pixels(&[0])]);
    assert!(palette_is_broken(&file[..41].to_vec()));
    assert!(!palette_is_broken(&file[..40].to_vec()));
    assert!(!palette_is_broken(&file[1..].to_vec()));
    assert!(!palette_is_broken(&vec![]));
    // A missing palette is no broken one.
    let file = png(3, &[pixels(&[0])]);
    assert!(!palette_is_broken(&file));
    assert!(decode(&file).is_none());
}
