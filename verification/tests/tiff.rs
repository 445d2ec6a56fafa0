use std::collections::HashMap;
use std::io::Cursor;

use cap_recording::cursor::{CursorRecorder, MouseState, RgbaPicture, ShownCursor};
use cap_recording::tiff::has_plain_pixels;

const SHORT: u16 = 3;
const LONG: u16 = 4;

/// A TIFF file with this directory, followed by these bytes.
fn tiff(entries: &[(u16, u16, u32, u32)], data: &[u8]) -> Vec<u8> {
    let mut file = b"II*\0\x08\0\0\0".to_vec();
    file.extend((entries.len() as u16).to_le_bytes());
    for (tag, of_type, count, value) in entries {
        file.extend(tag.to_le_bytes());
        file.extend(of_type.to_le_bytes());
        file.extend(count.to_le_bytes());
        file.extend(value.to_le_bytes());
    }
    file.extend([0; 4]);
    file.extend(data);
    file
}

/// Where the data begins behind a directory of `entries` entries.
fn data_at(entries: u32) -> u32 {
    8 + 2 + 12 * entries + 4
}

/// One red pixel, with its three samples in planes of their own.
fn planar() -> Vec<u8> {
    let data = data_at(9);
    let mut bytes = Vec::new();
    for offset in [data + 24, data + 25, data + 26] {
        bytes.extend(offset.to_le_bytes());
    }
    for len in [1u32, 1, 1] {
        bytes.extend(len.to_le_bytes());
    }
    bytes.extend([200, 100, 50]);
    tiff(
        &[
            (256, SHORT, 1, 1),
            (257, SHORT, 1, 1),
            (258, SHORT, 1, 8),
            (259, SHORT, 1, 1),
            (262, SHORT, 1, 2),
            (273, LONG, 3, data),
            (277, SHORT, 1, 3),
            (279, LONG, 3, data + 12),
            (284, SHORT, 1, 2),
        ],
        &bytes,
    )
}

/// One grey pixel.
fn grey(compression: u32, planar_configuration: u32) -> Vec<u8> {
    tiff(
        &[
            (256, SHORT, 1, 1),
            (257, SHORT, 1, 1),
            (258, SHORT, 1, 8),
            (259, SHORT, 1, compression),
            (262, SHORT, 1, 1),
            (273, LONG, 1, data_at(9)),
            (277, SHORT, 1, 1),
            (279, LONG, 1, 1),
            (284, SHORT, 1, planar_configuration),
        ],
        &[77],
    )
}

/// Pixels in cyan, magenta, yellow and black, in a row of four, with every
/// colour in a plane of its own.
fn cmyk_planes(rows: u32) -> Vec<u8> {
    let data = data_at(9);
    let mut bytes = Vec::new();
    for plane in 0..4u32 {
        bytes.extend((data + 32 + 4 * plane).to_le_bytes());
    }
    for len in [4u32; 4] {
        bytes.extend(len.to_le_bytes());
    }
    bytes.extend([255, 0, 0, 0]);
    bytes.extend([9; 12]);
    tiff(
        &[
            (256, LONG, 1, 4),
            (257, LONG, 1, rows),
            (258, SHORT, 1, 8),
            (259, SHORT, 1, 1),
            (262, SHORT, 1, 5),
            (273, LONG, 4, data),
            (277, SHORT, 1, 4),
            (279, LONG, 4, data + 16),
            (284, SHORT, 1, 2),
        ],
        &bytes,
    )
}

/// Grey pixels in tiles of this size, in a row of tiles with the same data.
fn tiles(compression: u32, size: (u32, u32), tile_size: (u32, u32), tile: &[u8]) -> Vec<u8> {
    let across = (size.0 + tile_size.0 - 1) / tile_size.0;
    let data = data_at(10);
    let mut bytes = Vec::new();
    for _ in 0..across {
        bytes.extend((data + 8 * across).to_le_bytes());
    }
    for _ in 0..across {
        bytes.extend((tile.len() as u32).to_le_bytes());
    }
    bytes.extend(tile);
    // A single number stands in the entry itself.
    let (offsets, lens) =
        if across == 1 { (data + 8, tile.len() as u32) } else { (data, data + 4 * across) };
    tiff(
        &[
            (256, SHORT, 1, size.0),
            (257, SHORT, 1, size.1),
            (258, SHORT, 1, 8),
            (259, SHORT, 1, compression),
            (262, SHORT, 1, 1),
            (277, SHORT, 1, 1),
            (322, SHORT, 1, tile_size.0),
            (323, SHORT, 1, tile_size.1),
            (324, LONG, across, offsets),
            (325, LONG, across, lens),
        ],
        &bytes,
    )
}

fn decode(file: &Vec<u8>) -> Option<RgbaPicture> {
    let mouse_state = MouseState { coords: (0, 0), button_pressed: vec![] };
    let recorder: CursorRecorder<f64> = CursorRecorder::new(HashMap::new(), 0, mouse_state);
    match recorder.identify(Some(file)) {
        ShownCursor::New(new) => new.picture,
        ShownCursor::Known(id) => panic!("known as {id}"),
    }
}

#[test]
fn separate_planes_are_not_decoded() {
    assert!(!has_plain_pixels(&planar()));
    assert!(decode(&planar()).is_none());
}

#[test]
fn single_plane_is_decoded() {
    for planar_configuration in [1, 2] {
        let file = grey(1, planar_configuration);
        assert!(has_plain_pixels(&file));
        let picture = decode(&file).unwrap();
        assert_eq!((picture.width, picture.height), (1, 1));
        assert_eq!(picture.rgba, [77, 77, 77, 255]);
    }
}

#[test]
fn jpeg_data_is_not_decoded() {
    assert!(!has_plain_pixels(&grey(7, 1)));
    assert!(decode(&grey(7, 1)).is_none());
}

#[test]
fn first_plane_of_a_cmyk_picture_is_decoded() {
    let file = cmyk_planes(1);
    assert!(has_plain_pixels(&file));
    let picture = decode(&file).unwrap();
    assert_eq!((picture.width, picture.height), (4, 1));
    // The plane is taken for pixels, and there is enough of it for one.
    assert_eq!(picture.rgba, [0, 255, 255, 255, 0, 0, 0, 255, 0, 0, 0, 255, 0, 0, 0, 255]);
    // With too many rows the parts of the planes cannot be counted.
    assert!(has_plain_pixels(&cmyk_planes(0x3fff_ffff)));
    assert!(!has_plain_pixels(&cmyk_planes(0x4000_0000)));
    assert!(decode(&cmyk_planes(0x4000_0000)).is_none());
}

#[test]
fn lzw_data_is_decoded_unless_tiles_share_a_row() {
    // The data ends within a row of the tile.
    let broken = [0x80, 0x10, 0x60, 0x44, 0x28, 0x24, 0x04];
    let file = tiles(5, (6, 2), (3, 2), &broken);
    assert!(!has_plain_pixels(&file));
    assert!(decode(&file).is_none());
    // A tile that reaches over the end of the row.
    assert!(!has_plain_pixels(&tiles(5, (2, 2), (3, 2), &broken)));
    // Tiles that are not compressed.
    let file = tiles(1, (4, 1), (2, 1), &[1, 2]);
    assert!(has_plain_pixels(&file));
    let rgba = decode(&file).unwrap().rgba;
    assert_eq!(rgba, [1, 1, 1, 255, 2, 2, 2, 255, 1, 1, 1, 255, 2, 2, 2, 255]);
    // The codes 256, 77 and 257, of nine bits each.
    let lzw = [0x80, 0x13, 0x60, 0x20];
    let file = tiles(5, (1, 1), (1, 1), &lzw);
    assert!(has_plain_pixels(&file));
    assert_eq!(decode(&file).unwrap().rgba, [77, 77, 77, 255]);
    let file = tiff(
        &[
            (256, SHORT, 1, 1),
            (257, SHORT, 1, 1),
            (258, SHORT, 1, 8),
            (259, SHORT, 1, 5),
            (262, SHORT, 1, 1),
            (273, LONG, 1, data_at(8)),
            (277, SHORT, 1, 1),
            (279, LONG, 1, 4),
        ],
        &lzw,
    );
    assert!(has_plain_pixels(&file));
    assert_eq!(decode(&file).unwrap().rgba, [77, 77, 77, 255]);
}

#[test]
fn samples_that_stand_together_are_decoded() {
    let pixels = vec![1, 2, 3, 4, 5, 6, 7, 8];
    let image = image::RgbaImage::from_raw(2, 1, pixels.clone()).unwrap();
    let mut file = Cursor::new(Vec::new());
    image.write_to(&mut file, image::ImageFormat::Tiff).unwrap();
    let file = file.into_inner();
    assert!(has_plain_pixels(&file));
    assert_eq!(decode(&file).unwrap().rgba, pixels);
}

#[test]
fn layout_is_that_of_the_last_entry() {
    let rgb = (277, SHORT, 1, 3);
    // Numbers of every size.
    assert!(!has_plain_pixels(&tiff(&[rgb, (284, 1, 1, 2)], &[])));
    assert!(!has_plain_pixels(&tiff(&[rgb, (284, LONG, 1, 2)], &[])));
    let long8 = tiff(&[rgb, (284, 16, 1, data_at(2))], &2u64.to_le_bytes());
    assert!(!has_plain_pixels(&long8));
    assert!(!has_plain_pixels(&tiff(&[rgb, (284, 13, 1, 2)], &[])));
    let ifd8 = tiff(&[rgb, (284, 18, 1, data_at(2))], &2u64.to_le_bytes());
    assert!(!has_plain_pixels(&ifd8));
    // The last entry counts, and those of an unknown type do not.
    assert!(has_plain_pixels(&tiff(&[rgb, (284, SHORT, 1, 2), (284, SHORT, 1, 1)], &[])));
    assert!(!has_plain_pixels(&tiff(&[rgb, (284, SHORT, 1, 1), (284, SHORT, 1, 2)], &[])));
    assert!(!has_plain_pixels(&tiff(&[rgb, (284, SHORT, 1, 2), (284, 99, 1, 1)], &[])));
    // Several numbers are not one.
    assert!(has_plain_pixels(&tiff(&[rgb, (284, SHORT, 2, 2)], &[])));
    // Nor is a field that is missing, or a directory that is.
    assert!(has_plain_pixels(&tiff(&[(284, SHORT, 1, 2)], &[])));
    assert!(has_plain_pixels(&b"II*\0\xff\0\0\0".to_vec()));
    assert!(has_plain_pixels(&b"II*\0".to_vec()));
    assert!(has_plain_pixels(&vec![]));
    // The other byte order.
    let mut file = b"MM\0*\0\0\0\x08\0\x02".to_vec();
    file.extend([1, 0x15, 0, 3, 0, 0, 0, 1, 0, 3, 0, 0]);
    file.extend([1, 0x1c, 0, 3, 0, 0, 0, 1, 0, 2, 0, 0]);
    assert!(!has_plain_pixels(&file));
    file[31] = 1;
    assert!(has_plain_pixels(&file));
}
