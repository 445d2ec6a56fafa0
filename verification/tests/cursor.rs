use std::collections::hash_map::DefaultHasher;
use std::collections::HashMap;
use std::hash::{Hash, Hasher};

use cap_recording::bitmap::{Bitmap, Bounds, Crop, Rgba};
use cap_recording::cursor::{
    key_of_picture, relative_coords, CursorRecorder, MouseState, ShownCursor,
};
use cap_recording::cursor_image::{
    cursor_height, cursor_picture, get_cursor_image_data, is_text_cursor, CursorShape,
};
use cap_recording::units::{Ratio, XY};

const CLEAR: Rgba = Rgba { r: 0, g: 0, b: 0, a: 0 };
const SHADOW: Rgba = Rgba { r: 0, g: 0, b: 0, a: 100 };
const INK: Rgba = Rgba { r: 10, g: 20, b: 30, a: 255 };

fn mouse(coords: (i32, i32), buttons: &[bool]) -> MouseState {
    MouseState { coords, button_pressed: buttons.to_vec() }
}

fn recorder() -> CursorRecorder<f64> {
    CursorRecorder::new(HashMap::new(), 7, mouse((1, 2), &[false, true, false]))
}

/// A cursor of this size with ink in these places.
fn shape(width: i32, height: i32, ink: &[(i32, i32)]) -> CursorShape {
    let mut bgra = vec![0; (width * height * 4) as usize];
    for (x, y) in ink {
        let at = ((y * width + x) * 4) as usize;
        bgra[at..at + 4].copy_from_slice(&[30, 20, 10, 255]);
    }
    CursorShape { width, height, bgra, is_icon: false, x_hotspot: 0, y_hotspot: 0 }
}

fn bitmap(width: u32, height: u32, ink: &[(u32, u32)]) -> Bitmap {
    let mut pixels = vec![CLEAR; (width * height) as usize];
    for (x, y) in ink {
        pixels[(y * width + x) as usize] = INK;
    }
    Bitmap { width, height, pixels }
}

fn ratio(num: i128, den: i128) -> Ratio {
    Ratio { num, den }
}

#[test]
fn key_is_the_hash_of_the_picture() {
    for picture in [vec![], vec![1], (0..255).collect::<Vec<u8>>()] {
        let mut hasher = DefaultHasher::default();
        picture.hash(&mut hasher);
        assert_eq!(key_of_picture(&picture), hasher.finish());
    }
}

#[test]
fn cursor_without_picture_is_the_default() {
    match recorder().identify(None) {
        ShownCursor::Known(id) => assert_eq!(id, "default"),
        ShownCursor::New(_) => panic!("new cursor"),
    }
}

#[test]
fn new_cursor_is_saved_once() {
    let mut recorder = recorder();
    let image = get_cursor_image_data(&shape(3, 3, &[(1, 1)])).unwrap().image;
    let new = match recorder.identify(Some(&image)) {
        ShownCursor::New(new) => new,
        ShownCursor::Known(id) => panic!("known as {id}"),
    };
    assert_eq!(new.key, key_of_picture(&image));
    assert_eq!(new.cursor_id, "7");
    assert_eq!(new.file_name, "cursor_7.png");
    let picture = new.picture.unwrap();
    assert_eq!((picture.width, picture.height), (3, 3));
    assert_eq!(picture.rgba[16..20], [10, 20, 30, 255]);
    assert_eq!(picture.rgba.iter().filter(|byte| **byte != 0).count(), 4);

    recorder.saved(new.key, new.file_name, XY { x: 0.25, y: 0.5 });
    assert_eq!(recorder.response.next_cursor_id, 8);
    let cursor = &recorder.response.cursors[&key_of_picture(&image)];
    assert_eq!((cursor.id, cursor.file_name.as_str()), (7, "cursor_7.png"));
    assert_eq!((cursor.hotspot.x, cursor.hotspot.y), (0.25, 0.5));
    match recorder.identify(Some(&image)) {
        ShownCursor::Known(id) => assert_eq!(id, "7"),
        ShownCursor::New(_) => panic!("not recognised"),
    }
    // The next cursor gets the next id.
    let other = get_cursor_image_data(&shape(3, 3, &[(0, 1)])).unwrap().image;
    match recorder.identify(Some(&other)) {
        ShownCursor::New(new) => assert_eq!(new.file_name, "cursor_8.png"),
        ShownCursor::Known(id) => panic!("known as {id}"),
    }
}

#[test]
fn undecodable_picture_keeps_the_id_free() {
    let recorder = recorder();
    match recorder.identify(Some(&vec![1, 2, 3])) {
        ShownCursor::New(new) => {
            assert_eq!(new.cursor_id, "7");
            assert!(new.picture.is_none());
        }
        ShownCursor::Known(id) => panic!("known as {id}"),
    }
}

#[test]
fn ids_are_decimal() {
    for id in [0, 9, 10, 99, 100, 1234567890, u32::MAX] {
        let recorder: CursorRecorder<f64> =
            CursorRecorder::new(HashMap::new(), id, mouse((0, 0), &[]));
        match recorder.identify(Some(&vec![])) {
            ShownCursor::New(new) => {
                assert_eq!(new.cursor_id, id.to_string());
                assert_eq!(new.file_name, format!("cursor_{}.png", id));
            }
            ShownCursor::Known(id) => panic!("known as {id}"),
        }
    }
}

#[test]
fn moves_and_clicks_are_recorded() {
    let mut recorder = recorder();
    assert!(recorder.moved(&mouse((1, 3), &[])));
    assert!(!recorder.moved(&mouse((1, 2), &[])));

    // Button 1 goes up, button 2 down; button 3 was not there before.
    recorder.record(
        mouse((5, 6), &[false, false, true, true]),
        "7".to_string(),
        12.5,
        Some(XY { x: 0.1, y: 0.2 }),
    );
    let response = &recorder.response;
    assert_eq!(response.moves.len(), 1);
    assert_eq!(response.moves[0].cursor_id, "7");
    assert_eq!(
        (response.moves[0].time_ms, response.moves[0].x, response.moves[0].y),
        (12.5, 0.1, 0.2)
    );
    assert!(response.moves[0].active_modifiers.is_empty());
    let clicks: Vec<_> = response.clicks.iter().map(|c| (c.cursor_num, c.down)).collect();
    assert_eq!(clicks, [(1, false), (2, true)]);
    assert_eq!((response.clicks[1].cursor_id.as_str(), response.clicks[1].time_ms), ("7", 12.5));
    assert!(response.clicks[1].active_modifiers.is_empty());
    assert_eq!(recorder.last_mouse_state.coords, (5, 6));

    // Nothing happened.
    recorder.record(mouse((5, 6), &[false, false, true, true]), "7".to_string(), 13.5, None);
    assert_eq!((recorder.response.moves.len(), recorder.response.clicks.len()), (1, 2));

    // Button 3 counts from now on.
    recorder.record(mouse((5, 6), &[true, false, true, false]), "8".to_string(), 14.5, None);
    let clicks: Vec<_> = recorder.response.clicks.iter().map(|c| (c.cursor_num, c.down)).collect();
    assert_eq!(clicks, [(1, false), (2, true), (0, true), (3, false)]);
    assert_eq!(recorder.response.clicks[3].cursor_id, "8");
}

#[test]
fn coordinates_are_relative_to_the_recorded_area() {
    assert_eq!(relative_coords((10, -5), (3, -7)), (7, 2));
}

#[test]
fn text_cursors_are_narrow() {
    assert!(is_text_cursor(10, 20));
    assert!(is_text_cursor(20, 40));
    assert!(!is_text_cursor(21, 60));
    assert!(!is_text_cursor(11, 20));
    assert!(!is_text_cursor(5, 19));
}

#[test]
fn mask_holds_two_pictures() {
    assert_eq!(cursor_height(true, 64), 64);
    assert_eq!(cursor_height(false, 64), 32);
    assert_eq!(cursor_height(false, 65), 32);
    assert_eq!(cursor_height(false, 0), 0);
    assert_eq!(cursor_height(false, -8), -8);
}

#[test]
fn outline_surrounds_solid_pixels() {
    let mut picture = bitmap(4, 3, &[(0, 0), (2, 1)]);
    // A pixel that is too visible to be covered, and one that is faint.
    picture.pixels[4] = Rgba { r: 1, g: 2, b: 3, a: 100 };
    picture.pixels[5] = Rgba { r: 1, g: 2, b: 3, a: 99 };
    picture.outline();
    let kept = Rgba { r: 1, g: 2, b: 3, a: 100 };
    assert_eq!(
        picture.pixels,
        [
            INK, SHADOW, SHADOW, SHADOW, //
            kept, SHADOW, INK, SHADOW, //
            CLEAR, SHADOW, SHADOW, SHADOW,
        ]
    );
    // Outlining again changes nothing.
    let once = picture.pixels.clone();
    picture.outline();
    assert_eq!(picture.pixels, once);
    // A pixel at the limit is not solid.
    let mut picture = bitmap(2, 1, &[]);
    picture.pixels[0] = Rgba { r: 0, g: 0, b: 0, a: 200 };
    picture.outline();
    assert_eq!(picture.pixels[1], CLEAR);
}

#[test]
fn bounds_enclose_visible_pixels() {
    assert_eq!(bitmap(4, 4, &[]).content_bounds(), None);
    assert_eq!(
        bitmap(9, 9, &[(3, 5), (6, 2)]).content_bounds(),
        Some(Bounds { min_x: 3, min_y: 2, max_x: 6, max_y: 5 })
    );
}

#[test]
fn margin_is_trimmed() {
    let trimmed = bitmap(20, 10, &[(5, 4), (7, 4)]).trim();
    assert_eq!(trimmed.crop, Some(Crop { x: 3, y: 2, width: 7, height: 5 }));
    assert_eq!(trimmed.bitmap, bitmap(7, 5, &[(2, 2), (4, 2)]));
    // The padding ends where the picture ends.
    let trimmed = bitmap(20, 10, &[(1, 8)]).trim();
    assert_eq!(trimmed.crop, Some(Crop { x: 0, y: 6, width: 4, height: 4 }));
    // Nothing to trim.
    let trimmed = bitmap(3, 3, &[(0, 0), (2, 2)]).trim();
    assert_eq!(trimmed.crop, None);
    assert_eq!(trimmed.bitmap, bitmap(3, 3, &[(0, 0), (2, 2)]));
    assert_eq!(bitmap(3, 3, &[]).trim().crop, None);
}

#[test]
fn part_of_a_picture_is_cut_out() {
    let cut = bitmap(5, 5, &[(2, 3)]).cropped(Crop { x: 1, y: 2, width: 3, height: 2 });
    assert_eq!(cut, bitmap(3, 2, &[(1, 1)]));
}

#[test]
fn hotspot_moves_with_the_picture() {
    let mut cursor = shape(20, 10, &[(5, 4), (7, 4)]);
    cursor.x_hotspot = 5;
    cursor.y_hotspot = 4;
    let picture = cursor_picture(&cursor);
    assert_eq!(picture.bitmap, bitmap(7, 5, &[(2, 2), (4, 2)]));
    // Two sevenths of the width, two fifths of the height.
    assert_eq!(picture.hotspot.x, ratio(5 * 20 - 3 * 20, 20 * 7));
    assert_eq!(picture.hotspot.y, ratio(4 * 10 - 2 * 10, 10 * 5));
    // In pixels of the untrimmed picture it is where it was.
    let hotspot = picture.hotspot.x;
    assert_eq!(hotspot.num * 7 + 3 * hotspot.den, 5 * hotspot.den);

    cursor.is_icon = true;
    let picture = cursor_picture(&cursor);
    assert_eq!(picture.hotspot.x, ratio(20 - 3 * 2, 2 * 7));

    let mut cursor = shape(3, 3, &[(0, 0), (2, 2)]);
    cursor.x_hotspot = 1;
    let picture = cursor_picture(&cursor);
    assert_eq!(picture.hotspot, XY { x: ratio(1, 3), y: ratio(0, 3) });
    cursor.is_icon = true;
    let picture = cursor_picture(&cursor);
    assert_eq!(picture.hotspot, XY { x: ratio(1, 2), y: ratio(1, 2) });
}

#[test]
fn text_cursor_is_outlined_before_it_is_trimmed() {
    let picture = cursor_picture(&shape(10, 20, &[(5, 10)]));
    assert_eq!((picture.bitmap.width, picture.bitmap.height), (7, 7));
    assert_eq!(picture.bitmap.get_pixel(3, 3), INK);
    assert_eq!(picture.bitmap.get_pixel(2, 2), SHADOW);
    assert_eq!(picture.bitmap.get_pixel(1, 1), CLEAR);
    // A wide cursor has no outline.
    let picture = cursor_picture(&shape(11, 20, &[(5, 10)]));
    assert_eq!((picture.bitmap.width, picture.bitmap.height), (5, 5));
}

#[test]
fn picture_is_encoded_as_png() {
    let cursor = shape(20, 10, &[(5, 4), (7, 4)]);
    let data = get_cursor_image_data(&cursor).unwrap();
    assert_eq!(data.image[..8], [137, 80, 78, 71, 13, 10, 26, 10]);
    let decoded = image::load_from_memory(&data.image).unwrap().into_rgba8();
    assert_eq!(decoded.dimensions(), (7, 5));
    assert_eq!(decoded.into_raw(), bitmap(7, 5, &[(2, 2), (4, 2)]).to_rgba_bytes());
    assert_eq!(data.hotspot.x, ratio(0 - 3 * 20, 20 * 7));
    // Pictures without pixels cannot be encoded.
    assert!(get_cursor_image_data(&shape(0, 10, &[])).is_none());
    assert!(get_cursor_image_data(&shape(10, 0, &[])).is_none());
    assert!(get_cursor_image_data(&shape(1, 1, &[])).is_some());
}

#[test]
fn same_cursor_becomes_the_same_file() {
    let text_cursor = shape(10, 20, &[(5, 10), (5, 11)]);
    let one = get_cursor_image_data(&text_cursor).unwrap();
    let other = get_cursor_image_data(&text_cursor).unwrap();
    assert_eq!(one.image, other.image);
    assert_eq!(one.hotspot, other.hotspot);
    let moved = get_cursor_image_data(&shape(10, 20, &[(5, 10), (4, 11)])).unwrap();
    assert_ne!(one.image, moved.image);
}

#[test]
fn saved_cursors_have_ids_of_their_own() {
    let mut recorder = recorder();
    for x in 0..3 {
        let image = get_cursor_image_data(&shape(3, 3, &[(x, 1)])).unwrap().image;
        if let ShownCursor::New(new) = recorder.identify(Some(&image)) {
            recorder.saved(new.key, new.file_name, XY { x: 0.0, y: 0.0 });
        }
    }
    let mut ids: Vec<u32> = recorder.response.cursors.values().map(|cursor| cursor.id).collect();
    ids.sort();
    assert_eq!(ids, [7, 8, 9]);
    assert_eq!(recorder.response.next_cursor_id, 10);
}

#[test]
fn ids_are_given_out_in_order_over_a_recording() {
    let mut recorder = recorder();
    let pictures: Vec<Vec<u8>> =
        (0..3).map(|x| get_cursor_image_data(&shape(3, 3, &[(x, 1)])).unwrap().image).collect();
    let mut seen = Vec::new();
    // The second picture is not saved when it is shown first.
    for (shown, save) in [(0, true), (1, false), (0, true), (2, true), (1, true), (2, true)] {
        let cursor_id = match recorder.identify(Some(&pictures[shown])) {
            ShownCursor::Known(id) => id,
            ShownCursor::New(new) => {
                if save {
                    recorder.saved(new.key, new.file_name, XY { x: 0.0, y: 0.0 });
                }
                new.cursor_id
            }
        };
        seen.push(cursor_id);
    }
    assert_eq!(seen, ["7", "8", "7", "8", "9", "8"]);
    assert_eq!(recorder.response.next_cursor_id, 10);
    for (picture, id) in [(0, 7), (1, 9), (2, 8)] {
        let cursor = &recorder.response.cursors[&key_of_picture(&pictures[picture])];
        assert_eq!(cursor.id, id);
        assert_eq!(cursor.file_name, format!("cursor_{}.png", id));
    }
}

#[test]
fn clicks_alternate_over_a_recording() {
    let mut recorder = recorder();
    let samples =
        [[true, true, false], [true, false, false], [false, true, true], [false, true, true]];
    for (i, buttons) in samples.iter().enumerate() {
        recorder.record(mouse((1, 2), buttons), i.to_string(), i as f64, None);
    }
    let clicks: Vec<_> = recorder
        .response
        .clicks
        .iter()
        .map(|c| (c.time_ms, c.cursor_id.as_str(), c.cursor_num, c.down))
        .collect();
    assert_eq!(
        clicks,
        [
            (0.0, "0", 0, true),
            (1.0, "1", 1, false),
            (2.0, "2", 0, false),
            (2.0, "2", 1, true),
            (2.0, "2", 2, true),
        ]
    );
}
