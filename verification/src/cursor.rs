//! What a recording keeps of the mouse: its moves, its clicks and the cursors
//! that it was shown with.

use std::collections::hash_map::DefaultHasher;
use std::collections::HashMap;
use std::hash::Hasher;

use vstd::prelude::*;
use vstd::std_specs::hash::DefaultHasherAdditionalSpecFns;

use crate::png::{has_broken_palette, palette_is_broken};
use crate::tiff::{has_lzw_tiles, has_plain_pixels, has_separate_planes, holds_jpeg};
use crate::units::XY;

verus! {

/// A cursor whose picture has been saved. Coordinates are of the type `T`,
/// which is only passed on.
pub struct Cursor<T> {
    pub file_name: String,
    pub id: u32,
    pub hotspot: XY<T>,
}

/// The saved cursors, by the key of their picture.
pub type Cursors<T> = HashMap<u64, Cursor<T>>;

pub struct CursorMoveEvent<T> {
    pub active_modifiers: Vec<String>,
    pub cursor_id: String,
    pub time_ms: T,
    pub x: T,
    pub y: T,
}

pub struct CursorClickEvent<T> {
    pub down: bool,
    pub active_modifiers: Vec<String>,
    pub cursor_num: u8,
    pub cursor_id: String,
    pub time_ms: T,
}

/// What has been recorded.
pub struct CursorActorResponse<T> {
    pub cursors: Cursors<T>,
    pub next_cursor_id: u32,
    pub moves: Vec<CursorMoveEvent<T>>,
    pub clicks: Vec<CursorClickEvent<T>>,
}

/// The mouse at one moment.
pub struct MouseState {
    pub coords: (i32, i32),
    pub button_pressed: Vec<bool>,
}

/// The decimal digit `d`.
pub open spec fn digit(d: int) -> char {
    if d == 0 {
        '0'
    } else if d == 1 {
        '1'
    } else if d == 2 {
        '2'
    } else if d == 3 {
        '3'
    } else if d == 4 {
        '4'
    } else if d == 5 {
        '5'
    } else if d == 6 {
        '6'
    } else if d == 7 {
        '7'
    } else if d == 8 {
        '8'
    } else {
        '9'
    }
}

/// `n` in decimal notation.
pub open spec fn decimal(n: nat) -> Seq<char>
    decreases n,
{
    if n < 10 {
        seq![digit(n as int)]
    } else {
        decimal(n / 10).push(digit((n % 10) as int))
    }
}

/// `n` in decimal notation.
fn decimal_string(n: u32) -> (text: String)
    ensures
        text@ == decimal(n as nat),
    decreases n,
{
    let mut text = if n < 10 {
        String::new()
    } else {
        decimal_string(n / 10)
    };
    let d: u32 = n % 10;
    proof {
        reveal_strlit("0");
        reveal_strlit("1");
        reveal_strlit("2");
        reveal_strlit("3");
        reveal_strlit("4");
        reveal_strlit("5");
        reveal_strlit("6");
        reveal_strlit("7");
        reveal_strlit("8");
        reveal_strlit("9");
    }
    let last = if d == 0 {
        "0"
    } else if d == 1 {
        "1"
    } else if d == 2 {
        "2"
    } else if d == 3 {
        "3"
    } else if d == 4 {
        "4"
    } else if d == 5 {
        "5"
    } else if d == 6 {
        "6"
    } else if d == 7 {
        "7"
    } else if d == 8 {
        "8"
    } else {
        "9"
    };
    assert(last@ =~= seq![digit(d as int)]);
    text.append(last);
    assert(text@ =~= decimal(n as nat));
    text
}

/// The name of the file that holds the picture of the cursor number `id`.
pub open spec fn cursor_file_name(id: nat) -> Seq<char> {
    "cursor_"@ + decimal(id) + ".png"@
}

/// The key of a cursor picture: a hash of its length and its bytes. `Vec<u8>`
/// hashes to the same key where a length has eight bytes, the lowest first.
pub open spec fn picture_key(picture: Seq<u8>) -> u64 {
    DefaultHasher::spec_finish(
        seq![vstd::bytes::spec_u64_to_le_bytes(picture.len() as u64), picture],
    )
}

/// The key of a cursor picture.
pub fn key_of_picture(picture: &Vec<u8>) -> (key: u64)
    ensures
        key == picture_key(picture@),
        key == DefaultHasher::spec_finish(
            seq![vstd::bytes::spec_u64_to_le_bytes(picture@.len() as u64), picture@],
        ),
{
    let mut hasher = DefaultHasher::new();
    let len = vstd::bytes::u64_to_le_bytes(picture.len() as u64);
    hasher.write(len.as_slice());
    hasher.write(picture.as_slice());
    assert(hasher@ =~= seq![
        vstd::bytes::spec_u64_to_le_bytes(picture@.len() as u64),
        picture@,
    ]);
    hasher.finish()
}

/// A decoded picture: four bytes for every pixel, red first.
pub struct RgbaPicture {
    pub width: u32,
    pub height: u32,
    pub rgba: Vec<u8>,
}

impl View for RgbaPicture {
    type V = (u32, u32, Seq<u8>);

    open spec fn view(&self) -> (u32, u32, Seq<u8>) {
        (self.width, self.height, self.rgba@)
    }
}

/// The picture that the `image` crate decodes an image file to, if it can.
pub uninterp spec fn decoded_picture(file: Seq<u8>) -> Option<(u32, u32, Seq<u8>)>;

/// `load_from_memory` of the `image` crate, and the decoded picture's
/// `into_rgba8`. Whether the bytes can be decoded, and to what, depends on the
/// bytes alone. Files on which the call may panic are left out:
/// - PNG files with a palette that holds a part of a colour, or more than 256
///   colours;
/// - TIFF files with separate planes, unless the planes are those of a CMYK
///   picture: only the first plane is read, which is too short for the picture;
/// - TIFF files with LZW data in tiles, unless a tile is as wide as the picture:
///   the data of such tiles is read row by row, and may end within a row;
/// - TIFF files with JPEG data. The data has a header of its own, with sizes and
///   colours that need not be those of the file, and the call panics on some of
///   them.
#[verifier::external_body]
fn decode_picture(file: &Vec<u8>) -> (picture: Option<RgbaPicture>)
    requires
        !has_broken_palette(file@),
        !has_separate_planes(file@),
        !has_lzw_tiles(file@),
        !holds_jpeg(file@),
    ensures
        match picture {
            Some(picture) => decoded_picture(file@) == Some(picture@),
            None => decoded_picture(file@) is None,
        },
{
    let image = image::load_from_memory(file.as_slice()).ok()?.into_rgba8();
    let (width, height) = image.dimensions();
    Some(RgbaPicture { width, height, rgba: image.into_raw() })
}

/// The picture that a cursor file holds, if it can be decoded. Files on which
/// decoding may panic hold none.
pub open spec fn readable_picture(file: Seq<u8>) -> Option<(u32, u32, Seq<u8>)> {
    if has_broken_palette(file) || has_separate_planes(file) || has_lzw_tiles(file) || holds_jpeg(
        file,
    ) {
        None
    } else {
        decoded_picture(file)
    }
}

/// A cursor that has not been saved yet.
pub struct NewCursor {
    pub key: u64,
    pub cursor_id: String,
    /// The file to save the picture to.
    pub file_name: String,
    /// The picture to save, unless it cannot be decoded.
    pub picture: Option<RgbaPicture>,
}

/// The cursor that is being shown.
pub enum ShownCursor {
    /// A cursor without a picture, or one that has been saved: its id.
    Known(String),
    New(NewCursor),
}

impl<T> CursorMoveEvent<T> {
    /// The event says that the mouse moved to `position`.
    pub open spec fn records(&self, cursor_id: Seq<char>, time_ms: T, position: XY<T>) -> bool {
        &&& self.active_modifiers@.len() == 0
        &&& self.cursor_id@ == cursor_id
        &&& self.time_ms == time_ms
        &&& self.x == position.x
        &&& self.y == position.y
    }
}

impl<T> CursorClickEvent<T> {
    /// The event says that the button number `num` went down or up.
    pub open spec fn records(
        &self,
        cursor_id: Seq<char>,
        time_ms: T,
        num: int,
        down: bool,
    ) -> bool {
        &&& self.active_modifiers@.len() == 0
        &&& self.cursor_id@ == cursor_id
        &&& self.time_ms == time_ms
        &&& self.cursor_num == num % 256
        &&& self.down == down
    }
}

/// The numbers of those among the first `n` buttons that are in another
/// position than before, in order. A button that was not there before does
/// not count.
pub open spec fn changed_buttons(before: Seq<bool>, now: Seq<bool>, n: nat) -> Seq<int>
    decreases n,
{
    if n == 0 {
        Seq::empty()
    } else {
        let earlier = changed_buttons(before, now, (n - 1) as nat);
        if n - 1 < before.len() && now[n - 1] != before[n - 1] {
            earlier.push(n - 1)
        } else {
            earlier
        }
    }
}

/// The moves are the earlier ones and, if the mouse has a new position, one to it.
pub open spec fn moves_follow<T>(
    position: Option<XY<T>>,
    cursor_id: Seq<char>,
    time_ms: T,
    earlier: Seq<CursorMoveEvent<T>>,
    moves: Seq<CursorMoveEvent<T>>,
) -> bool {
    match position {
        Some(position) => {
            &&& moves.len() == earlier.len() + 1
            &&& moves.drop_last() == earlier
            &&& moves.last().records(cursor_id, time_ms, position)
        },
        None => moves == earlier,
    }
}

/// The clicks are the earlier ones and one for every button that is in another
/// position than before.
pub open spec fn clicks_follow<T>(
    before: Seq<bool>,
    now: Seq<bool>,
    cursor_id: Seq<char>,
    time_ms: T,
    earlier: Seq<CursorClickEvent<T>>,
    clicks: Seq<CursorClickEvent<T>>,
) -> bool {
    let changed = changed_buttons(before, now, now.len());
    &&& clicks.len() == earlier.len() + changed.len()
    &&& clicks.take(earlier.len() as int) == earlier
    &&& forall|i: int|
        0 <= i < changed.len() ==> (#[trigger] clicks[earlier.len() + i]).records(
            cursor_id,
            time_ms,
            changed[i],
            now[changed[i]],
        )
}

/// Where a point of the screen lies, seen from the corner of the recorded
/// area.
pub fn relative_coords(coords: (i32, i32), origin: (i32, i32)) -> (relative: (i32, i32))
    requires
        i32::MIN <= coords.0 - origin.0 <= i32::MAX,
        i32::MIN <= coords.1 - origin.1 <= i32::MAX,
    ensures
        relative.0 == coords.0 - origin.0,
        relative.1 == coords.1 - origin.1,
        origin.0 + relative.0 == coords.0,
        origin.1 + relative.1 == coords.1,
{
    (coords.0 - origin.0, coords.1 - origin.1)
}

/// Whether two points are different.
pub open spec fn has_moved(before: (i32, i32), now: (i32, i32)) -> bool {
    before != now
}

/// Records the mouse. The caller samples the mouse, saves the pictures of new
/// cursors, and reports both.
pub struct CursorRecorder<T> {
    pub response: CursorActorResponse<T>,
    pub last_mouse_state: MouseState,
}

impl<T> CursorRecorder<T> {
    /// A cursor without a picture is the default one, one with the picture of a
    /// saved cursor has its id, and any other gets the next free id.
    pub open spec fn identifies(&self, picture: Option<Seq<u8>>, shown: ShownCursor) -> bool {
        match (picture, shown) {
            (None, ShownCursor::Known(id)) => id@ == "default"@,
            (None, ShownCursor::New(_)) => false,
            (Some(file), ShownCursor::Known(id)) => {
                let key = picture_key(file);
                self.response.cursors@.contains_key(key) && id@ == decimal(
                    self.response.cursors@[key].id as nat,
                )
            },
            (Some(file), ShownCursor::New(new)) => {
                &&& !self.response.cursors@.contains_key(picture_key(file))
                &&& new.key == picture_key(file)
                &&& new.cursor_id@ == decimal(self.response.next_cursor_id as nat)
                &&& new.file_name@ == cursor_file_name(self.response.next_cursor_id as nat)
                &&& match new.picture {
                    Some(picture) => readable_picture(file) == Some(picture@),
                    None => readable_picture(file) is None,
                }
            },
        }
    }

    /// The recorder has become `after` by saving a cursor under the next free id.
    pub open spec fn saves(
        &self,
        key: u64,
        file_name: String,
        hotspot: XY<T>,
        after: CursorRecorder<T>,
    ) -> bool {
        &&& after.response.cursors@ == self.response.cursors@.insert(
            key,
            Cursor { file_name, id: self.response.next_cursor_id, hotspot },
        )
        &&& after.response.next_cursor_id == self.response.next_cursor_id + 1
    }
}

impl<T: Copy> CursorRecorder<T> {
    /// A recorder that goes on from earlier cursors.
    pub fn new(prev_cursors: Cursors<T>, next_cursor_id: u32, mouse_state: MouseState) -> (recorder:
        Self)
        ensures
            recorder.response.cursors == prev_cursors,
            recorder.response.next_cursor_id == next_cursor_id,
            recorder.response.moves@ == Seq::<CursorMoveEvent<T>>::empty(),
            recorder.response.clicks@ == Seq::<CursorClickEvent<T>>::empty(),
            recorder.last_mouse_state == mouse_state,
    {
        CursorRecorder {
            response: CursorActorResponse {
                cursors: prev_cursors,
                next_cursor_id,
                moves: Vec::new(),
                clicks: Vec::new(),
            },
            last_mouse_state: mouse_state,
        }
    }

    /// Which cursor has this picture. A picture that has not been saved gets
    /// the next free id.
    pub fn identify(&self, picture: Option<&Vec<u8>>) -> (shown: ShownCursor)
        ensures
            self.identifies(
                match picture {
                    Some(file) => Some(file@),
                    None => None,
                },
                shown,
            ),
    {
        broadcast use vstd::std_specs::hash::group_hash_axioms;

        match picture {
            Some(file) => {
                let key = key_of_picture(file);
                match self.response.cursors.get(&key) {
                    Some(cursor) => ShownCursor::Known(decimal_string(cursor.id)),
                    None => {
                        let cursor_id = decimal_string(self.response.next_cursor_id);
                        let mut file_name = String::from_str("cursor_");
                        file_name.append(cursor_id.as_str());
                        file_name.append(".png");
                        let picture = if has_plain_pixels(file) && !palette_is_broken(file) {
                            decode_picture(file)
                        } else {
                            None
                        };
                        ShownCursor::New(NewCursor { key, cursor_id, file_name, picture })
                    },
                }
            },
            None => ShownCursor::Known(String::from_str("default")),
        }
    }

    /// The picture of a new cursor has been saved: the cursor keeps its id.
    pub fn saved(&mut self, key: u64, file_name: String, hotspot: XY<T>)
        requires
            old(self).response.next_cursor_id < u32::MAX,
        ensures
            old(self).saves(key, file_name, hotspot, *final(self)),
            final(self).response.moves == old(self).response.moves,
            final(self).response.clicks == old(self).response.clicks,
            final(self).last_mouse_state == old(self).last_mouse_state,
    {
        broadcast use vstd::std_specs::hash::group_hash_axioms;

        let id: u32 = self.response.next_cursor_id;
        self.response.cursors.insert(key, Cursor { file_name, id, hotspot });
        self.response.next_cursor_id = id + 1;
    }

    /// Whether the mouse is elsewhere than it was last.
    pub fn moved(&self, mouse_state: &MouseState) -> (moved: bool)
        ensures
            moved == has_moved(self.last_mouse_state.coords, mouse_state.coords),
            moved == (mouse_state.coords != self.last_mouse_state.coords),
            !moved <==> mouse_state.coords.0 == self.last_mouse_state.coords.0
                && mouse_state.coords.1 == self.last_mouse_state.coords.1,
    {
        mouse_state.coords.0 != self.last_mouse_state.coords.0 || mouse_state.coords.1
            != self.last_mouse_state.coords.1
    }

    /// Records what the mouse did since it was last sampled: a move if it has
    /// a new position, and a click for every button that went down or up.
    pub fn record(
        &mut self,
        mouse_state: MouseState,
        cursor_id: String,
        time_ms: T,
        position: Option<XY<T>>,
    )
        ensures
            final(self).last_mouse_state == mouse_state,
            final(self).response.cursors == old(self).response.cursors,
            final(self).response.next_cursor_id == old(self).response.next_cursor_id,
            moves_follow(
                position,
                cursor_id@,
                time_ms,
                old(self).response.moves@,
                final(self).response.moves@,
            ),
            clicks_follow(
                old(self).last_mouse_state.button_pressed@,
                mouse_state.button_pressed@,
                cursor_id@,
                time_ms,
                old(self).response.clicks@,
                final(self).response.clicks@,
            ),
    {
        if let Some(position) = position {
            self.response.moves.push(
                CursorMoveEvent {
                    active_modifiers: Vec::new(),
                    cursor_id: cursor_id.clone(),
                    time_ms,
                    x: position.x,
                    y: position.y,
                },
            );
            assert(self.response.moves@.drop_last() =~= old(self).response.moves@);
        }
        let ghost now = mouse_state.button_pressed@;
        let ghost before = old(self).last_mouse_state.button_pressed@;
        let ghost earlier = old(self).response.clicks@;
        let ghost moves = self.response.moves;
        let mut num: usize = 0;
        while num < mouse_state.button_pressed.len()
            invariant
                num <= now.len(),
                now == mouse_state.button_pressed@,
                before == self.last_mouse_state.button_pressed@,
                self.response.moves == moves,
                self.response.cursors == old(self).response.cursors,
                self.response.next_cursor_id == old(self).response.next_cursor_id,
                self.response.clicks@.len() == earlier.len() + changed_buttons(
                    before,
                    now,
                    num as nat,
                ).len(),
                self.response.clicks@.take(earlier.len() as int) == earlier,
                forall|i: int|
                    0 <= i < changed_buttons(before, now, num as nat).len() ==> (
                    #[trigger] self.response.clicks@[earlier.len() + i]).records(
                        cursor_id@,
                        time_ms,
                        changed_buttons(before, now, num as nat)[i],
                        now[changed_buttons(before, now, num as nat)[i]],
                    ),
            decreases now.len() - num,
        {
            let pressed = mouse_state.button_pressed[num];
            if num < self.last_mouse_state.button_pressed.len() && pressed
                != self.last_mouse_state.button_pressed[num] {
                let ghost clicks = self.response.clicks@;
                self.response.clicks.push(
                    CursorClickEvent {
                        down: pressed,
                        active_modifiers: Vec::new(),
                        cursor_num: (num % 256) as u8,
                        cursor_id: cursor_id.clone(),
                        time_ms,
                    },
                );
                assert(self.response.clicks@.take(earlier.len() as int) =~= clicks.take(
                    earlier.len() as int,
                ));
            }
            num = num + 1;
        }
        self.last_mouse_state = mouse_state;
    }
}

/// Every cursor has an id of its own, lower than the next one to be given
/// out.
pub open spec fn ids_are_distinct<T>(cursors: Map<u64, Cursor<T>>, next_cursor_id: u32) -> bool {
    &&& forall|key: u64| #[trigger]
        cursors.contains_key(key) ==> cursors[key].id < next_cursor_id
    &&& forall|one: u64, other: u64|
        #![trigger cursors[one], cursors[other]]
        cursors.contains_key(one) && cursors.contains_key(other) && one != other
            ==> cursors[one].id != cursors[other].id
}

/// Different numbers have different decimal notations.
proof fn lemma_decimal_is_injective(a: nat, b: nat)
    requires
        decimal(a) == decimal(b),
    ensures
        a == b,
    decreases a,
{
    lemma_decimal_len(a);
    lemma_decimal_len(b);
    assert(decimal(a).last() == digit((a % 10) as int));
    assert(decimal(b).last() == digit((b % 10) as int));
    if a < 10 {
        assert(b < 10) by {
            if b >= 10 {
                lemma_decimal_len(b / 10);
            }
        }
    } else {
        lemma_decimal_len(a / 10);
        assert(b >= 10);
        assert(decimal(a).drop_last() =~= decimal(a / 10));
        assert(decimal(b).drop_last() =~= decimal(b / 10));
        lemma_decimal_is_injective(a / 10, b / 10);
    }
}

proof fn lemma_decimal_len(n: nat)
    ensures
        decimal(n).len() >= 1,
        n >= 10 ==> decimal(n).len() >= 2,
    decreases n,
{
    if n >= 10 {
        lemma_decimal_len(n / 10);
    }
}

/// Cursors with different ids have different texts for their ids, and are
/// saved to different files.
pub proof fn law_file_names_are_distinct(a: nat, b: nat)
    requires
        a != b,
    ensures
        decimal(a) != decimal(b),
        cursor_file_name(a) != cursor_file_name(b),
{
    if decimal(a) == decimal(b) {
        lemma_decimal_is_injective(a, b);
    }
    if cursor_file_name(a) == cursor_file_name(b) {
        let prefix = "cursor_"@.len() as int;
        let suffix = ".png"@.len() as int;
        let name = cursor_file_name(a);
        assert(name.subrange(prefix, name.len() - suffix) =~= decimal(a));
        let name = cursor_file_name(b);
        assert(name.subrange(prefix, name.len() - suffix) =~= decimal(b));
    }
}

/// Exactly the buttons that are in another position than before are reported,
/// each once and in order.
pub proof fn law_changes_are_exact(before: Seq<bool>, now: Seq<bool>, n: nat)
    requires
        n <= now.len(),
    ensures
        forall|num: int| #[trigger]
            changed_buttons(before, now, n).contains(num) <==> 0 <= num < n && num < before.len()
                && now[num] != before[num],
        forall|i: int, j: int|
            0 <= i < j < changed_buttons(before, now, n).len() ==> changed_buttons(before, now, n)[i]
                < changed_buttons(before, now, n)[j],
    decreases n,
{
    if n > 0 {
        let earlier = changed_buttons(before, now, (n - 1) as nat);
        let changed = changed_buttons(before, now, n);
        law_changes_are_exact(before, now, (n - 1) as nat);
        assert forall|num: int| #[trigger] changed.contains(num) <==> earlier.contains(num) || (num == n - 1
            && n - 1 < before.len() && now[n - 1] != before[n - 1]) by {
            if earlier.contains(num) {
                let i = earlier.index_of(num);
                assert(changed[i] == num);
            }
            if num == n - 1 && n - 1 < before.len() && now[n - 1] != before[n - 1] {
                assert(changed[earlier.len() as int] == num);
            }
        }
        assert forall|i: int| 0 <= i < earlier.len() implies earlier[i] < n - 1 by {
            assert(earlier.contains(earlier[i]));
        }
    }
}

/// The number that a text of decimal digits stands for.
pub open spec fn number_of(text: Seq<char>) -> int
    decreases text.len(),
{
    if text.len() == 0 {
        0
    } else {
        10 * number_of(text.drop_last()) + (text.last() as u32 - '0' as u32)
    }
}

/// The decimal notation of a number consists of digits, does not start with a zero
/// unless it is the number zero, and stands for the number.
pub proof fn law_decimal_stands_for_the_number(n: nat)
    ensures
        decimal(n).len() > 0,
        forall|i: int|
            0 <= i < decimal(n).len() ==> '0' <= #[trigger] decimal(n)[i] && decimal(n)[i] <= '9',
        n > 0 ==> decimal(n)[0] != '0',
        n == 0 ==> decimal(n).len() == 1,
        number_of(decimal(n)) == n,
    decreases n,
{
    if n < 10 {
        assert(decimal(n).drop_last() =~= Seq::empty());
        assert(number_of(decimal(n).drop_last()) == 0);
    } else {
        law_decimal_stands_for_the_number(n / 10);
        assert(decimal(n).drop_last() =~= decimal(n / 10));
        assert forall|i: int| 0 <= i < decimal(n).len() implies '0' <= #[trigger] decimal(n)[i]
            && decimal(n)[i] <= '9' by {
            if i < decimal(n / 10).len() {
                assert(decimal(n)[i] == decimal(n / 10)[i]);
            }
        }
    }
}

/// The picture of the cursor number 7 is saved as `cursor_7.png`, and so on.
pub proof fn law_file_is_named_after_the_id(id: nat)
    ensures
        cursor_file_name(id) == seq!['c', 'u', 'r', 's', 'o', 'r', '_'] + decimal(id) + seq![
            '.',
            'p',
            'n',
            'g',
        ],
{
    reveal_strlit("cursor_");
    reveal_strlit(".png");
    assert("cursor_"@ =~= seq!['c', 'u', 'r', 's', 'o', 'r', '_']);
    assert(".png"@ =~= seq!['.', 'p', 'n', 'g']);
}

/// The key of a picture is the hash of its length and of each of its bytes.
pub proof fn law_key_covers_the_whole_picture(picture: Seq<u8>, written: Seq<Seq<u8>>)
    requires
        written.len() == 2,
        written[0] == vstd::bytes::spec_u64_to_le_bytes(picture.len() as u64),
        written[1].len() == picture.len(),
        forall|i: int| 0 <= i < picture.len() ==> #[trigger] written[1][i] == picture[i],
    ensures
        picture_key(picture) == DefaultHasher::spec_finish(written),
{
    assert(written[1] =~= picture);
    assert(written =~= seq![
        vstd::bytes::spec_u64_to_le_bytes(picture.len() as u64),
        picture,
    ]);
}

/// A cursor without a picture is the default one. One whose picture has been saved
/// is known by the id of the saved cursor. Any other is new: it is to be saved under
/// the hash of its picture, with the next free id and the file name that belongs to
/// it.
pub proof fn law_cursor_is_known_if_saved<T>(
    recorder: CursorRecorder<T>,
    picture: Option<Seq<u8>>,
    shown: ShownCursor,
)
    requires
        recorder.identifies(picture, shown),
    ensures
        picture is None ==> (shown matches ShownCursor::Known(id) && id@ == seq![
            'd',
            'e',
            'f',
            'a',
            'u',
            'l',
            't',
        ]),
        picture matches Some(file) ==> match shown {
            ShownCursor::Known(id) => {
                &&& recorder.response.cursors@.contains_key(picture_key(file))
                &&& id@ == decimal(recorder.response.cursors@[picture_key(file)].id as nat)
            },
            ShownCursor::New(new) => {
                &&& !recorder.response.cursors@.contains_key(picture_key(file))
                &&& new.key == picture_key(file)
                &&& new.cursor_id@ == decimal(recorder.response.next_cursor_id as nat)
                &&& new.file_name@ == cursor_file_name(recorder.response.next_cursor_id as nat)
                &&& new.picture matches Some(pixels) ==> readable_picture(file) == Some(
                    (pixels.width, pixels.height, pixels.rgba@),
                )
                &&& new.picture is None ==> readable_picture(file) is None
            },
        },
{
    reveal_strlit("default");
    assert("default"@ =~= seq!['d', 'e', 'f', 'a', 'u', 'l', 't']);
}

/// The picture of a new cursor is what its file decodes to. Only PNG files with a
/// broken palette and TIFF files with separate planes, with LZW data in tiles or with
/// JPEG data are not decoded.
pub proof fn law_picture_is_decoded(file: Seq<u8>)
    ensures
        !has_broken_palette(file) && !has_separate_planes(file) && !has_lzw_tiles(file)
            && !holds_jpeg(file) ==> readable_picture(file) == decoded_picture(file),
        has_broken_palette(file) || has_separate_planes(file) || has_lzw_tiles(file) || holds_jpeg(
            file,
        ) ==> readable_picture(file) is None,
{
}

/// Saving a cursor adds it under its key, with the file and the hotspot that it was
/// saved with and the id that was free, and uses up only this id. Every other cursor
/// stays.
pub proof fn law_saving_adds_the_cursor<T>(
    before: CursorRecorder<T>,
    key: u64,
    file_name: String,
    hotspot: XY<T>,
    after: CursorRecorder<T>,
)
    requires
        before.saves(key, file_name, hotspot, after),
    ensures
        after.response.cursors@.contains_key(key),
        after.response.cursors@[key].file_name == file_name,
        after.response.cursors@[key].hotspot == hotspot,
        after.response.cursors@[key].id == before.response.next_cursor_id,
        after.response.next_cursor_id == before.response.next_cursor_id + 1,
        forall|other: u64|
            other != key ==> #[trigger] after.response.cursors@.contains_key(other)
                == before.response.cursors@.contains_key(other) && (
            before.response.cursors@.contains_key(other) ==> after.response.cursors@[other]
                == before.response.cursors@[other]),
{
}

/// A recorded move tells the cursor, the time and the place, and a recorded click
/// the cursor, the time, the button and which way it went. Neither tells modifiers.
pub proof fn law_events_tell_what_happened<T>(
    moved: CursorMoveEvent<T>,
    clicked: CursorClickEvent<T>,
    cursor_id: Seq<char>,
    time_ms: T,
    position: XY<T>,
    num: int,
    down: bool,
)
    requires
        moved.records(cursor_id, time_ms, position),
        clicked.records(cursor_id, time_ms, num, down),
        0 <= num < 256,
    ensures
        moved.cursor_id@ == cursor_id,
        moved.time_ms == time_ms,
        moved.x == position.x,
        moved.y == position.y,
        moved.active_modifiers@.len() == 0,
        clicked.cursor_id@ == cursor_id,
        clicked.time_ms == time_ms,
        clicked.cursor_num == num,
        clicked.down == down,
        clicked.active_modifiers@.len() == 0,
{
}

/// The mouse has moved if it is elsewhere in either direction, however little, and
/// back again is a move too.
pub proof fn law_any_step_is_a_move(before: (i32, i32), now: (i32, i32))
    ensures
        has_moved(before, now) <==> before.0 - now.0 != 0 || before.1 - now.1 != 0,
        has_moved(before, now) == has_moved(now, before),
{
}

} // verus!
