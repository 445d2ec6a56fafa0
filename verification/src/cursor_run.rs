//! What holds of the mouse over a whole recording.

use vstd::prelude::*;

use crate::cursor::{
    changed_buttons, clicks_follow, cursor_file_name, decimal, ids_are_distinct,
    law_changes_are_exact, moves_follow, picture_key, CursorClickEvent, CursorMoveEvent,
    CursorRecorder, ShownCursor,
};
use crate::units::XY;

verus! {

/// The saved cursors are the same before and after.
pub open spec fn keeps_cursors<T>(before: CursorRecorder<T>, after: CursorRecorder<T>) -> bool {
    &&& after.response.cursors@ == before.response.cursors@
    &&& after.response.next_cursor_id == before.response.next_cursor_id
}

/// The recorder was asked which cursor is shown, and has become `after`: a new
/// cursor may have been saved.
pub open spec fn sees<T>(
    before: CursorRecorder<T>,
    picture: Option<Seq<u8>>,
    shown: ShownCursor,
    after: CursorRecorder<T>,
) -> bool {
    &&& before.identifies(picture, shown)
    &&& keeps_cursors(before, after) || match shown {
        ShownCursor::Known(_) => false,
        ShownCursor::New(new) => exists|hotspot: XY<T>| #[trigger]
            before.saves(new.key, new.file_name, hotspot, after),
    }
}

/// The recorder went through these states, one for every picture that it was
/// shown, and gave these answers.
pub open spec fn is_run<T>(
    states: Seq<CursorRecorder<T>>,
    pictures: Seq<Option<Seq<u8>>>,
    shown: Seq<ShownCursor>,
) -> bool {
    &&& states.len() == pictures.len() + 1
    &&& states.len() == shown.len() + 1
    &&& forall|i: int|
        0 <= i < pictures.len() ==> #[trigger] sees(states[i], pictures[i], shown[i], states[i + 1])
}

/// The cursor under this key was saved between the two states.
pub open spec fn is_new<T>(first: CursorRecorder<T>, last: CursorRecorder<T>, key: u64) -> bool {
    last.response.cursors@.contains_key(key) && !first.response.cursors@.contains_key(key)
}

/// The id was given to a cursor between the two states.
pub open spec fn is_new_id<T>(first: CursorRecorder<T>, last: CursorRecorder<T>, id: int) -> bool {
    exists|key: u64| #[trigger]
        is_new(first, last, key) && last.response.cursors@[key].id == id
}

/// Whatever pictures are shown, and whichever of the new ones are saved: the
/// cursors that were saved earlier stay as they are; the new ones have exactly
/// the ids from the next free one on, every id once and each with the file name
/// that belongs to it; and where no cursor was added, no id was used up.
pub proof fn law_ids_are_given_out_once<T>(
    states: Seq<CursorRecorder<T>>,
    pictures: Seq<Option<Seq<u8>>>,
    shown: Seq<ShownCursor>,
    i: int,
    j: int,
)
    requires
        is_run(states, pictures, shown),
        0 <= i <= j < states.len(),
    ensures
        states[i].response.next_cursor_id <= states[j].response.next_cursor_id,
        forall|key: u64| #[trigger]
            states[i].response.cursors@.contains_key(key)
                ==> states[j].response.cursors@.contains_key(key)
                && states[j].response.cursors@[key] == states[i].response.cursors@[key],
        forall|key: u64| #[trigger]
            is_new(states[i], states[j], key) ==> {
                let cursor = states[j].response.cursors@[key];
                &&& states[i].response.next_cursor_id <= cursor.id
                    < states[j].response.next_cursor_id
                &&& cursor.file_name@ == cursor_file_name(cursor.id as nat)
            },
        forall|id: int|
            states[i].response.next_cursor_id <= id < states[j].response.next_cursor_id
                ==> #[trigger] is_new_id(states[i], states[j], id),
        forall|one: u64, other: u64|
            #![trigger is_new(states[i], states[j], one), is_new(states[i], states[j], other)]
            is_new(states[i], states[j], one) && is_new(states[i], states[j], other) && one != other
                ==> states[j].response.cursors@[one].id != states[j].response.cursors@[other].id,
        states[j].response.cursors@ == states[i].response.cursors@ ==> keeps_cursors(
            states[i],
            states[j],
        ),
        ids_are_distinct(states[i].response.cursors@, states[i].response.next_cursor_id)
            ==> ids_are_distinct(states[j].response.cursors@, states[j].response.next_cursor_id),
    decreases j - i,
{
    if i < j {
        law_ids_are_given_out_once(states, pictures, shown, i, j - 1);
        let first = states[i];
        let before = states[j - 1];
        let last = states[j];
        assert(sees(states[j - 1], pictures[j - 1], shown[j - 1], states[j - 1 + 1]));
        if keeps_cursors(before, last) {
            assert forall|key: u64| #[trigger] is_new(first, last, key) implies is_new(
                first,
                before,
                key,
            ) by {}
            assert forall|id: int|
                first.response.next_cursor_id <= id
                    < last.response.next_cursor_id implies #[trigger] is_new_id(
                first,
                last,
                id,
            ) by {
                assert(is_new_id(first, before, id));
                let key = choose|key: u64| #[trigger]
                    is_new(first, before, key) && before.response.cursors@[key].id == id;
                assert(is_new(first, last, key));
            }
        } else {
            let new = shown[j - 1]->New_0;
            let hotspot = choose|hotspot: XY<T>| #[trigger]
                before.saves(new.key, new.file_name, hotspot, last);
            let fresh = new.key;
            assert(is_new(first, last, fresh));
            assert forall|key: u64| #[trigger] is_new(first, last, key) && key != fresh implies is_new(
                first,
                before,
                key,
            ) && last.response.cursors@[key] == before.response.cursors@[key] by {}
            assert forall|id: int|
                first.response.next_cursor_id <= id
                    < last.response.next_cursor_id implies #[trigger] is_new_id(
                first,
                last,
                id,
            ) by {
                if id == before.response.next_cursor_id {
                    assert(last.response.cursors@[fresh].id == id);
                } else {
                    assert(is_new_id(first, before, id));
                    let key = choose|key: u64| #[trigger]
                        is_new(first, before, key) && before.response.cursors@[key].id == id;
                    assert(is_new(first, last, key));
                }
            }
        }
    }
}

/// A picture that has been saved is recognised whenever it is shown later, under
/// the id that it was announced with.
pub proof fn law_saved_cursor_is_recognised<T>(
    states: Seq<CursorRecorder<T>>,
    pictures: Seq<Option<Seq<u8>>>,
    shown: Seq<ShownCursor>,
    i: int,
    j: int,
    picture: Seq<u8>,
)
    requires
        is_run(states, pictures, shown),
        0 <= i < j < pictures.len(),
        pictures[j] == Some(picture),
        states[i + 1].response.cursors@.contains_key(picture_key(picture)),
    ensures
        shown[j] matches ShownCursor::Known(id) && id@ == decimal(
            states[i + 1].response.cursors@[picture_key(picture)].id as nat,
        ),
        pictures[i] == Some(picture) ==> match (shown[i], shown[j]) {
            (ShownCursor::New(new), ShownCursor::Known(id)) => id@ == new.cursor_id@,
            (ShownCursor::Known(earlier), ShownCursor::Known(id)) => id@ == earlier@,
            _ => false,
        },
{
    law_ids_are_given_out_once(states, pictures, shown, i + 1, j);
    assert(sees(states[i], pictures[i], shown[i], states[i + 1]));
    assert(sees(states[j], pictures[j], shown[j], states[j + 1]));
}

/// The buttons that went down or up up to the sample number `n`: the number of
/// the sample and that of the button.
pub open spec fn changes(buttons: Seq<Seq<bool>>, n: nat) -> Seq<(int, int)>
    decreases n,
{
    if n == 0 {
        Seq::empty()
    } else {
        let now = buttons[n as int];
        let changed = changed_buttons(buttons[n - 1], now, now.len());
        changes(buttons, (n - 1) as nat) + Seq::new(changed.len(), |i: int| (n as int, changed[i]))
    }
}

/// Whether the button went down or up at the sample number `t`.
pub open spec fn changes_at(buttons: Seq<Seq<bool>>, t: int, num: int) -> bool {
    &&& 0 <= num < buttons[t].len()
    &&& num < buttons[t - 1].len()
    &&& buttons[t][num] != buttons[t - 1][num]
}

/// One change comes before another.
pub open spec fn is_before(one: (int, int), other: (int, int)) -> bool {
    one.0 < other.0 || (one.0 == other.0 && one.1 < other.1)
}

/// The buttons were sampled again and again, with the cursor and the time of
/// every sample but the first, and the recorder had these clicks after each.
pub open spec fn is_click_run<T>(
    buttons: Seq<Seq<bool>>,
    cursor_ids: Seq<Seq<char>>,
    times_ms: Seq<T>,
    clicks: Seq<Seq<CursorClickEvent<T>>>,
) -> bool {
    &&& buttons.len() >= 1
    &&& clicks.len() == buttons.len()
    &&& cursor_ids.len() == buttons.len() - 1
    &&& times_ms.len() == buttons.len() - 1
    &&& forall|t: int|
        0 <= t < buttons.len() - 1 ==> #[trigger] clicks_follow(
            buttons[t],
            buttons[t + 1],
            cursor_ids[t],
            times_ms[t],
            clicks[t],
            clicks[t + 1],
        )
}

/// Up to the sample number `n`, the recorded clicks are the earlier ones and
/// exactly one for every button that went down or up, in the order of the
/// samples and, within a sample, of the buttons. Each tells the button, which way
/// it went, and the cursor and the time of its sample.
pub proof fn law_clicks_are_the_changes<T>(
    buttons: Seq<Seq<bool>>,
    cursor_ids: Seq<Seq<char>>,
    times_ms: Seq<T>,
    clicks: Seq<Seq<CursorClickEvent<T>>>,
    n: nat,
)
    requires
        is_click_run(buttons, cursor_ids, times_ms, clicks),
        n < buttons.len(),
    ensures
        clicks[n as int].len() == clicks[0].len() + changes(buttons, n).len(),
        clicks[n as int].take(clicks[0].len() as int) == clicks[0],
        forall|i: int|
            0 <= i < changes(buttons, n).len() ==> {
                let (t, num) = changes(buttons, n)[i];
                let click = #[trigger] clicks[n as int][clicks[0].len() + i];
                &&& click.records(cursor_ids[t - 1], times_ms[t - 1], num, buttons[t][num])
                &&& click.down == buttons[t][num]
                &&& click.cursor_num == num % 256
                &&& click.cursor_id@ == cursor_ids[t - 1]
                &&& click.time_ms == times_ms[t - 1]
                &&& click.active_modifiers@.len() == 0
            },
        forall|t: int, num: int| #[trigger]
            changes(buttons, n).contains((t, num)) <==> 1 <= t <= n && 0 <= num < buttons[t].len()
                && num < buttons[t - 1].len() && buttons[t][num] != buttons[t - 1][num],
        forall|i: int, j: int|
            0 <= i < j < changes(buttons, n).len() ==> ({
                let one = #[trigger] changes(buttons, n)[i];
                let other = #[trigger] changes(buttons, n)[j];
                one.0 < other.0 || (one.0 == other.0 && one.1 < other.1)
            }),
    decreases n,
{
    if n == 0 {
        assert(clicks[0].take(clicks[0].len() as int) =~= clicks[0]);
    } else {
        let before = (n - 1) as nat;
        law_clicks_are_the_changes(buttons, cursor_ids, times_ms, clicks, before);
        let now = buttons[n as int];
        let changed = changed_buttons(buttons[n - 1], now, now.len());
        law_changes_are_exact(buttons[n - 1], now, now.len());
        let earlier = changes(buttons, before);
        let all = changes(buttons, n);
        assert(clicks_follow(
            buttons[n - 1],
            buttons[n - 1 + 1],
            cursor_ids[n - 1],
            times_ms[n - 1],
            clicks[n - 1],
            clicks[n - 1 + 1],
        ));
        let base = clicks[0].len() as int;
        assert(clicks[n as int].take(base) =~= clicks[n - 1].take(base)) by {
            assert forall|k: int| 0 <= k < base implies clicks[n as int][k] == clicks[n - 1][k] by {
                assert(clicks[n as int].take(clicks[n - 1].len() as int)[k] == clicks[n - 1][k]);
            }
        }
        assert forall|i: int| 0 <= i < all.len() implies {
            let (t, num) = all[i];
            (#[trigger] clicks[n as int][base + i]).records(
                cursor_ids[t - 1],
                times_ms[t - 1],
                num,
                buttons[t][num],
            )
        } by {
            if i < earlier.len() {
                assert(all[i] == earlier[i]);
                assert(clicks[n as int].take(clicks[n - 1].len() as int)[base + i] == clicks[n
                    - 1][base + i]);
            } else {
                let k = i - earlier.len();
                assert(all[i] == (n as int, changed[k]));
                assert(clicks[n as int][clicks[n - 1].len() + k] == clicks[n as int][base + i]);
            }
        }
        assert forall|t: int, num: int| #[trigger] all.contains((t, num)) <==> 1 <= t <= n && changes_at(
            buttons,
            t,
            num,
        ) by {
            if all.contains((t, num)) {
                let i = all.index_of((t, num));
                if i < earlier.len() {
                    assert(earlier[i] == (t, num));
                    assert(earlier.contains((t, num)));
                } else {
                    assert(changed[i - earlier.len()] == num);
                    assert(changed.contains(num));
                }
            }
            if 1 <= t <= n && changes_at(buttons, t, num) {
                if t < n {
                    assert(earlier.contains((t, num)));
                    let i = earlier.index_of((t, num));
                    assert(all[i] == (t, num));
                } else {
                    assert(changed.contains(num));
                    let i = changed.index_of(num);
                    assert(all[earlier.len() + i] == (t, num));
                }
            }
        }
        assert forall|i: int, j: int| 0 <= i < j < all.len() implies is_before(
            #[trigger] all[i],
            #[trigger] all[j],
        ) by {
            if j < earlier.len() {
                assert(all[i] == earlier[i] && all[j] == earlier[j]);
            } else if i < earlier.len() {
                assert(all[i] == earlier[i]);
                assert(earlier.contains((earlier[i].0, earlier[i].1)));
            } else {
                assert(changed[i - earlier.len()] < changed[j - earlier.len()]);
            }
        }
    }
}

/// A button that neither goes down nor up stays where it is.
proof fn lemma_button_stays(buttons: Seq<Seq<bool>>, len: nat, num: int, from: int, to: int)
    requires
        0 <= from <= to < buttons.len(),
        0 <= num < len,
        forall|t: int| 0 <= t < buttons.len() ==> (#[trigger] buttons[t]).len() == len,
        forall|t: int| from < t <= to ==> !changes_at(buttons, t, num),
    ensures
        buttons[to][num] == buttons[from][num],
    decreases to - from,
{
    if from < to {
        lemma_button_stays(buttons, len, num, from, to - 1);
        assert(!changes_at(buttons, to, num));
        assert(buttons[to].len() == len);
        assert(buttons[to - 1].len() == len);
    }
}

/// The change number `i`, if any, is the last one of the same button before the
/// change number `j`.
pub open spec fn is_last_before(all: Seq<(int, int)>, i: Option<int>, j: int) -> bool {
    let from = match i {
        Some(i) => i,
        None => -1,
    };
    &&& i is Some ==> 0 <= from && all[from].1 == all[j].1
    &&& from < j < all.len()
    &&& forall|k: int| from < k < j ==> (#[trigger] all[k]).1 != all[j].1
}

/// Where every sample has the same buttons, the clicks of a button alternate: its
/// first click takes it out of the position that it started in, and every later
/// one goes the other way than the one before.
pub proof fn law_clicks_alternate<T>(
    buttons: Seq<Seq<bool>>,
    cursor_ids: Seq<Seq<char>>,
    times_ms: Seq<T>,
    clicks: Seq<Seq<CursorClickEvent<T>>>,
    n: nat,
    i: Option<int>,
    j: int,
)
    requires
        is_click_run(buttons, cursor_ids, times_ms, clicks),
        n < buttons.len(),
        forall|t: int| 0 <= t < buttons.len() ==> (#[trigger] buttons[t]).len() == buttons[0].len(),
        is_last_before(changes(buttons, n), i, j),
    ensures
        clicks[n as int][clicks[0].len() + j].down == !match i {
            Some(i) => clicks[n as int][clicks[0].len() + i].down,
            None => buttons[0][changes(buttons, n)[j].1],
        },
{
    law_clicks_are_the_changes(buttons, cursor_ids, times_ms, clicks, n);
    let all = changes(buttons, n);
    let (t, num) = all[j];
    assert(all.contains((t, num)));
    assert(clicks[n as int][clicks[0].len() + j].down == buttons[t][num]);
    let from = match i {
        Some(i) => {
            assert(all.contains((all[i].0, all[i].1)));
            assert(is_before(all[i], all[j]));
            assert(clicks[n as int][clicks[0].len() + i].down == buttons[all[i].0][num]);
            all[i].0
        },
        None => 0,
    };
    assert forall|s: int| from < s <= t - 1 implies !changes_at(buttons, s, num) by {
        if changes_at(buttons, s, num) {
            assert(all.contains((s, num)));
            let k = all.index_of((s, num));
            if k > j {
                assert(is_before(all[j], all[k]));
            }
            if let Some(i) = i {
                if k < i {
                    assert(is_before(all[k], all[i]));
                }
            }
        }
    }
    lemma_button_stays(buttons, buttons[0].len(), num, from, t - 1);
}

/// How many of the first `n` samples have a new position.
pub open spec fn position_count<T>(positions: Seq<Option<XY<T>>>, n: nat) -> nat
    decreases n,
{
    if n == 0 {
        0
    } else {
        position_count(positions, (n - 1) as nat) + if positions[n - 1] is Some {
            1nat
        } else {
            0
        }
    }
}

/// Over a whole recording, every sample with a new position adds exactly one move, to
/// that position, with the cursor and the time of the sample, behind the moves of the
/// samples before it. A sample without one adds none, and no move changes later.
pub proof fn law_every_new_position_is_a_move<T>(
    positions: Seq<Option<XY<T>>>,
    cursor_ids: Seq<Seq<char>>,
    times_ms: Seq<T>,
    moves: Seq<Seq<CursorMoveEvent<T>>>,
    n: nat,
)
    requires
        moves.len() == positions.len() + 1,
        cursor_ids.len() == positions.len(),
        times_ms.len() == positions.len(),
        forall|t: int|
            0 <= t < positions.len() ==> #[trigger] moves_follow(
                positions[t],
                cursor_ids[t],
                times_ms[t],
                moves[t],
                moves[t + 1],
            ),
        n <= positions.len(),
    ensures
        moves[n as int].len() == moves[0].len() + position_count(positions, n),
        forall|i: int| 0 <= i < moves[0].len() ==> #[trigger] moves[n as int][i] == moves[0][i],
        forall|t: int|
            0 <= t < n && #[trigger] positions[t] is Some ==> {
                let at = moves[0].len() + position_count(positions, t as nat);
                let event = moves[n as int][at as int];
                &&& at < moves[n as int].len()
                &&& event.x == positions[t].unwrap().x
                &&& event.y == positions[t].unwrap().y
                &&& event.cursor_id@ == cursor_ids[t]
                &&& event.time_ms == times_ms[t]
                &&& event.active_modifiers@.len() == 0
            },
    decreases n,
{
    if n > 0 {
        let last = n - 1;
        law_every_new_position_is_a_move(
            positions,
            cursor_ids,
            times_ms,
            moves,
            (n - 1) as nat,
        );
        assert(moves_follow(
            positions[last],
            cursor_ids[last],
            times_ms[last],
            moves[last],
            moves[last + 1],
        ));
        let before = moves[last];
        let after = moves[n as int];
        assert forall|i: int| 0 <= i < before.len() implies #[trigger] after[i] == before[i] by {
            if positions[last] is Some {
                assert(after.drop_last()[i] == before[i]);
            }
        }
        assert forall|t: int| 0 <= t < n && #[trigger] positions[t] is Some implies {
            let at = moves[0].len() + position_count(positions, t as nat);
            let event = after[at as int];
            &&& at < after.len()
            &&& event.x == positions[t].unwrap().x
            &&& event.y == positions[t].unwrap().y
            &&& event.cursor_id@ == cursor_ids[t]
            &&& event.time_ms == times_ms[t]
            &&& event.active_modifiers@.len() == 0
        } by {
            let at = moves[0].len() + position_count(positions, t as nat);
            if t < last {
                assert(after[at as int] == before[at as int]);
            } else {
                assert(at == before.len());
                assert(after[at as int] == after.last());
            }
        }
    }
}

} // verus!
