//! The keyboard side of the synthesizer: which key sounds which note, and
//! the diff between two polls of the held-key set.
//!
//! Polling the physical keyboard is the surrounding program's job; it hands
//! the previously and currently held keys to [`query_events`] as plain
//! values and receives the press/release events back.

use vstd::prelude::*;

verus! {

/// The keys the synthesizer reads: one octave of note keys laid out over two
/// physical rows, plus the quit key; any other key is `Other`.
#[derive(Clone, Copy, Debug, PartialEq, Eq, Structural)]
pub enum Key {
    Z,
    S,
    X,
    D,
    C,
    V,
    G,
    B,
    H,
    N,
    J,
    M,
    Comma,
    Q,
    Other,
}

/// A change in a key's state between two polls of the keyboard.
#[derive(Clone, Copy, Debug, PartialEq, Eq, Structural)]
pub enum KeyboardEvent {
    KeyPressed(Key),
    KeyReleased(Key),
}

/// The note id a key sounds, if any: the semitones ascend along the rows,
/// starting from note id 0 at `Z`.
pub open spec fn spec_key_note(key: Key) -> Option<i8> {
    match key {
        Key::Z => Some(0i8),
        Key::S => Some(1i8),
        Key::X => Some(2i8),
        Key::D => Some(3i8),
        Key::C => Some(4i8),
        Key::V => Some(5i8),
        Key::G => Some(6i8),
        Key::B => Some(7i8),
        Key::H => Some(8i8),
        Key::N => Some(9i8),
        Key::J => Some(10i8),
        Key::M => Some(11i8),
        Key::Comma => Some(12i8),
        Key::Q => None,
        Key::Other => None,
    }
}

/// The `KeyPressed` events of one poll: one per current key that was not
/// held before, in current-poll order.
pub open spec fn spec_pressed_events(prev: Seq<Key>, cur: Seq<Key>) -> Seq<KeyboardEvent>
    decreases cur.len(),
{
    if cur.len() == 0 {
        Seq::empty()
    } else if prev.contains(cur.last()) {
        spec_pressed_events(prev, cur.drop_last())
    } else {
        spec_pressed_events(prev, cur.drop_last()).push(KeyboardEvent::KeyPressed(cur.last()))
    }
}

/// The `KeyReleased` events of one poll: one per previous key that is no
/// longer held, in previous-poll order.
pub open spec fn spec_released_events(prev: Seq<Key>, cur: Seq<Key>) -> Seq<KeyboardEvent>
    decreases prev.len(),
{
    if prev.len() == 0 {
        Seq::empty()
    } else if cur.contains(prev.last()) {
        spec_released_events(prev.drop_last(), cur)
    } else {
        spec_released_events(prev.drop_last(), cur).push(KeyboardEvent::KeyReleased(prev.last()))
    }
}

/// All events of one poll: every press, then every release.
pub open spec fn spec_key_events(prev: Seq<Key>, cur: Seq<Key>) -> Seq<KeyboardEvent> {
    spec_pressed_events(prev, cur) + spec_released_events(prev, cur)
}

/// The note id a key sounds; see [`spec_key_note`].
pub fn keycode_to_note(key: Key) -> (r: Option<i8>)
    ensures
        r == spec_key_note(key),
{
    match key {
        Key::Z => Some(0),
        Key::S => Some(1),
        Key::X => Some(2),
        Key::D => Some(3),
        Key::C => Some(4),
        Key::V => Some(5),
        Key::G => Some(6),
        Key::B => Some(7),
        Key::H => Some(8),
        Key::N => Some(9),
        Key::J => Some(10),
        Key::M => Some(11),
        Key::Comma => Some(12),
        Key::Q => None,
        Key::Other => None,
    }
}

/// Whether `keys` holds `key`.
fn contains_key_code(keys: &Vec<Key>, key: Key) -> (b: bool)
    ensures
        b == keys@.contains(key),
{
    let n = keys.len();
    let mut i: usize = 0;
    while i < n
        invariant
            i <= n,
            n == keys@.len(),
            forall|j: int| 0 <= j < i ==> keys@[j] != key,
        decreases n - i,
    {
        if keys[i] == key {
            return true;
        }
        i = i + 1;
    }
    false
}

/// The events between two polls of the held-key set: a `KeyPressed` for each
/// key newly held, then a `KeyReleased` for each key no longer held; see
/// [`spec_key_events`]. A key held in both polls, or in neither, produces
/// nothing.
pub fn query_events(prev: &Vec<Key>, cur: &Vec<Key>) -> (events: Vec<KeyboardEvent>)
    ensures
        events@ == spec_key_events(prev@, cur@),
{
    let mut events: Vec<KeyboardEvent> = Vec::new();
    let n = cur.len();
    let mut i: usize = 0;
    while i < n
        invariant
            i <= n,
            n == cur@.len(),
            events@ == spec_pressed_events(prev@, cur@.take(i as int)),
        decreases n - i,
    {
        proof {
            assert(cur@.take(i + 1 as int).drop_last() =~= cur@.take(i as int));
            assert(cur@.take(i + 1 as int).last() == cur@[i as int]);
        }
        if !contains_key_code(prev, cur[i]) {
            events.push(KeyboardEvent::KeyPressed(cur[i]));
        }
        i = i + 1;
    }
    proof {
        assert(cur@.take(n as int) =~= cur@);
        assert(events@ =~= spec_pressed_events(prev@, cur@) + spec_released_events(
            prev@.take(0),
            cur@,
        ));
    }
    let m = prev.len();
    let mut k: usize = 0;
    while k < m
        invariant
            k <= m,
            m == prev@.len(),
            events@ == spec_pressed_events(prev@, cur@) + spec_released_events(
                prev@.take(k as int),
                cur@,
            ),
        decreases m - k,
    {
        proof {
            assert(prev@.take(k + 1 as int).drop_last() =~= prev@.take(k as int));
            assert(prev@.take(k + 1 as int).last() == prev@[k as int]);
        }
        if !contains_key_code(cur, prev[k]) {
            events.push(KeyboardEvent::KeyReleased(prev[k]));
            proof {
                assert(events@ =~= spec_pressed_events(prev@, cur@) + spec_released_events(
                    prev@.take(k + 1 as int),
                    cur@,
                ));
            }
        }
        k = k + 1;
    }
    proof {
        assert(prev@.take(m as int) =~= prev@);
        assert(events@ =~= spec_key_events(prev@, cur@));
    }
    events
}

} // verus!
