//! The Alt+Shift tap detector and the choice of keyboard device to listen to.
//! Keys are Linux input key codes; event values are 0 (release), 1 (press)
//! and 2 (autorepeat).

use vstd::prelude::*;
use crate::text::{chars_of, contains, has_substring};

verus! {

pub const KEY_LEFTSHIFT: u16 = 42;
pub const KEY_RIGHTSHIFT: u16 = 54;
pub const KEY_LEFTALT: u16 = 56;
pub const KEY_RIGHTALT: u16 = 100;

/// Toshy (xwaykeyz) grabs the physical keyboards and re-emits remapped events
/// on its own virtual device, so that is what we listen to by default.
pub const PREFERRED: &'static str = "XWayKeyz (virtual) Keyboard";

/// Never listen to our own injected Ctrl+V.
pub const EXCLUDE: &'static str = "ydotoold virtual device";

pub open spec fn spec_is_alt(k: u16) -> bool {
    k == KEY_LEFTALT || k == KEY_RIGHTALT
}

pub open spec fn spec_is_shift(k: u16) -> bool {
    k == KEY_LEFTSHIFT || k == KEY_RIGHTSHIFT
}

pub fn is_alt(k: u16) -> (b: bool)
    ensures
        b == spec_is_alt(k),
{
    k == KEY_LEFTALT || k == KEY_RIGHTALT
}

pub fn is_shift(k: u16) -> (b: bool)
    ensures
        b == spec_is_shift(k),
{
    k == KEY_LEFTSHIFT || k == KEY_RIGHTSHIFT
}

/// The state of the chord detector.
pub struct ChordView {
    /// An Alt key is held.
    pub alt: bool,
    /// A Shift key is held.
    pub shift: bool,
    /// Both were held together since the modifiers were last all up.
    pub armed: bool,
    /// Set once any other key is pressed while the chord is held, and cleared
    /// only when both modifiers are back up: Alt+Shift+Tab followed by a
    /// second Shift press (Alt still held, ordinary window cycling) must not
    /// re-arm the chord and fire on the final Shift release.
    pub used: bool,
}

/// No key held, nothing pending.
pub open spec fn idle() -> ChordView {
    ChordView { alt: false, shift: false, armed: false, used: false }
}

/// The detector's invariant: it is armed only while a modifier is held and
/// no other key has been pressed.
pub open spec fn chord_wf(s: ChordView) -> bool {
    s.armed ==> !s.used && (s.alt || s.shift)
}

/// One key event: the next state, and whether a clean Alt+Shift tap just
/// completed.
pub open spec fn chord_step(s: ChordView, key: u16, value: i32) -> (ChordView, bool) {
    if value == 2 {
        (s, false)
    } else {
        let down = value == 1;
        if !spec_is_alt(key) && !spec_is_shift(key) {
            if down && (s.alt || s.shift) {
                (ChordView { used: true, armed: false, ..s }, false)
            } else {
                (s, false)
            }
        } else {
            let m = if spec_is_alt(key) {
                ChordView { alt: down, ..s }
            } else {
                ChordView { shift: down, ..s }
            };
            if !m.alt && !m.shift {
                (ChordView { armed: false, used: false, ..m }, m.armed && !m.used)
            } else if m.alt && m.shift && !m.used {
                (ChordView { armed: true, ..m }, false)
            } else if m.armed && m.used {
                (ChordView { armed: false, ..m }, false)
            } else {
                (m, false)
            }
        }
    }
}

/// Feeds a sequence of events; the final state and how many times it fired.
pub open spec fn chord_run(s: ChordView, events: Seq<(u16, i32)>) -> (ChordView, nat)
    decreases events.len(),
{
    if events.len() == 0 {
        (s, 0)
    } else {
        let (s1, f) = chord_step(s, events[0].0, events[0].1);
        let (s2, n) = chord_run(s1, events.drop_first());
        (s2, n + if f {
            1nat
        } else {
            0nat
        })
    }
}

/// Detects a *tap* of Alt+Shift: both held, then released without any other
/// key in between.
pub struct Chord {
    alt: bool,
    shift: bool,
    armed: bool,
    used: bool,
}

impl View for Chord {
    type V = ChordView;

    closed spec fn view(&self) -> ChordView {
        ChordView { alt: self.alt, shift: self.shift, armed: self.armed, used: self.used }
    }
}

impl Default for Chord {
    fn default() -> (c: Self)
        ensures
            c@ == idle(),
    {
        Chord { alt: false, shift: false, armed: false, used: false }
    }
}

impl Chord {
    /// Returns true when a clean Alt+Shift tap completes.
    pub fn feed(&mut self, key: u16, value: i32) -> (fire: bool)
        ensures
            (final(self)@, fire) == chord_step(old(self)@, key, value),
    {
        if value == 2 {
            return false;
        }
        let down = value == 1;
        if is_alt(key) {
            self.alt = down;
        } else if is_shift(key) {
            self.shift = down;
        } else {
            if down && (self.alt || self.shift) {
                self.used = true;
                self.armed = false;
            }
            return false;
        }
        if !self.alt && !self.shift {
            let fire = self.armed && !self.used;
            self.armed = false;
            self.used = false;
            return fire;
        }
        if self.alt && self.shift && !self.used {
            self.armed = true;
        } else if self.armed && self.used {
            self.armed = false;
        }
        false
    }
}

/// Law: every event keeps the detector's invariant.
pub proof fn lemma_chord_wf(s: ChordView, key: u16, value: i32)
    requires
        chord_wf(s),
    ensures
        chord_wf(chord_step(s, key, value).0),
{
}

/// Law: autorepeat is ignored.
pub proof fn lemma_autorepeat_ignored(s: ChordView, key: u16)
    ensures
        chord_step(s, key, 2) == (s, false),
{
}

/// Law: the detector fires only on the release (any value other than press
/// and autorepeat) of a modifier that leaves no
/// modifier held, after both were held together with no other key pressed.
pub proof fn lemma_fires_only_on_clean_release(s: ChordView, key: u16, value: i32)
    requires
        chord_step(s, key, value).1,
    ensures
        value != 1 && value != 2,
        spec_is_alt(key) || spec_is_shift(key),
        s.armed && !s.used,
        chord_step(s, key, value).0 == idle(),
{
}

/// Law: pressing any other key while the chord is held spoils it: nothing
/// fires until every modifier is back up, and the first event that leaves
/// them all up clears the detector. A key typed while no modifier is held
/// changes nothing.
pub proof fn lemma_other_key_spoils(s: ChordView, key: u16, value: i32)
    ensures
        !spec_is_alt(key) && !spec_is_shift(key) ==> !chord_step(s, key, value).1,
        !spec_is_alt(key) && !spec_is_shift(key) && value == 1 && (s.alt || s.shift)
            ==> chord_step(s, key, value).0.used && !chord_step(s, key, value).0.armed,
        !spec_is_alt(key) && !spec_is_shift(key) && !(s.alt || s.shift) ==> chord_step(
            s,
            key,
            value,
        ).0 == s,
        s.used ==> !chord_step(s, key, value).1,
        s.used ==> chord_step(s, key, value).0.used || chord_step(s, key, value).0 == idle(),
{
}

/// Law: the detector arms only at a moment when Alt and Shift are both held
/// and no other key has been pressed.
pub proof fn lemma_arms_only_when_both_held(s: ChordView, key: u16, value: i32)
    requires
        !s.armed,
        chord_step(s, key, value).0.armed,
    ensures
        chord_step(s, key, value).0.alt,
        chord_step(s, key, value).0.shift,
        !chord_step(s, key, value).0.used,
{
}

/// The events of one tap: `first` pressed, `second` pressed, then both
/// released, `first` first when `release_first` holds.
pub open spec fn tap(first: u16, second: u16, release_first: bool) -> Seq<(u16, i32)> {
    if release_first {
        seq![(first, 1i32), (second, 1i32), (first, 0i32), (second, 0i32)]
    } else {
        seq![(first, 1i32), (second, 1i32), (second, 0i32), (first, 0i32)]
    }
}

/// Law: from rest, a tap of an Alt key and a Shift key, pressed and released
/// in either order, fires exactly once and leaves the detector at rest.
pub proof fn lemma_tap_fires_once(alt: u16, shift: u16, alt_first: bool, release_first: bool)
    requires
        spec_is_alt(alt),
        spec_is_shift(shift),
    ensures
        chord_run(idle(), tap(if alt_first { alt } else { shift }, if alt_first { shift } else { alt }, release_first)) == (idle(), 1nat),
{
    let first = if alt_first { alt } else { shift };
    let second = if alt_first { shift } else { alt };
    let ev = tap(first, second, release_first);
    reveal_with_fuel(chord_run, 5);
    assert(ev.drop_first().drop_first().drop_first().drop_first() =~= Seq::<(u16, i32)>::empty());
}

/// Law: the chord's keys are exactly the Linux input codes of the two Alt
/// keys (56, 100) and the two Shift keys (42, 54); Ctrl (29, 97), Meta and
/// every other key are not part of it.
pub proof fn lemma_chord_keys(k: u16)
    ensures
        spec_is_alt(k) <==> (k == 56 || k == 100),
        spec_is_shift(k) <==> (k == 42 || k == 54),
{
}

/// Law: from rest, a tap of two keys (`a` pressed, then `b`, then both
/// released in either order) fires once exactly when one of them is an Alt
/// key (code 56 or 100) and the other a Shift key (code 42 or 54), and
/// never otherwise: a Ctrl+Shift or Alt+Ctrl tap, say, fires nothing.
pub proof fn lemma_only_alt_shift_taps_fire(a: u16, b: u16, release_first: bool)
    ensures
        chord_run(idle(), tap(a, b, release_first)).1 == if ((a == 56 || a == 100) && (b == 42
            || b == 54)) || ((a == 42 || a == 54) && (b == 56 || b == 100)) {
            1nat
        } else {
            0nat
        },
{
    let ev = tap(a, b, release_first);
    reveal_with_fuel(chord_run, 5);
    assert(ev.drop_first().drop_first().drop_first().drop_first() =~= Seq::<(u16, i32)>::empty());
}

/// Whether `k` is one of the chord's modifiers.
pub open spec fn is_modifier(k: u16) -> bool {
    spec_is_alt(k) || spec_is_shift(k)
}

/// Whether an Alt key is held after the events `e`: the last Alt event that
/// is not an autorepeat was a press.
pub open spec fn held_alt(e: Seq<(u16, i32)>) -> bool
    decreases e.len(),
{
    if e.len() == 0 {
        false
    } else if spec_is_alt(e.last().0) && e.last().1 != 2 {
        e.last().1 == 1
    } else {
        held_alt(e.drop_last())
    }
}

/// Whether a Shift key is held after the events `e`.
pub open spec fn held_shift(e: Seq<(u16, i32)>) -> bool
    decreases e.len(),
{
    if e.len() == 0 {
        false
    } else if spec_is_shift(e.last().0) && e.last().1 != 2 {
        e.last().1 == 1
    } else {
        held_shift(e.drop_last())
    }
}

/// Neither modifier is held after the events `e`.
pub open spec fn at_rest(e: Seq<(u16, i32)>) -> bool {
    !held_alt(e) && !held_shift(e)
}

/// Alt and Shift were both held together at some moment since the
/// modifiers were last all up.
pub open spec fn both_held_since_rest(e: Seq<(u16, i32)>) -> bool
    decreases e.len(),
{
    if e.len() == 0 {
        false
    } else {
        !at_rest(e) && ((held_alt(e) && held_shift(e)) || both_held_since_rest(e.drop_last()))
    }
}

/// Another key was pressed while the chord was held, since the modifiers
/// were last all up.
pub open spec fn key_pressed_since_rest(e: Seq<(u16, i32)>) -> bool
    decreases e.len(),
{
    if e.len() == 0 {
        false
    } else {
        !at_rest(e) && (key_pressed_since_rest(e.drop_last()) || (!is_modifier(e.last().0)
            && e.last().1 == 1))
    }
}

/// The detector's state after feeding the events `e` from rest.
pub open spec fn state_after(e: Seq<(u16, i32)>) -> ChordView
    decreases e.len(),
{
    if e.len() == 0 {
        idle()
    } else {
        chord_step(state_after(e.drop_last()), e.last().0, e.last().1).0
    }
}

/// Law: after any history of key events the detector holds exactly what the
/// history says: which modifiers are held, whether the chord was held
/// clean (both modifiers together, no other key pressed while it was held)
/// since the modifiers were last all up, and whether it was spoilt.
pub proof fn lemma_state_follows_history(e: Seq<(u16, i32)>)
    ensures
        state_after(e) == (ChordView {
            alt: held_alt(e),
            shift: held_shift(e),
            armed: both_held_since_rest(e) && !key_pressed_since_rest(e),
            used: key_pressed_since_rest(e),
        }),
    decreases e.len(),
{
    if e.len() > 0 {
        lemma_state_follows_history(e.drop_last());
    }
}

/// Law: fed a history of key events from rest, the detector fires on the
/// next event exactly when it is the release of Alt or Shift that leaves
/// neither held, Alt and Shift were both held together since the modifiers
/// were last all up, and no other key was pressed while the chord was held
/// in that span. A key typed while no modifier is held does not count.
pub proof fn lemma_fires_iff_clean_tap(e: Seq<(u16, i32)>, key: u16, value: i32)
    ensures
        chord_step(state_after(e), key, value).1 <==> (is_modifier(key) && value != 1 && value
            != 2 && at_rest(e.push((key, value))) && both_held_since_rest(e)
            && !key_pressed_since_rest(e)),
{
    lemma_state_follows_history(e);
    let f = e.push((key, value));
    assert(f.drop_last() == e);
    assert(f.last() == (key, value));
}

/// The name the device search looks for.
pub open spec fn wanted_name(explicit: Option<String>) -> Seq<char> {
    match explicit {
        Some(e) => e@,
        None => PREFERRED@,
    }
}

/// A device can be listened to when it has an Alt key and, unless a name
/// was asked for explicitly, is not our own injection device.
pub open spec fn eligible(dev: (String, bool), explicit: Option<String>) -> bool {
    dev.1 && !(has_substring(dev.0@, EXCLUDE@) && explicit is None)
}

/// An eligible device whose name contains the wanted name.
pub open spec fn wanted(dev: (String, bool), explicit: Option<String>) -> bool {
    eligible(dev, explicit) && has_substring(dev.0@, wanted_name(explicit))
}

/// Which keyboard to listen to, among devices given as (name, has an Alt
/// key): the first eligible one whose name contains the wanted name, else
/// the first eligible one, else none.
pub fn choose_keyboard(devices: &Vec<(String, bool)>, explicit: &Option<String>) -> (r: Option<usize>)
    ensures
        (exists|j: int| 0 <= j < devices@.len() && wanted(#[trigger] devices@[j], *explicit))
            ==> (r matches Some(i) && i < devices@.len() && wanted(devices@[i as int], *explicit)
            && forall|j: int| 0 <= j < i ==> !wanted(#[trigger] devices@[j], *explicit)),
        !(exists|j: int| 0 <= j < devices@.len() && wanted(#[trigger] devices@[j], *explicit))
            ==> match r {
            Some(i) => i < devices@.len() && eligible(devices@[i as int], *explicit) && forall|j: int|
                0 <= j < i ==> !eligible(#[trigger] devices@[j], *explicit),
            None => forall|j: int|
                0 <= j < devices@.len() ==> !eligible(#[trigger] devices@[j], *explicit),
        },
{
    let want: Vec<char> = match explicit {
        Some(e) => chars_of(e.as_str()),
        None => chars_of(PREFERRED),
    };
    let exclude = chars_of(EXCLUDE);
    let mut fallback: Option<usize> = None;
    let n = devices.len();
    for i in 0..n
        invariant
            n == devices@.len(),
            want@ == wanted_name(*explicit),
            exclude@ == EXCLUDE@,
            forall|j: int| 0 <= j < i ==> !wanted(#[trigger] devices@[j], *explicit),
            match fallback {
                Some(f) => f < i && eligible(devices@[f as int], *explicit) && forall|j: int|
                    0 <= j < f ==> !eligible(#[trigger] devices@[j], *explicit),
                None => forall|j: int| 0 <= j < i ==> !eligible(#[trigger] devices@[j], *explicit),
            },
    {
        let name = chars_of(devices[i].0.as_str());
        let skip = contains(&name, &exclude) && explicit.is_none();
        if !skip && devices[i].1 {
            if contains(&name, &want) {
                return Some(i);
            }
            if fallback.is_none() {
                fallback = Some(i);
            }
        }
    }
    fallback
}

} // verus!
