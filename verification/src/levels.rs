//! The shared recording state and its bounded history of meter levels.

use vstd::prelude::*;
use std::collections::VecDeque;

verus! {

/// How many meter levels are kept.
pub const LEVELS_CAP: usize = 128;

/// The newest `LEVELS_CAP` meter levels, oldest first.
pub struct Levels<T> {
    buf: VecDeque<T>,
}

impl<T> View for Levels<T> {
    type V = Seq<T>;

    closed spec fn view(&self) -> Seq<T> {
        self.buf@
    }
}

/// `s` after appending `v` to a history capped at `LEVELS_CAP`: the oldest
/// level goes when it is full.
pub open spec fn pushed<T>(s: Seq<T>, v: T) -> Seq<T> {
    if s.len() >= LEVELS_CAP {
        s.drop_first().push(v)
    } else {
        s.push(v)
    }
}

/// The last `n` levels of `s`, oldest first, padded at the front with `zero`
/// when fewer than `n` are held.
pub open spec fn recent<T>(s: Seq<T>, n: nat, zero: T) -> Seq<T> {
    let have = if s.len() < n { s.len() } else { n };
    Seq::new((n - have) as nat, |_i: int| zero) + s.subrange(s.len() - have, s.len() as int)
}

impl<T> Levels<T> {
    #[verifier::type_invariant]
    closed spec fn inv(self) -> bool {
        self.buf@.len() <= LEVELS_CAP
    }
}

impl<T: Copy> Levels<T> {
    /// An empty history.
    pub fn new() -> (l: Self)
        ensures
            l@ == Seq::<T>::empty(),
    {
        Levels { buf: VecDeque::new() }
    }

    /// The number of levels held.
    pub fn len(&self) -> (n: usize)
        ensures
            n == self@.len(),
            n <= LEVELS_CAP,
    {
        proof {
            use_type_invariant(self);
        }
        self.buf.len()
    }

    /// Appends a level, dropping the oldest one when the history is full.
    pub fn push(&mut self, v: T)
        ensures
            final(self)@ == pushed(old(self)@, v),
            final(self)@.len() <= LEVELS_CAP,
    {
        proof {
            use_type_invariant(&*self);
        }
        let mut b: VecDeque<T> = VecDeque::new();
        std::mem::swap(&mut b, &mut self.buf);
        if b.len() == LEVELS_CAP {
            b.pop_front();
        }
        b.push_back(v);
        self.buf = b;
    }

    /// Forgets every level.
    pub fn clear(&mut self)
        ensures
            final(self)@ == Seq::<T>::empty(),
    {
        self.buf = VecDeque::new();
    }

    /// The newest `n` levels, oldest first, zero-padded when fewer are held.
    pub fn recent(&self, n: usize, zero: T) -> (out: Vec<T>)
        ensures
            out@ == recent(self@, n as nat, zero),
    {
        proof {
            use_type_invariant(self);
        }
        let len = self.buf.len();
        let have = if len < n {
            len
        } else {
            n
        };
        let mut out: Vec<T> = Vec::new();
        let pad = n - have;
        for i in 0..pad
            invariant
                out@ == Seq::new(i as nat, |_i: int| zero),
        {
            out.push(zero);
            assert(out@ =~= Seq::new((i + 1) as nat, |_i: int| zero));
        }
        let start = len - have;
        for k in start..len
            invariant
                len == self@.len(),
                start == len - have,
                out@ == Seq::new(pad as nat, |_i: int| zero) + self@.subrange(start as int, k as int),
        {
            out.push(self.buf[k]);
            assert(self@.subrange(start as int, k + 1) =~= self@.subrange(start as int, k as int).push(
                self@[k as int],
            ));
        }
        out
    }
}

/// Law: the history never holds more than `LEVELS_CAP` levels, and after a
/// push the pushed level is the newest one `recent` reports.
pub proof fn lemma_push_then_recent<T>(s: Seq<T>, v: T, n: nat, zero: T)
    requires
        s.len() <= LEVELS_CAP,
        n > 0,
    ensures
        pushed(s, v).len() <= LEVELS_CAP,
        recent(pushed(s, v), n, zero).len() == n,
        recent(pushed(s, v), n, zero).last() == v,
{
}

/// Law: `recent` always has the requested length, and keeps the newest
/// levels in order.
pub proof fn lemma_recent_shape<T>(s: Seq<T>, n: nat, zero: T)
    ensures
        recent(s, n, zero).len() == n,
        n <= s.len() ==> recent(s, n, zero) == s.subrange(s.len() - n, s.len() as int),
{
    if n <= s.len() {
        assert(recent(s, n, zero) =~= s.subrange(s.len() - n, s.len() as int));
    }
}

/// Law: the history keeps the newest 128 levels in arrival order: pushing
/// appends the level and, once 128 are held, lets the oldest go.
pub proof fn lemma_push_keeps_newest<T>(s: Seq<T>, v: T)
    requires
        s.len() <= 128,
    ensures
        LEVELS_CAP == 128,
        pushed(s, v) == s.push(v).subrange(
            if s.len() == 128 { 1int } else { 0int },
            s.len() + 1 as int,
        ),
{
    let t = s.push(v);
    if s.len() == 128 {
        assert(pushed(s, v) =~= t.subrange(1, s.len() + 1 as int));
    } else {
        assert(pushed(s, v) =~= t.subrange(0, s.len() + 1 as int));
    }
}

/// Law: when fewer levels are held than asked for, `recent` is the padding
/// first and then every level held, oldest first.
pub proof fn lemma_recent_pads_in_front<T>(s: Seq<T>, n: nat, zero: T)
    requires
        s.len() < n,
    ensures
        recent(s, n, zero) == Seq::new((n - s.len()) as nat, |_i: int| zero) + s,
        forall|i: int| 0 <= i < n - s.len() ==> #[trigger] recent(s, n, zero)[i] == zero,
{
    assert(s.subrange(0, s.len() as int) =~= s);
    let r = recent(s, n, zero);
    assert forall|i: int| 0 <= i < n - s.len() implies #[trigger] r[i] == zero by {
        assert(r[i] == Seq::new((n - s.len()) as nat, |_i: int| zero)[i]);
    }
}

/// What the daemon's threads share: whether a recording is running, the live
/// preview, the final transcript waiting to be pasted, when the recording
/// began, and the meter levels.
pub struct State<T, I> {
    pub recording: bool,
    pub partial: String,
    pub final_text: Option<String>,
    /// When the current recording began, for the history duration.
    pub started_at: Option<I>,
    pub levels: Levels<T>,
}

impl<T: Copy, I> State<T, I> {
    /// Not recording, nothing transcribed, no levels.
    pub fn new() -> (s: Self)
        ensures
            !s.recording,
            s.partial@ == Seq::<char>::empty(),
            s.final_text is None,
            s.started_at is None,
            s.levels@ == Seq::<T>::empty(),
    {
        State {
            recording: false,
            partial: String::new(),
            final_text: None,
            started_at: None,
            levels: Levels::new(),
        }
    }

    pub fn push_level(&mut self, v: T)
        ensures
            final(self).levels@ == pushed(old(self).levels@, v),
            final(self).recording == old(self).recording,
            final(self).partial == old(self).partial,
            final(self).final_text == old(self).final_text,
            final(self).started_at == old(self).started_at,
    {
        self.levels.push(v);
    }

    /// Oldest first, newest last, padded with `zero` when we have not filled
    /// up yet.
    pub fn recent_levels(&self, n: usize, zero: T) -> (out: Vec<T>)
        ensures
            out@ == recent(self.levels@, n as nat, zero),
    {
        self.levels.recent(n, zero)
    }

    /// Flips recording on or off and returns whether it is now on. Turning it
    /// on starts afresh: no preview, no pending transcript, no levels, and
    /// `now` as the start time.
    pub fn toggle(&mut self, now: I) -> (on: bool)
        ensures
            on == !old(self).recording,
            final(self).recording == on,
            on ==> final(self).partial@ == Seq::<char>::empty() && final(self).final_text is None
                && final(self).levels@ == Seq::<T>::empty() && final(self).started_at == Some(now),
            !on ==> final(self).partial == old(self).partial && final(self).final_text == old(
                self,
            ).final_text && final(self).levels == old(self).levels && final(self).started_at
                == old(self).started_at,
    {
        self.recording = !self.recording;
        if self.recording {
            self.partial = String::new();
            self.final_text = None;
            self.levels.clear();
            self.started_at = Some(now);
        }
        self.recording
    }

    /// The microphone could not be opened: a live overlay that can never
    /// produce a word must not stay up.
    pub fn recording_failed(&mut self)
        ensures
            !final(self).recording,
            final(self).started_at is None,
            final(self).partial == old(self).partial,
            final(self).final_text == old(self).final_text,
            final(self).levels == old(self).levels,
    {
        self.recording = false;
        self.started_at = None;
    }

    /// Hands over the final transcript. The preview is cleared only if no new
    /// recording began while the transcript was being flushed.
    pub fn finish(&mut self, text: String)
        ensures
            final(self).final_text == Some(text),
            final(self).recording == old(self).recording,
            old(self).recording ==> final(self).partial == old(self).partial,
            !old(self).recording ==> final(self).partial@ == Seq::<char>::empty(),
            final(self).started_at == old(self).started_at,
            final(self).levels == old(self).levels,
    {
        if !self.recording {
            self.partial = String::new();
        }
        self.final_text = Some(text);
    }
}

} // verus!
