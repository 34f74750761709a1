//! A sample buffer that is cut into fixed-size chunks: the ASR model eats
//! 560 ms chunks, the level meter 10 ms windows.

use vstd::prelude::*;

verus! {

/// The chunks laid end to end.
pub open spec fn concat<T>(cs: Seq<Vec<T>>) -> Seq<T>
    decreases cs.len(),
{
    if cs.len() == 0 {
        seq![]
    } else {
        concat(cs.drop_last()) + cs.last()@
    }
}

/// `s` cut or padded with `zero` to exactly `size` elements.
pub open spec fn fit<T>(s: Seq<T>, size: nat, zero: T) -> Seq<T> {
    if s.len() >= size {
        s.take(size as int)
    } else {
        s + Seq::new((size - s.len()) as nat, |_i: int| zero)
    }
}

/// Law: fitting to a chunk keeps the samples in place from the start: the
/// result has exactly `size` samples, its first ones are the samples of `s`
/// at the same positions, and anything past the end of `s` is `zero`.
pub proof fn lemma_fit_keeps_the_front<T>(s: Seq<T>, size: nat, zero: T)
    ensures
        fit(s, size, zero).len() == size,
        forall|i: int| 0 <= i < size && i < s.len() ==> #[trigger] fit(s, size, zero)[i] == s[i],
        forall|i: int| s.len() <= i < size ==> #[trigger] fit(s, size, zero)[i] == zero,
{
}

/// Law: laying chunks end to end keeps their order: the chunks of a longer
/// list are those of the shorter one followed by the new chunk's samples,
/// and nothing comes from an empty list.
pub proof fn lemma_concat_in_order<T>(cs: Seq<Vec<T>>, c: Vec<T>)
    ensures
        concat(Seq::<Vec<T>>::empty()) == Seq::<T>::empty(),
        concat(cs.push(c)) == concat(cs) + c@,
        concat(cs.push(c)).len() == concat(cs).len() + c@.len(),
{
    assert(cs.push(c).drop_last() == cs);
}

/// Samples waiting to fill a chunk, oldest first.
pub struct Chunker<T> {
    buf: Vec<T>,
}

impl<T> View for Chunker<T> {
    type V = Seq<T>;

    closed spec fn view(&self) -> Seq<T> {
        self.buf@
    }
}

fn copy_range<T: Copy>(v: &Vec<T>, from: usize, to: usize) -> (out: Vec<T>)
    requires
        from <= to <= v@.len(),
    ensures
        out@ == v@.subrange(from as int, to as int),
{
    let mut out: Vec<T> = Vec::new();
    for k in from..to
        invariant
            to <= v@.len(),
            out@ == v@.subrange(from as int, k as int),
    {
        out.push(v[k]);
        assert(v@.subrange(from as int, k + 1) =~= v@.subrange(from as int, k as int).push(
            v@[k as int],
        ));
    }
    out
}

impl<T: Copy> Chunker<T> {
    /// An empty buffer.
    pub fn new() -> (c: Self)
        ensures
            c@ == Seq::<T>::empty(),
    {
        Chunker { buf: Vec::new() }
    }

    /// The number of samples waiting.
    pub fn len(&self) -> (n: usize)
        ensures
            n == self@.len(),
    {
        self.buf.len()
    }

    /// Drops every waiting sample.
    pub fn clear(&mut self)
        ensures
            final(self)@ == Seq::<T>::empty(),
    {
        self.buf.clear();
    }

    /// Appends samples after those already waiting.
    pub fn push(&mut self, samples: &[T])
        ensures
            final(self)@ == old(self)@ + samples@,
    {
        let n = samples.len();
        for i in 0..n
            invariant
                n == samples@.len(),
                self@ == old(self)@ + samples@.take(i as int),
        {
            self.buf.push(samples[i]);
            assert(samples@.take(i + 1) =~= samples@.take(i as int).push(samples@[i as int]));
        }
        assert(samples@.take(n as int) =~= samples@);
    }

    /// Cuts every full chunk of `size` samples off the front, oldest first.
    /// What is left is shorter than a chunk.
    pub fn take_chunks(&mut self, size: usize) -> (out: Vec<Vec<T>>)
        requires
            size > 0,
        ensures
            concat(out@) + final(self)@ == old(self)@,
            forall|i: int| 0 <= i < out@.len() ==> (#[trigger] out@[i])@.len() == size,
            final(self)@.len() < size,
    {
        let n = self.buf.len();
        let mut out: Vec<Vec<T>> = Vec::new();
        let mut pos: usize = 0;
        while n - pos >= size
            invariant
                n == self@.len(),
                self@ == old(self)@,
                pos <= n,
                size > 0,
                concat(out@) == self@.take(pos as int),
                forall|i: int| 0 <= i < out@.len() ==> (#[trigger] out@[i])@.len() == size,
            decreases n - pos,
        {
            let chunk = copy_range(&self.buf, pos, pos + size);
            let ghost before = out@;
            out.push(chunk);
            proof {
                assert(out@.drop_last() == before);
                assert(self@.take(pos + size) =~= self@.take(pos as int) + chunk@);
            }
            pos = pos + size;
        }
        let rest = copy_range(&self.buf, pos, n);
        assert(self@.take(pos as int) + rest@ =~= self@);
        self.buf = rest;
        out
    }

    /// Takes every waiting sample, cut or padded with `zero` to one chunk of
    /// `size`, or nothing when none is waiting. The buffer is left empty.
    pub fn take_tail(&mut self, size: usize, zero: T) -> (out: Option<Vec<T>>)
        ensures
            old(self)@.len() == 0 ==> out is None,
            old(self)@.len() > 0 ==> (out matches Some(t) && t@ == fit(old(self)@, size as nat, zero)),
            final(self)@ == Seq::<T>::empty(),
    {
        if self.buf.len() == 0 {
            return None;
        }
        let n = self.buf.len();
        let mut t: Vec<T>;
        if n >= size {
            t = copy_range(&self.buf, 0, size);
            assert(self@.subrange(0, size as int) =~= self@.take(size as int));
        } else {
            t = copy_range(&self.buf, 0, n);
            assert(self@.subrange(0, n as int) =~= self@);
            let pad = size - n;
            for i in 0..pad
                invariant
                    n < size,
                    pad == size - n,
                    n == self@.len(),
                    t@ == self@ + Seq::new(i as nat, |_i: int| zero),
            {
                t.push(zero);
                assert(t@ =~= self@ + Seq::new((i + 1) as nat, |_i: int| zero));
            }
        }
        self.buf = Vec::new();
        Some(t)
    }
}

} // verus!
