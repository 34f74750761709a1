//! The speech recogniser's side of the pipeline, as a decision function: for
//! each message from the audio side, which chunks go to the model and whether
//! the dictation is over. Running the model is the application's part.

use vstd::prelude::*;
use crate::chunks::{Chunker, concat, fit};
use crate::cli::join;

verus! {

/// Samples per model pass: 560 ms at 16 kHz.
pub const CHUNK: usize = 8960;

/// Passes of silence that flush the model's lookahead at the end.
pub const FLUSH_PASSES: usize = 3;

pub enum Msg<T> {
    /// Sent on toggle-on. Drops anything the audio thread pushed after the
    /// previous `Finish`: the stop command and `Finish` travel on different
    /// channels, so an audio callback already in flight lands here late and
    /// would otherwise be prepended to the next dictation.
    Start,
    Samples(Vec<T>),
    /// Recording stopped: flush the tail and hand back the final transcript.
    Finish,
}

/// What the recogniser must do for one message.
pub struct Work<T> {
    /// Chunks to transcribe, in order.
    pub chunks: Vec<Vec<T>>,
    /// After them, read the final transcript and reset the model.
    pub finish: bool,
}

/// The chunks that end a dictation: the pending samples padded to a chunk
/// (when there are any), then `FLUSH_PASSES` chunks of silence.
pub open spec fn final_chunks<T>(pending: Seq<T>, zero: T, chunks: Seq<Vec<T>>) -> bool {
    let k: int = if pending.len() > 0 {
        1
    } else {
        0
    };
    &&& chunks.len() == k + FLUSH_PASSES
    &&& pending.len() > 0 ==> chunks[0]@ == fit(pending, CHUNK as nat, zero)
    &&& forall|i: int| k <= i < chunks.len() ==> #[trigger] chunks[i]@ == Seq::new(CHUNK as nat, |_j: int| zero)
}

/// The recogniser's state between messages: whether a dictation is running
/// (between a `Start` and the next `Finish`) and the samples received during
/// it that do not fill a chunk yet.
pub struct Transcriber<T> {
    listening: bool,
    pending: Chunker<T>,
}

impl<T> View for Transcriber<T> {
    type V = Seq<T>;

    /// The samples waiting to fill a chunk.
    closed spec fn view(&self) -> Seq<T> {
        self.pending@
    }
}

impl<T> Transcriber<T> {
    /// Whether a dictation is running: a `Start` came and no `Finish` since.
    pub closed spec fn listening(&self) -> bool {
        self.listening
    }

    /// Nothing is kept between dictations.
    #[verifier::type_invariant]
    closed spec fn inv(self) -> bool {
        !self.listening ==> self.pending@.len() == 0
    }
}

fn silence<T: Copy>(zero: T) -> (out: Vec<T>)
    ensures
        out@ == Seq::new(CHUNK as nat, |_j: int| zero),
{
    let mut out: Vec<T> = Vec::new();
    for i in 0..CHUNK
        invariant
            out@ == Seq::new(i as nat, |_j: int| zero),
    {
        out.push(zero);
        assert(out@ =~= Seq::new((i + 1) as nat, |_j: int| zero));
    }
    out
}

impl<T: Copy> Transcriber<T> {
    /// Idle, with nothing pending: samples count only after a `Start`.
    pub fn new() -> (t: Self)
        ensures
            !t.listening(),
            t@ == Seq::<T>::empty(),
    {
        Transcriber { listening: false, pending: Chunker::new() }
    }

    /// Handles one message. During a dictation, samples are transcribed a
    /// full chunk at a time, in the order they arrived, and nothing is lost:
    /// the chunks handed out followed by what stays pending are exactly the
    /// earlier pending samples followed by the new ones. Samples that arrive
    /// while no dictation is running (after a `Finish`, before the next
    /// `Start`) are dropped: nothing is handed out and nothing kept. `zero`
    /// is the value of silence.
    pub fn handle(&mut self, msg: Msg<T>, zero: T) -> (w: Work<T>)
        ensures
            match msg {
                Msg::Start => {
                    &&& w.chunks@.len() == 0
                    &&& !w.finish
                    &&& final(self).listening()
                    &&& final(self)@ == Seq::<T>::empty()
                },
                Msg::Samples(s) => {
                    &&& !w.finish
                    &&& final(self).listening() == old(self).listening()
                    &&& old(self).listening() ==> {
                        &&& concat(w.chunks@) + final(self)@ == old(self)@ + s@
                        &&& forall|i: int|
                            0 <= i < w.chunks@.len() ==> (#[trigger] w.chunks@[i])@.len() == CHUNK
                        &&& final(self)@.len() < CHUNK
                    }
                    &&& !old(self).listening() ==> {
                        &&& w.chunks@.len() == 0
                        &&& final(self)@ == Seq::<T>::empty()
                    }
                },
                Msg::Finish => {
                    &&& w.finish
                    &&& final_chunks(old(self)@, zero, w.chunks@)
                    &&& !final(self).listening()
                    &&& final(self)@ == Seq::<T>::empty()
                },
            },
    {
        proof {
            use_type_invariant(&*self);
        }
        let mut pending: Chunker<T> = Chunker::new();
        std::mem::swap(&mut pending, &mut self.pending);
        match msg {
            Msg::Start => {
                self.listening = true;
                Work { chunks: Vec::new(), finish: false }
            },
            Msg::Samples(s) => {
                if !self.listening {
                    return Work { chunks: Vec::new(), finish: false };
                }
                pending.push(s.as_slice());
                let chunks = pending.take_chunks(CHUNK);
                self.pending = pending;
                Work { chunks, finish: false }
            },
            Msg::Finish => {
                self.listening = false;
                let mut chunks: Vec<Vec<T>> = Vec::new();
                let ghost old_pending = pending@;
                match pending.take_tail(CHUNK, zero) {
                    Some(t) => chunks.push(t),
                    None => {},
                }
                let ghost k: int = chunks@.len() as int;
                for p in 0..FLUSH_PASSES
                    invariant
                        k == if old_pending.len() > 0 { 1int } else { 0int },
                        chunks@.len() == k + p,
                        old_pending.len() > 0 ==> chunks@[0]@ == fit(old_pending, CHUNK as nat, zero),
                        forall|i: int|
                            k <= i < chunks@.len() ==> #[trigger] chunks@[i]@ == Seq::new(
                                CHUNK as nat,
                                |_j: int| zero,
                            ),
                {
                    chunks.push(silence(zero));
                }
                Work { chunks, finish: true }
            },
        }
    }
}

/// The speech model's directory: `configured` (the `VOICEFLOW_MODEL`
/// setting) when given, else its place under the home directory.
pub fn model_dir(configured: Option<&str>, home: &str) -> (r: String)
    ensures
        configured matches Some(c) ==> r@ == c@,
        configured is None ==> r@ == home@ + "/.local/share/voiceflow/models/nemotron_multi"@,
{
    match configured {
        Some(c) => String::from_str(c),
        None => join(home, "/.local/share/voiceflow/models/nemotron_multi"),
    }
}

} // verus!
