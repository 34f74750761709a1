//! The overlay's decisions that do not depend on pixels: which suffix of a
//! long preview to show, where to cut it so no word is shown half, and what a
//! pointer sample does to a drag.

use vstd::prelude::*;
use crate::text::{chars_of, is_whitespace, is_ws, lemma_trim_start_skip, string_from, trim_start};

verus! {

/// Binary search for the longest suffix length in `0..=n` that `fits`
/// accepts, as the preview keeps the newest lines that fit the card. The
/// answer is a boundary of the predicate: 0 or a length it accepted, and `n`
/// or a length whose successor it rejected. When `fits` is monotone
/// (everything shorter than an accepted length is accepted) that is the
/// longest accepted length.
pub fn longest_fitting<F: Fn(usize) -> bool>(n: usize, fits: &F) -> (r: usize)
    requires
        forall|k: usize| k <= n ==> call_requires(*fits, (k,)),
    ensures
        r <= n,
        r == 0 || call_ensures(*fits, (r,), true),
        r == n || call_ensures(*fits, ((r + 1) as usize,), false),
{
    let mut lo: usize = 0;
    let mut hi: usize = n;
    while lo < hi
        invariant
            lo <= hi <= n,
            forall|k: usize| k <= n ==> call_requires(*fits, (k,)),
            lo == 0 || call_ensures(*fits, (lo,), true),
            hi == n || call_ensures(*fits, ((hi + 1) as usize,), false),
        decreases hi - lo,
    {
        let mid = lo + (hi - lo) / 2 + (hi - lo) % 2;
        if fits(mid) {
            lo = mid;
        } else {
            hi = mid - 1;
        }
    }
    lo
}

/// Index of the first ASCII space in `s`, if any.
pub open spec fn first_space(s: Seq<char>) -> Option<int>
    decreases s.len(),
{
    if s.len() == 0 {
        None
    } else if s[0] == ' ' {
        Some(0)
    } else {
        match first_space(s.drop_first()) {
            Some(i) => Some(i + 1),
            None => None,
        }
    }
}

/// A cut-down preview starts at its next word: a partial first word is
/// dropped up to and including the first space, and a preview that starts
/// at a space (or has none) loses its leading whitespace.
pub open spec fn whole_words(s: Seq<char>) -> Seq<char> {
    match first_space(s) {
        Some(i) => if s[0] != ' ' {
            s.subrange(i + 1, s.len() as int)
        } else {
            trim_start(s)
        },
        None => trim_start(s),
    }
}

proof fn lemma_first_space(s: Seq<char>, i: int)
    requires
        0 <= i <= s.len(),
        forall|k: int| 0 <= k < i ==> s[k] != ' ',
    ensures
        i < s.len() && s[i] == ' ' ==> first_space(s) == Some(i),
        i == s.len() ==> first_space(s) is None,
    decreases i,
{
    if i > 0 {
        let t = s.drop_first();
        assert forall|k: int| 0 <= k < i - 1 implies t[k] != ' ' by {
            assert(t[k] == s[k + 1]);
        }
        lemma_first_space(t, i - 1);
        if i < s.len() {
            assert(t[i - 1] == s[i]);
        }
    }
}

/// Law: a cut-down preview loses at most its partial first word. When it
/// starts inside a word and holds a space, the result is everything after
/// the first space (a space ends what was cut, and none comes before it);
/// otherwise it is the preview without its leading whitespace. Either way
/// the result is a suffix of the preview.
pub proof fn lemma_whole_words_cuts_the_first_word(s: Seq<char>)
    ensures
        exists|k: int| 0 <= k <= s.len() && whole_words(s) == s.subrange(k, s.len() as int),
        (s.len() > 0 && s[0] != ' ' && exists|i: int| 0 <= i < s.len() && s[i] == ' ') ==> exists|k: int|
            0 < k <= s.len() && s[k - 1] == ' ' && (forall|j: int| 0 <= j < k - 1 ==> s[j] != ' ')
                && whole_words(s) == s.subrange(k, s.len() as int),
        !(s.len() > 0 && s[0] != ' ' && exists|i: int| 0 <= i < s.len() && s[i] == ' ')
            ==> whole_words(s) == trim_start(s),
{
    lemma_first_space_found(s);
    lemma_trim_start_suffix(s);
    match first_space(s) {
        Some(i) => {
            if s[0] != ' ' {
                assert(whole_words(s) == s.subrange(i + 1, s.len() as int));
            }
        },
        None => {},
    }
}

proof fn lemma_first_space_found(s: Seq<char>)
    ensures
        match first_space(s) {
            Some(i) => 0 <= i < s.len() && s[i] == ' ' && forall|j: int| 0 <= j < i ==> s[j] != ' ',
            None => forall|j: int| 0 <= j < s.len() ==> s[j] != ' ',
        },
    decreases s.len(),
{
    if s.len() > 0 && s[0] != ' ' {
        let t = s.drop_first();
        lemma_first_space_found(t);
        match first_space(t) {
            Some(i) => {
                assert(s[i + 1] == t[i]);
                assert forall|j: int| 0 <= j < i + 1 implies s[j] != ' ' by {
                    if j > 0 {
                        assert(s[j] == t[j - 1]);
                    }
                }
            },
            None => {
                assert forall|j: int| 0 <= j < s.len() implies s[j] != ' ' by {
                    if j > 0 {
                        assert(s[j] == t[j - 1]);
                    }
                }
            },
        }
    }
}

proof fn lemma_trim_start_suffix(s: Seq<char>)
    ensures
        exists|k: int| 0 <= k <= s.len() && trim_start(s) == s.subrange(k, s.len() as int),
    decreases s.len(),
{
    if s.len() > 0 && is_ws(s[0]) {
        lemma_trim_start_suffix(s.drop_first());
        let k = choose|k: int|
            0 <= k <= s.drop_first().len() && trim_start(s.drop_first()) == s.drop_first().subrange(
                k,
                s.drop_first().len() as int,
            );
        assert(s.drop_first().subrange(k, s.drop_first().len() as int) == s.subrange(k + 1, s.len() as int));
    } else {
        assert(s.subrange(0, s.len() as int) == s);
    }
}

/// The preview suffix starting at its next whole word.
pub fn drop_partial_word(suffix: &str) -> (r: String)
    ensures
        r@ == whole_words(suffix@),
{
    let cs = chars_of(suffix);
    let n = cs.len();
    let mut i: usize = 0;
    while i < n && cs[i] != ' '
        invariant
            i <= n == cs@.len(),
            forall|k: int| 0 <= k < i ==> cs@[k] != ' ',
        decreases n - i,
    {
        i = i + 1;
    }
    proof {
        lemma_first_space(cs@, i as int);
    }
    if i < n && cs[0] != ' ' {
        let mut out: Vec<char> = Vec::new();
        for k in (i + 1)..n
            invariant
                i < n == cs@.len(),
                out@ == cs@.subrange(i + 1, k as int),
        {
            out.push(cs[k]);
            assert(cs@.subrange(i + 1, k + 1) =~= cs@.subrange(i + 1, k as int).push(cs@[k as int]));
        }
        string_from(&out)
    } else {
        let mut j: usize = 0;
        while j < n && is_whitespace(cs[j])
            invariant
                j <= n == cs@.len(),
                forall|k: int| 0 <= k < j ==> is_ws(#[trigger] cs@[k]),
            decreases n - j,
        {
            j = j + 1;
        }
        proof {
            lemma_trim_start_skip(cs@, j as int);
            let t = cs@.subrange(j as int, n as int);
            assert(t.len() == 0 || !is_ws(t[0]));
        }
        let mut out: Vec<char> = Vec::new();
        for k in j..n
            invariant
                j <= n == cs@.len(),
                out@ == cs@.subrange(j as int, k as int),
        {
            out.push(cs[k]);
            assert(cs@.subrange(j as int, k + 1) =~= cs@.subrange(j as int, k as int).push(cs@[k as int]));
        }
        string_from(&out)
    }
}

/// What one pointer sample does to the drag.
#[derive(PartialEq, Eq, Structural, Debug, Clone, Copy)]
pub enum DragAction {
    /// Start dragging: remember where the pointer and the card are.
    Grab,
    /// Follow the pointer.
    Follow,
    /// The button came up: stop and save the position.
    Release,
    /// Nothing to do.
    Ignore,
}

/// The drag step for a pointer sample. `grabbing`: a drag is under way;
/// `down`: the button is held now; `was_down`: it was held at the previous
/// sample; `on_card`: the pointer is over the card. Only a press that
/// *starts* on the card grabs it, so a drag begun elsewhere that merely
/// passes over the overlay neither moves it nor overwrites its saved
/// position.
pub fn drag_step(grabbing: bool, down: bool, was_down: bool, on_card: bool) -> (a: DragAction)
    ensures
        a == if grabbing {
            if down {
                DragAction::Follow
            } else {
                DragAction::Release
            }
        } else if down && !was_down && on_card {
            DragAction::Grab
        } else {
            DragAction::Ignore
        },
{
    if grabbing {
        if down {
            DragAction::Follow
        } else {
            DragAction::Release
        }
    } else if down && !was_down && on_card {
        DragAction::Grab
    } else {
        DragAction::Ignore
    }
}

/// The card's visibility to ask the window for: `shown` is what was last
/// asked for (`None` before the first frame). The card is shown exactly
/// while recording, and a request goes out only when that changes.
pub fn visibility_change(shown: Option<bool>, recording: bool) -> (r: Option<bool>)
    ensures
        r == if shown == Some(recording) {
            None
        } else {
            Some(recording)
        },
{
    match shown {
        Some(v) => if v == recording {
            None
        } else {
            Some(recording)
        },
        None => Some(recording),
    }
}

} // verus!
