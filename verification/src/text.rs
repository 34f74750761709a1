//! Character-level helpers over the `Seq<char>` view of strings: Unicode
//! whitespace, trimming, word counting, substring search and decimal digits.

use vstd::prelude::*;

verus! {

/// The Unicode `White_Space` property, the set `char::is_whitespace` answers for.
pub open spec fn is_ws(c: char) -> bool {
    let u = c as u32;
    ||| 0x09 <= u <= 0x0d
    ||| u == 0x20
    ||| u == 0x85
    ||| u == 0xa0
    ||| u == 0x1680
    ||| 0x2000 <= u <= 0x200a
    ||| u == 0x2028
    ||| u == 0x2029
    ||| u == 0x202f
    ||| u == 0x205f
    ||| u == 0x3000
}

/// `s` without its leading whitespace.
pub open spec fn trim_start(s: Seq<char>) -> Seq<char>
    decreases s.len(),
{
    if s.len() > 0 && is_ws(s[0]) {
        trim_start(s.drop_first())
    } else {
        s
    }
}

/// `s` without its trailing whitespace.
pub open spec fn trim_end(s: Seq<char>) -> Seq<char>
    decreases s.len(),
{
    if s.len() > 0 && is_ws(s.last()) {
        trim_end(s.drop_last())
    } else {
        s
    }
}

/// `s` without leading and trailing whitespace, as `str::trim` returns it.
pub open spec fn trim(s: Seq<char>) -> Seq<char> {
    trim_end(trim_start(s))
}

/// Whether position `i` of `s` begins a word: a non-whitespace character
/// that is first or follows whitespace.
pub open spec fn starts_word(s: Seq<char>, i: int) -> bool {
    &&& 0 <= i < s.len()
    &&& !is_ws(s[i])
    &&& (i == 0 || is_ws(s[i - 1]))
}

/// The number of maximal runs of non-whitespace characters in `s`: what
/// `split_whitespace().count()` counts.
pub open spec fn word_count(s: Seq<char>) -> nat
    decreases s.len(),
{
    if s.len() == 0 {
        0
    } else {
        word_count(s.drop_last()) + if starts_word(s, s.len() - 1) {
            1nat
        } else {
            0nat
        }
    }
}

/// Whether `p` occurs in `s` as a contiguous run (`str::contains` on a string
/// pattern). The empty pattern occurs everywhere.
pub open spec fn has_substring(s: Seq<char>, p: Seq<char>) -> bool {
    exists|i: int| 0 <= i <= s.len() - p.len() && #[trigger] s.subrange(i, i + p.len()) == p
}

/// The ASCII digit for `d`, for `d < 10`.
pub open spec fn digit_char(d: nat) -> char {
    (d + 48) as char
}

/// Decimal digits of `n`, most significant first, without leading zeros.
pub open spec fn decimal(n: nat) -> Seq<char>
    decreases n,
{
    if n < 10 {
        seq![digit_char(n)]
    } else {
        decimal(n / 10).push(digit_char(n % 10))
    }
}

/// The number that the decimal digits `ds` spell, most significant first.
pub open spec fn digits_value(ds: Seq<char>) -> int
    decreases ds.len(),
{
    if ds.len() == 0 {
        0
    } else {
        digits_value(ds.drop_last()) * 10 + (ds.last() as u32 - 48)
    }
}

/// Law: `decimal(n)` consists of ASCII digits `'0'`..`'9'` only, has no
/// leading zero (so it is `"0"` exactly for 0), and reads back as `n`.
pub proof fn lemma_decimal_reads_back(n: nat)
    ensures
        decimal(n).len() >= 1,
        forall|k: int| 0 <= k < decimal(n).len() ==> 48 <= #[trigger] (decimal(n)[k] as u32) <= 57,
        (decimal(n)[0] as u32 == 48) <==> n == 0,
        digits_value(decimal(n)) == n,
    decreases n,
{
    if n >= 10 {
        lemma_decimal_reads_back(n / 10);
        let t = decimal(n / 10);
        assert(decimal(n).drop_last() == t);
        assert forall|k: int| 0 <= k < decimal(n).len() implies 48 <= #[trigger] (decimal(n)[k] as u32) <= 57 by {
            if k < t.len() {
                assert(decimal(n)[k] == t[k]);
            }
        }
        assert(decimal(n)[0] == t[0]);
        let c = digit_char(n % 10);
        assert(decimal(n).last() == c);
        assert(c as u32 == n % 10 + 48);
        assert(digits_value(decimal(n)) == digits_value(t) * 10 + (n % 10));
        assert((n / 10) * 10 + n % 10 == n);
    } else {
        let d = decimal(n);
        assert(d.drop_last() == Seq::<char>::empty());
        assert(d.last() as u32 == n + 48);
        assert(digits_value(d.drop_last()) == 0);
    }
}

/// Copies the characters of `s` into a vector, in order.
pub fn chars_of(s: &str) -> (out: Vec<char>)
    ensures
        out@ == s@,
{
    let mut out: Vec<char> = Vec::new();
    for c in it: s.chars()
        invariant
            out@ == it.seq().take(it.index() as int),
            it.seq() == s@,
    {
        out.push(c);
    }
    out
}

/// Appends `c` to `s` (`String::push`).
#[verifier::external_body]
fn push_char(s: &mut String, c: char)
    ensures
        final(s)@ == old(s)@.push(c),
{
    s.push(c);
}

/// A `String` holding exactly the characters of `chars`.
pub fn string_from(chars: &Vec<char>) -> (s: String)
    ensures
        s@ == chars@,
{
    let mut s = String::new();
    let n = chars.len();
    for i in 0..n
        invariant
            n == chars@.len(),
            s@ == chars@.take(i as int),
    {
        push_char(&mut s, chars[i]);
        assert(chars@.take(i + 1) == chars@.take(i as int).push(chars@[i as int]));
    }
    assert(chars@.take(n as int) == chars@);
    s
}

/// Whether `c` is Unicode whitespace (`char::is_whitespace`).
pub fn is_whitespace(c: char) -> (b: bool)
    ensures
        b == is_ws(c),
{
    let u = c as u32;
    (0x09 <= u && u <= 0x0d) || u == 0x20 || u == 0x85 || u == 0xa0 || u == 0x1680 || (0x2000
        <= u && u <= 0x200a) || u == 0x2028 || u == 0x2029 || u == 0x202f || u == 0x205f || u
        == 0x3000
}

/// Dropping `i` leading whitespace characters does not change `trim_start`.
pub(crate) proof fn lemma_trim_start_skip(s: Seq<char>, i: int)
    requires
        0 <= i <= s.len(),
        forall|k: int| 0 <= k < i ==> is_ws(#[trigger] s[k]),
    ensures
        trim_start(s) == trim_start(s.subrange(i, s.len() as int)),
    decreases i,
{
    if i > 0 {
        assert(is_ws(s[0]));
        let t = s.drop_first();
        assert forall|k: int| 0 <= k < i - 1 implies is_ws(#[trigger] t[k]) by {
            assert(t[k] == s[k + 1]);
        }
        lemma_trim_start_skip(t, i - 1);
        assert(t.subrange(i - 1, t.len() as int) == s.subrange(i, s.len() as int));
    } else {
        assert(s.subrange(0, s.len() as int) == s);
    }
}

/// Dropping whitespace at the end down to length `j` does not change `trim_end`.
proof fn lemma_trim_end_take(s: Seq<char>, j: int)
    requires
        0 <= j <= s.len(),
        forall|k: int| j <= k < s.len() ==> is_ws(#[trigger] s[k]),
    ensures
        trim_end(s) == trim_end(s.subrange(0, j)),
    decreases s.len() - j,
{
    if j < s.len() {
        assert(is_ws(s.last()));
        let t = s.drop_last();
        assert forall|k: int| j <= k < t.len() implies is_ws(#[trigger] t[k]) by {
            assert(t[k] == s[k]);
        }
        lemma_trim_end_take(t, j);
        assert(t.subrange(0, j) == s.subrange(0, j));
    } else {
        assert(s.subrange(0, j) == s);
    }
}

/// Bounds of the trimmed part: `trim(s) == s[start..end]`.
pub fn trim_bounds(s: &Vec<char>) -> (r: (usize, usize))
    ensures
        r.0 <= r.1 <= s@.len(),
        s@.subrange(r.0 as int, r.1 as int) == trim(s@),
{
    let n = s.len();
    let mut i: usize = 0;
    while i < n && is_whitespace(s[i])
        invariant
            i <= n == s@.len(),
            forall|k: int| 0 <= k < i ==> is_ws(#[trigger] s@[k]),
        decreases n - i,
    {
        i = i + 1;
    }
    proof {
        lemma_trim_start_skip(s@, i as int);
    }
    let ghost t = s@.subrange(i as int, n as int);
    assert(trim_start(t) == t);
    let mut j: usize = n;
    while j > i && is_whitespace(s[j - 1])
        invariant
            i <= j <= n == s@.len(),
            forall|k: int| j <= k < n ==> is_ws(#[trigger] s@[k]),
        decreases j,
    {
        j = j - 1;
    }
    proof {
        assert forall|k: int| (j - i) <= k < t.len() implies is_ws(#[trigger] t[k]) by {
            assert(t[k] == s@[k + i]);
        }
        lemma_trim_end_take(t, j - i);
        assert(t.subrange(0, j - i) == s@.subrange(i as int, j as int));
        let u = s@.subrange(i as int, j as int);
        if u.len() > 0 {
            assert(u.last() == s@[j - 1]);
        }
    }
    (i, j)
}

/// The characters of `s.trim()`.
pub fn trimmed_chars(s: &str) -> (out: Vec<char>)
    ensures
        out@ == trim(s@),
{
    let cs = chars_of(s);
    let (a, b) = trim_bounds(&cs);
    let mut out: Vec<char> = Vec::new();
    for k in a..b
        invariant
            a <= b <= cs@.len(),
            out@ == cs@.subrange(a as int, k as int),
    {
        out.push(cs[k]);
        assert(cs@.subrange(a as int, k + 1) == cs@.subrange(a as int, k as int).push(cs@[k as int]));
    }
    out
}

/// `word_count` of a prefix grows by one exactly at word starts.
proof fn lemma_word_count_step(s: Seq<char>, i: int)
    requires
        0 <= i < s.len(),
    ensures
        word_count(s.take(i + 1)) == word_count(s.take(i)) + if starts_word(s, i) {
            1nat
        } else {
            0nat
        },
{
    let t = s.take(i + 1);
    assert(t.drop_last() == s.take(i));
    assert(t[i] == s[i]);
    if i > 0 {
        assert(t[i - 1] == s[i - 1]);
    }
    assert(starts_word(t, i) == starts_word(s, i));
}

/// Words never merge across whitespace: after a text that is empty or ends
/// in whitespace, the words of what follows simply add.
proof fn lemma_word_count_after_ws(p: Seq<char>, q: Seq<char>)
    requires
        p.len() == 0 || is_ws(p.last()),
    ensures
        word_count(p + q) == word_count(p) + word_count(q),
    decreases q.len(),
{
    if q.len() == 0 {
        assert(p + q == p);
    } else {
        let r = p + q;
        lemma_word_count_after_ws(p, q.drop_last());
        assert(r.drop_last() == p + q.drop_last());
        let i = r.len() - 1;
        let j = q.len() - 1;
        assert(r[i] == q[j]);
        if j > 0 {
            assert(r[i - 1] == q[j - 1]);
        } else if p.len() > 0 {
            assert(r[i - 1] == p.last());
        }
        assert(starts_word(r, i) == starts_word(q, j));
    }
}

/// Law: words never merge across a joining space: the text `a b` has as many
/// words as `a` and `b` together.
pub proof fn lemma_word_count_join(a: Seq<char>, b: Seq<char>)
    ensures
        word_count(a + seq![' '] + b) == word_count(a) + word_count(b),
{
    let sp: Seq<char> = seq![' '];
    let a1 = a + sp;
    assert(a1.drop_last() == a);
    assert(a1.last() == ' ');
    assert(!starts_word(a1, a1.len() - 1));
    assert(word_count(a1) == word_count(a));
    lemma_word_count_after_ws(a1, b);
}

proof fn lemma_word_count_trim_start(s: Seq<char>)
    ensures
        word_count(trim_start(s)) == word_count(s),
    decreases s.len(),
{
    if s.len() > 0 && is_ws(s[0]) {
        let head: Seq<char> = seq![s[0]];
        assert(head + s.drop_first() == s);
        assert(head.last() == s[0]);
        lemma_word_count_after_ws(head, s.drop_first());
        assert(head.drop_last() == Seq::<char>::empty());
        assert(word_count(head.drop_last()) == 0);
        assert(head[0] == s[0]);
        assert(!starts_word(head, 0));
        assert(word_count(head) == 0);
        lemma_word_count_trim_start(s.drop_first());
    }
}

proof fn lemma_word_count_trim_end(s: Seq<char>)
    ensures
        word_count(trim_end(s)) == word_count(s),
    decreases s.len(),
{
    if s.len() > 0 && is_ws(s.last()) {
        lemma_word_count_trim_end(s.drop_last());
    }
}

proof fn lemma_word_count_zero(s: Seq<char>)
    ensures
        word_count(s) == 0 <==> forall|k: int| 0 <= k < s.len() ==> is_ws(#[trigger] s[k]),
    decreases s.len(),
{
    if s.len() > 0 {
        let t = s.drop_last();
        lemma_word_count_zero(t);
        if word_count(s) == 0 {
            assert forall|k: int| 0 <= k < s.len() implies is_ws(#[trigger] s[k]) by {
                if k < s.len() - 1 {
                    assert(s[k] == t[k]);
                } else if s.len() >= 2 {
                    assert(is_ws(t[s.len() - 2]));
                }
            }
        }
        if forall|k: int| 0 <= k < s.len() ==> is_ws(#[trigger] s[k]) {
            assert forall|k: int| 0 <= k < t.len() implies is_ws(#[trigger] t[k]) by {
                assert(t[k] == s[k]);
            }
            assert(is_ws(s[s.len() - 1]));
        }
    }
}

proof fn lemma_trim_start_blank(s: Seq<char>)
    ensures
        trim_start(s).len() == 0 <==> forall|k: int| 0 <= k < s.len() ==> is_ws(#[trigger] s[k]),
        trim_start(s).len() > 0 ==> !is_ws(trim_start(s)[0]),
    decreases s.len(),
{
    if s.len() > 0 && is_ws(s[0]) {
        let t = s.drop_first();
        lemma_trim_start_blank(t);
        if forall|k: int| 0 <= k < t.len() ==> is_ws(#[trigger] t[k]) {
            assert forall|k: int| 0 <= k < s.len() implies is_ws(#[trigger] s[k]) by {
                if k > 0 {
                    assert(s[k] == t[k - 1]);
                }
            }
        }
        if forall|k: int| 0 <= k < s.len() ==> is_ws(#[trigger] s[k]) {
            assert forall|k: int| 0 <= k < t.len() implies is_ws(#[trigger] t[k]) by {
                assert(t[k] == s[k + 1]);
            }
        }
    }
}

proof fn lemma_trim_end_keeps_head(s: Seq<char>)
    requires
        s.len() > 0,
        !is_ws(s[0]),
    ensures
        trim_end(s).len() > 0,
    decreases s.len(),
{
    if is_ws(s.last()) {
        assert(s.len() > 1);
        assert(s.drop_last()[0] == s[0]);
        lemma_trim_end_keeps_head(s.drop_last());
    }
}

proof fn lemma_word_count_bound(s: Seq<char>)
    ensures
        2 * word_count(s) <= s.len() + if s.len() > 0 && !is_ws(s.last()) {
            1int
        } else {
            0int
        },
    decreases s.len(),
{
    if s.len() > 0 {
        let t = s.drop_last();
        lemma_word_count_bound(t);
        if s.len() >= 2 {
            assert(s[s.len() - 2] == t.last());
        }
    }
}

/// Law: a text has no words exactly when it is blank (trims to nothing),
/// trimming never changes the number of words, and a text of `n` characters
/// holds at most `(n + 1) / 2` words.
pub proof fn lemma_word_count_shape(s: Seq<char>)
    ensures
        word_count(s) == 0 <==> trim(s).len() == 0,
        word_count(trim(s)) == word_count(s),
        word_count(s) <= (s.len() + 1) / 2,
{
    lemma_word_count_trim_start(s);
    lemma_word_count_trim_end(trim_start(s));
    lemma_word_count_zero(s);
    lemma_trim_start_blank(s);
    if trim_start(s).len() > 0 {
        lemma_trim_end_keeps_head(trim_start(s));
    }
    lemma_word_count_bound(s);
}

/// Law: whitespace is exactly Unicode `White_Space`, the 25 code points
/// `char::is_whitespace` accepts: among ASCII only tab, line feed, vertical
/// tab, form feed, carriage return and space; punctuation, letters and
/// digits never.
pub proof fn lemma_whitespace_is_white_space(c: char)
    ensures
        (c as u32) < 0x80 ==> (is_ws(c) <==> (9 <= (c as u32) <= 13 || (c as u32) == 32)),
        is_ws(c) <==> ({
            let u = c as u32;
            ||| 9 <= u <= 13
            ||| u == 32
            ||| u == 133
            ||| u == 160
            ||| u == 5760
            ||| 8192 <= u <= 8202
            ||| u == 8232
            ||| u == 8233
            ||| u == 8239
            ||| u == 8287
            ||| u == 12288
        }),
{
}

proof fn lemma_trim_start_cut(s: Seq<char>)
    ensures
        exists|i: int|
            0 <= i <= s.len() && trim_start(s) == s.subrange(i, s.len() as int) && forall|k: int|
                0 <= k < i ==> is_ws(#[trigger] s[k]),
        trim_start(s).len() > 0 ==> !is_ws(trim_start(s)[0]),
    decreases s.len(),
{
    if s.len() > 0 && is_ws(s[0]) {
        let t = s.drop_first();
        lemma_trim_start_cut(t);
        let i = choose|i: int|
            0 <= i <= t.len() && trim_start(t) == t.subrange(i, t.len() as int) && forall|k: int|
                0 <= k < i ==> is_ws(#[trigger] t[k]);
        assert(t.subrange(i, t.len() as int) == s.subrange(i + 1, s.len() as int));
        assert forall|k: int| 0 <= k < i + 1 implies is_ws(#[trigger] s[k]) by {
            if k > 0 {
                assert(s[k] == t[k - 1]);
            }
        }
    } else {
        assert(s.subrange(0, s.len() as int) == s);
    }
}

proof fn lemma_trim_end_cut(s: Seq<char>)
    ensures
        exists|j: int|
            0 <= j <= s.len() && trim_end(s) == s.subrange(0, j) && forall|k: int|
                j <= k < s.len() ==> is_ws(#[trigger] s[k]),
        trim_end(s).len() > 0 ==> !is_ws(trim_end(s).last()),
    decreases s.len(),
{
    if s.len() > 0 && is_ws(s.last()) {
        let t = s.drop_last();
        lemma_trim_end_cut(t);
        let j = choose|j: int|
            0 <= j <= t.len() && trim_end(t) == t.subrange(0, j) && forall|k: int|
                j <= k < t.len() ==> is_ws(#[trigger] t[k]);
        assert(t.subrange(0, j) == s.subrange(0, j));
        assert forall|k: int| j <= k < s.len() implies is_ws(#[trigger] s[k]) by {
            if k < s.len() - 1 {
                assert(s[k] == t[k]);
            }
        }
    } else {
        assert(s.subrange(0, s.len() as int) == s);
    }
}

/// Law: trimming cuts whitespace off the two ends and nothing else: the
/// result is a contiguous piece of the text, everything cut away is
/// whitespace, and the result neither starts nor ends with whitespace. So
/// `"Привет мир."` keeps its final full stop.
pub proof fn lemma_trim_cuts_only_whitespace(s: Seq<char>)
    ensures
        exists|i: int, j: int|
            0 <= i <= j <= s.len() && trim(s) == s.subrange(i, j) && (forall|k: int|
                0 <= k < i ==> is_ws(#[trigger] s[k])) && (forall|k: int|
                j <= k < s.len() ==> is_ws(#[trigger] s[k])),
        trim(s).len() > 0 ==> !is_ws(trim(s)[0]) && !is_ws(trim(s).last()),
{
    lemma_trim_start_cut(s);
    let i = choose|i: int|
        0 <= i <= s.len() && trim_start(s) == s.subrange(i, s.len() as int) && forall|k: int|
            0 <= k < i ==> is_ws(#[trigger] s[k]);
    let t = trim_start(s);
    lemma_trim_end_cut(t);
    let j = choose|j: int|
        0 <= j <= t.len() && trim_end(t) == t.subrange(0, j) && forall|k: int|
            j <= k < t.len() ==> is_ws(#[trigger] t[k]);
    assert(trim(s) == s.subrange(i, i + j));
    assert forall|k: int| i + j <= k < s.len() implies is_ws(#[trigger] s[k]) by {
        assert(s[k] == t[k - i]);
    }
    if trim(s).len() > 0 {
        assert(trim(s)[0] == t[0]);
    }
}

/// Law: words are the maximal runs of non-whitespace characters: the count
/// is the number of positions that start one (a non-whitespace character
/// that is first or follows whitespace).
pub proof fn lemma_words_are_runs(s: Seq<char>)
    ensures
        word_count(s) == Set::new(|k: int| starts_word(s, k)).len(),
        Set::new(|k: int| starts_word(s, k)).finite(),
    decreases s.len(),
{
    let w = Set::new(|k: int| starts_word(s, k));
    if s.len() == 0 {
        assert(w =~= Set::<int>::empty());
    } else {
        let t = s.drop_last();
        lemma_words_are_runs(t);
        let v = Set::new(|k: int| starts_word(t, k));
        let n = s.len() - 1;
        assert forall|k: int| 0 <= k < n implies starts_word(s, k) == starts_word(t, k) by {
            assert(s[k] == t[k]);
            if k > 0 {
                assert(s[k - 1] == t[k - 1]);
            }
        }
        if starts_word(s, n) {
            assert(w =~= v.insert(n));
            assert(!v.contains(n));
        } else {
            assert(w =~= v);
        }
    }
}

/// The number of words in `s`, as `split_whitespace().count()` counts them.
pub fn count_words_in(s: &Vec<char>) -> (n: usize)
    ensures
        n == word_count(s@),
        n <= s@.len(),
{
    let len = s.len();
    let mut n: usize = 0;
    let mut i: usize = 0;
    while i < len
        invariant
            i <= len == s@.len(),
            n == word_count(s@.take(i as int)),
            n <= i,
        decreases len - i,
    {
        proof {
            lemma_word_count_step(s@, i as int);
        }
        if !is_whitespace(s[i]) && (i == 0 || is_whitespace(s[i - 1])) {
            n = n + 1;
        }
        i = i + 1;
    }
    assert(s@.take(len as int) == s@);
    n
}

/// Whether `p` occurs in `s` at position `i`.
fn matches_at(s: &Vec<char>, p: &Vec<char>, i: usize) -> (b: bool)
    requires
        i + p@.len() <= s@.len(),
    ensures
        b == (s@.subrange(i as int, i + p@.len()) == p@),
{
    let m = p.len();
    let sl = s.len();
    let mut j: usize = 0;
    while j < m
        invariant
            j <= m == p@.len(),
            sl == s@.len(),
            i + m <= sl,
            forall|k: int| 0 <= k < j ==> s@[i + k] == p@[k],
        decreases m - j,
    {
        if s[i + j] != p[j] {
            assert(s@.subrange(i as int, i + m)[j as int] != p@[j as int]);
            return false;
        }
        j = j + 1;
    }
    assert(s@.subrange(i as int, i + m) == p@);
    true
}

/// Whether `p` occurs in `s` as a contiguous run of characters.
pub fn contains(s: &Vec<char>, p: &Vec<char>) -> (b: bool)
    ensures
        b == has_substring(s@, p@),
{
    let n = s.len();
    let m = p.len();
    if m > n {
        return false;
    }
    let mut i: usize = 0;
    while i <= n - m
        invariant
            m <= n,
            n == s@.len(),
            m == p@.len(),
            forall|k: int| 0 <= k < i ==> #[trigger] s@.subrange(k, k + m) != p@,
        decreases n - m + 1 - i,
    {
        if matches_at(s, p, i) {
            return true;
        }
        if i == n - m {
            return false;
        }
        i = i + 1;
    }
    false
}

/// Whether two character sequences are equal.
pub fn chars_eq(a: &Vec<char>, b: &Vec<char>) -> (r: bool)
    ensures
        r == (a@ == b@),
{
    if a.len() != b.len() {
        return false;
    }
    let n = a.len();
    let mut i: usize = 0;
    while i < n
        invariant
            i <= n == a@.len() == b@.len(),
            forall|k: int| 0 <= k < i ==> a@[k] == b@[k],
        decreases n - i,
    {
        if a[i] != b[i] {
            return false;
        }
        i = i + 1;
    }
    assert(a@ == b@);
    true
}

/// Decimal digits of `n`, most significant first.
pub fn decimal_digits(n: u64) -> (out: Vec<char>)
    ensures
        out@ == decimal(n as nat),
    decreases n,
{
    let d = (n % 10) as u8;
    let c = (48u8 + d) as char;
    if n < 10 {
        let mut v: Vec<char> = Vec::new();
        v.push(c);
        v
    } else {
        let mut v = decimal_digits(n / 10);
        v.push(c);
        v
    }
}

} // verus!
