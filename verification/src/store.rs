//! The history store's own logic: what a row holds, how a search becomes a
//! LIKE pattern, how day rows become streaks and a padded chart series.
//! Running the SQL against the database is the application's part.

use vstd::prelude::*;
use crate::cli::join;
use crate::text::{
    chars_of, count_words_in, decimal, has_substring, string_from, trim, trimmed_chars,
    word_count,
};

verus! {

/// One stored transcription.
#[derive(Debug, Clone)]
pub struct Entry {
    pub id: i64,
    /// Unix seconds.
    pub ts: i64,
    pub text: String,
    pub lang: String,
    pub duration_ms: i64,
    pub words: i64,
    pub chars: i64,
}

/// The column values of a row about to be inserted.
#[derive(Debug, Clone)]
pub struct NewEntry {
    pub ts: i64,
    pub text: String,
    pub lang: String,
    pub duration_ms: i64,
    pub words: i64,
    pub chars: i64,
}

/// The number of whitespace-separated words in `text`.
pub fn count_words(text: &str) -> (n: i64)
    ensures
        n == word_count(text@) as i64,
        text@.len() <= i64::MAX ==> n as int == word_count(text@),
{
    let cs = chars_of(text);
    let k = count_words_in(&cs);
    k as i64
}

/// The row for a transcription of `text`, or `None` when it is blank:
/// empty transcriptions are dropped rather than stored. The text is stored
/// trimmed, with its word and character counts.
pub fn new_entry(ts: i64, text: &str, lang: &str, duration_ms: i64) -> (r: Option<NewEntry>)
    ensures
        r is None <==> trim(text@).len() == 0,
        r matches Some(e) ==> {
            &&& e.ts == ts
            &&& e.text@ == trim(text@)
            &&& e.lang@ == lang@
            &&& e.duration_ms == duration_ms
            &&& e.words == word_count(trim(text@)) as i64
            &&& e.chars == trim(text@).len() as i64
        },
{
    let t = trimmed_chars(text);
    if t.len() == 0 {
        return None;
    }
    let words = count_words_in(&t) as i64;
    let chars = t.len() as i64;
    Some(NewEntry {
        ts,
        text: string_from(&t),
        lang: String::from_str(lang),
        duration_ms,
        words,
        chars,
    })
}

/// Characters that LIKE treats specially and that must be escaped.
pub open spec fn is_like_special(c: char) -> bool {
    c == '%' || c == '_' || c == '\\'
}

/// One character of a search query as it appears in a LIKE pattern.
pub open spec fn escape_char(c: char) -> Seq<char> {
    if is_like_special(c) {
        seq!['\\', c]
    } else {
        seq![c]
    }
}

/// A search query with every LIKE metacharacter escaped by a backslash.
pub open spec fn escape_like(q: Seq<char>) -> Seq<char>
    decreases q.len(),
{
    if q.len() == 0 {
        seq![]
    } else {
        escape_char(q[0]) + escape_like(q.drop_first())
    }
}

/// The LIKE pattern matching texts that contain `q` literally.
pub open spec fn like_pattern_of(q: Seq<char>) -> Seq<char> {
    seq!['%'] + escape_like(q) + seq!['%']
}

/// What a LIKE pattern (with `ESCAPE '\'`) is made of.
pub enum LikeToken {
    /// Matches the character with this code point.
    Lit(u32),
    /// `_`: matches any one character.
    One,
    /// `%`: matches any run of characters.
    Many,
}

/// Reads a LIKE pattern with `\` as its escape character into tokens.
pub open spec fn like_tokens(p: Seq<char>) -> Seq<LikeToken>
    decreases p.len(),
{
    if p.len() == 0 {
        seq![]
    } else {
        let c = p[0];
        if c == '\\' && p.len() >= 2 {
            let e = p[1];
            seq![LikeToken::Lit(e as u32)] + like_tokens(p.subrange(2, p.len() as int))
        } else if c == '%' {
            seq![LikeToken::Many] + like_tokens(p.drop_first())
        } else if c == '_' {
            seq![LikeToken::One] + like_tokens(p.drop_first())
        } else {
            seq![LikeToken::Lit(c as u32)] + like_tokens(p.drop_first())
        }
    }
}

/// Every character of `q` read back as a literal (by code point).
pub open spec fn literals(q: Seq<char>) -> Seq<LikeToken>
    decreases q.len(),
{
    if q.len() == 0 {
        seq![]
    } else {
        let c = q[0];
        seq![LikeToken::Lit(c as u32)] + literals(q.drop_first())
    }
}

proof fn lemma_escape_append(a: Seq<char>, b: Seq<char>)
    ensures
        escape_like(a + b) == escape_like(a) + escape_like(b),
    decreases a.len(),
{
    if a.len() == 0 {
        assert(a + b == b);
    } else {
        assert((a + b).drop_first() == a.drop_first() + b);
        lemma_escape_append(a.drop_first(), b);
        assert((a + b)[0] == a[0]);
    }
}

proof fn lemma_escape_tokens(q: Seq<char>, t: Seq<char>)
    ensures
        like_tokens(escape_like(q) + t) == literals(q) + like_tokens(t),
    decreases q.len(),
{
    if q.len() == 0 {
        assert(escape_like(q) + t =~= t);
        assert(literals(q) + like_tokens(t) =~= like_tokens(t));
    } else {
        let c = q[0];
        let rest = escape_like(q.drop_first()) + t;
        let p = escape_like(q) + t;
        assert(p == escape_char(c) + rest);
        lemma_escape_tokens(q.drop_first(), t);
        if is_like_special(c) {
            assert(p.len() == rest.len() + 2);
            assert(p[0] == '\\' && p[1] == c);
            assert(p.subrange(2, p.len() as int) == rest);
        } else {
            assert(p.len() == rest.len() + 1);
            assert(p[0] == c);
            assert(p.drop_first() == rest);
        }
        assert(like_tokens(p) == seq![LikeToken::Lit(c as u32)] + like_tokens(rest));
        assert(like_tokens(p) =~= literals(q) + like_tokens(t));
    }
}

/// Law: `%` and `_` typed into the search box are literal characters, not
/// wildcards. Read as a LIKE pattern, the pattern built for any query is a
/// wildcard run, then every character of the query as a literal, then a
/// wildcard run: it matches exactly the texts that contain the query.
pub proof fn lemma_query_is_literal(q: Seq<char>)
    ensures
        like_tokens(like_pattern_of(q)) == seq![LikeToken::Many] + literals(q) + seq![
            LikeToken::Many,
        ],
{
    let p = like_pattern_of(q);
    assert(p.drop_first() == escape_like(q) + seq!['%']);
    lemma_escape_tokens(q, seq!['%']);
    let s1: Seq<char> = seq!['%'];
    assert(s1.drop_first() == Seq::<char>::empty());
    assert(like_tokens(Seq::<char>::empty()) == Seq::<LikeToken>::empty());
    assert(like_tokens(s1) == seq![LikeToken::Many]);
}

/// Law: the pattern is the query between two `%` wildcards, with a
/// backslash (the statement's `ESCAPE` character) put before each `%`, `_`
/// and backslash of the query and every other character kept as it is.
pub proof fn lemma_escaping_is_backslash(q: Seq<char>, c: char)
    ensures
        escape_char(c) == if c == '%' || c == '_' || c == '\\' {
            seq!['\\', c]
        } else {
            seq![c]
        },
        like_pattern_of(q)[0] == '%',
        like_pattern_of(q).last() == '%',
        like_pattern_of(q).len() >= q.len() + 2,
{
    lemma_escape_len(q);
}

proof fn lemma_escape_len(q: Seq<char>)
    ensures
        escape_like(q).len() >= q.len(),
    decreases q.len(),
{
    if q.len() > 0 {
        lemma_escape_len(q.drop_first());
    }
}

/// The LIKE pattern for a search query (with `ESCAPE '\'`): `%`, `_` and `\`
/// typed into the search box are literal characters, not wildcards.
pub fn like_pattern(query: &str) -> (out: String)
    ensures
        out@ == like_pattern_of(query@),
{
    let q = chars_of(query);
    let mut out: Vec<char> = Vec::new();
    out.push('%');
    let n = q.len();
    for i in 0..n
        invariant
            n == q@.len(),
            out@ == seq!['%'] + escape_like(q@.take(i as int)),
    {
        let c = q[i];
        if c == '%' || c == '_' || c == '\\' {
            out.push('\\');
        }
        out.push(c);
        proof {
            let a = q@.take(i as int);
            assert(q@.take(i + 1) == a + seq![c]);
            lemma_escape_append(a, seq![c]);
            let one: Seq<char> = seq![c];
            assert(one.drop_first() == Seq::<char>::empty());
            assert(escape_like(one) == escape_char(c) + escape_like(Seq::<char>::empty()));
            assert(escape_like(one) == escape_char(c));
        }
    }
    out.push('%');
    assert(q@.take(n as int) == q@);
    string_from(&out)
}

/// Parameters of the history search: the trimmed query, its LIKE pattern
/// and the row limit as SQL receives it.
pub struct ListQuery {
    pub text: String,
    pub like: String,
    pub limit: i64,
}

/// The parameters `list` hands to the search statement.
pub fn list_query(query: &str, limit: usize) -> (r: ListQuery)
    ensures
        r.text@ == trim(query@),
        r.like@ == like_pattern_of(trim(query@)),
        r.limit == limit as i64,
{
    let t = trimmed_chars(query);
    let text = string_from(&t);
    let like = like_pattern(text.as_str());
    ListQuery { text, like, limit: limit as i64 }
}

/// Day number (days since 0001-01-01 counted as 1) of the first date the
/// calendar can hold.
pub const FIRST_DAY: i32 = -95746129;

/// Day number of the last date the calendar can hold.
pub const LAST_DAY: i32 = 95745399;

/// The date format of the day rows the database returns.
pub open spec fn day_format() -> Seq<char> {
    seq!['%', 'Y', '-', '%', 'm', '-', '%', 'd']
}

/// Day number of the date that `s` spells in format `fmt`, if it spells one.
pub uninterp spec fn parsed_date(s: Seq<char>, fmt: Seq<char>) -> Option<i32>;

/// `chrono::NaiveDate::parse_from_str(s, fmt)`, read as the parsed date's
/// day number (`num_days_from_ce`). Claims only that the result is a function
/// of the two strings, named `parsed_date`.
#[verifier::external_body]
fn parse_date(s: &str, fmt: &str) -> (r: Option<i32>)
    ensures
        r == parsed_date(s@, fmt@),
{
    match chrono::NaiveDate::parse_from_str(s, fmt) {
        Ok(d) => Some(chrono::Datelike::num_days_from_ce(&d)),
        Err(_) => None,
    }
}

/// The day number a `YYYY-MM-DD` row spells, if any.
pub open spec fn row_day(s: Seq<char>) -> Option<i32> {
    parsed_date(s, day_format())
}

/// The days that the rows `raw` spell, in order, skipping rows that do not
/// parse.
pub open spec fn parsed_days(raw: Seq<String>) -> Seq<i32>
    decreases raw.len(),
{
    if raw.len() == 0 {
        seq![]
    } else {
        parsed_days(raw.drop_last()) + match row_day(raw.last()@) {
            Some(d) => seq![d],
            None => seq![],
        }
    }
}

fn day_format_str() -> (s: String)
    ensures
        s@ == day_format(),
{
    let mut v: Vec<char> = Vec::new();
    v.push('%');
    v.push('Y');
    v.push('-');
    v.push('%');
    v.push('m');
    v.push('-');
    v.push('%');
    v.push('d');
    assert(v@ == day_format());
    string_from(&v)
}

/// Parses the active-day rows, dropping those that are not dates.
pub fn parse_days(raw: &Vec<String>) -> (out: Vec<i32>)
    ensures
        out@ == parsed_days(raw@),
{
    let fmt = day_format_str();
    let mut out: Vec<i32> = Vec::new();
    let n = raw.len();
    for i in 0..n
        invariant
            n == raw@.len(),
            fmt@ == day_format(),
            out@ == parsed_days(raw@.take(i as int)),
    {
        proof {
            let t = raw@.take(i + 1);
            assert(t.drop_last() == raw@.take(i as int));
            assert(t.last() == raw@[i as int]);
        }
        match parse_date(raw[i].as_str(), fmt.as_str()) {
            Some(d) => out.push(d),
            None => {},
        }
    }
    assert(raw@.take(n as int) == raw@);
    out
}

/// Length of the run of consecutive days that ends at index `i`.
pub open spec fn run_len(days: Seq<i32>, i: int) -> nat
    decreases i,
{
    if i <= 0 {
        1
    } else if days[i] - days[i - 1] == 1 {
        run_len(days, i - 1) + 1
    } else {
        1
    }
}

/// The longest run of consecutive days among the first `k` days.
pub open spec fn best_run(days: Seq<i32>, k: int) -> nat
    decreases k,
{
    if k <= 0 {
        0
    } else {
        let b = best_run(days, k - 1);
        let r = run_len(days, k - 1);
        if r > b {
            r
        } else {
            b
        }
    }
}

/// The current streak: the run ending at the last active day, provided that
/// day is today or yesterday (a gap of exactly one day still counts if
/// nothing was dictated yet today); otherwise 0.
pub open spec fn current_streak(days: Seq<i32>, today: i32) -> nat {
    if days.len() == 0 {
        0
    } else if today - days.last() > 1 {
        0
    } else {
        run_len(days, days.len() - 1)
    }
}

/// The longest streak on record.
pub open spec fn best_streak(days: Seq<i32>) -> nat {
    best_run(days, days.len() as int)
}

proof fn lemma_run_len_bound(days: Seq<i32>, i: int)
    requires
        0 <= i,
    ensures
        1 <= run_len(days, i) <= i + 1,
    decreases i,
{
    if i > 0 {
        lemma_run_len_bound(days, i - 1);
    }
}

proof fn lemma_best_run_bounds(days: Seq<i32>, k: int)
    requires
        0 <= k,
    ensures
        best_run(days, k) <= k,
        k > 0 ==> best_run(days, k) >= 1,
        forall|i: int| 0 <= i < k ==> run_len(days, i) <= best_run(days, k),
    decreases k,
{
    if k > 0 {
        lemma_best_run_bounds(days, k - 1);
        lemma_run_len_bound(days, k - 1);
    }
}

/// Law: the current streak never exceeds the best streak, the best streak is
/// at least 1 exactly when some day is active and at most the number of
/// active days, and the current streak is positive exactly when the last
/// active day is today, yesterday or later.
pub proof fn lemma_streak_bounds(days: Seq<i32>, today: i32)
    ensures
        current_streak(days, today) <= best_streak(days) <= days.len(),
        best_streak(days) >= 1 <==> days.len() > 0,
        current_streak(days, today) > 0 <==> (days.len() > 0 && today - days.last() <= 1),
{
    lemma_best_run_bounds(days, days.len() as int);
    if days.len() > 0 {
        lemma_run_len_bound(days, days.len() - 1);
    }
}

/// Law: a run is a maximal stretch of consecutive calendar days. The
/// `run_len(days, i)` days ending at index `i` each follow the one before by
/// exactly one day, and the day before the run (if any) does not: a gap of
/// even one missing day ends a run.
pub proof fn lemma_run_is_consecutive_days(days: Seq<i32>, i: int)
    requires
        0 <= i < days.len(),
    ensures
        1 <= run_len(days, i) <= i + 1,
        forall|j: int| i - run_len(days, i) + 1 <= j < i ==> #[trigger] days[j + 1] == days[j] + 1,
        run_len(days, i) <= i ==> days[i - run_len(days, i) + 1] - days[i - run_len(days, i)] != 1,
        i > 0 && days[i] - days[i - 1] != 1 ==> run_len(days, i) == 1,
    decreases i,
{
    if i > 0 {
        lemma_run_is_consecutive_days(days, i - 1);
    }
}

/// Law: the best streak is the longest run of consecutive days ending
/// anywhere, and the current streak is the run that ends at the last active
/// day when that day is today or yesterday, and 0 when it is earlier.
pub proof fn lemma_streaks_are_runs(days: Seq<i32>, today: i32)
    ensures
        forall|i: int| 0 <= i < days.len() ==> run_len(days, i) <= #[trigger] best_streak(days),
        days.len() > 0 ==> exists|i: int| 0 <= i < days.len() && run_len(days, i) == best_streak(days),
        days.len() == 0 ==> best_streak(days) == 0,
        days.len() > 0 && today - days[days.len() - 1] <= 1 ==> current_streak(days, today) == run_len(
            days,
            days.len() - 1,
        ),
        days.len() == 0 || today - days[days.len() - 1] > 1 ==> current_streak(days, today) == 0,
{
    lemma_best_run_attained(days, days.len() as int);
    assert forall|i: int| 0 <= i < days.len() implies run_len(days, i) <= #[trigger] best_streak(days) by {
        lemma_best_run_bounds(days, days.len() as int);
    }
}

proof fn lemma_best_run_attained(days: Seq<i32>, k: int)
    requires
        0 <= k,
    ensures
        k > 0 ==> exists|i: int| 0 <= i < k && run_len(days, i) == best_run(days, k),
    decreases k,
{
    if k > 1 {
        lemma_best_run_attained(days, k - 1);
        lemma_best_run_bounds(days, k - 1);
        if run_len(days, k - 1) <= best_run(days, k - 1) {
            let i = choose|i: int| 0 <= i < k - 1 && run_len(days, i) == best_run(days, k - 1);
            assert(run_len(days, i) == best_run(days, k));
        } else {
            assert(run_len(days, k - 1) == best_run(days, k));
        }
    } else if k == 1 {
        assert(best_run(days, 0) == 0);
        assert(run_len(days, 0) == 1);
        assert(run_len(days, 0) == best_run(days, 1));
    }
}

/// Current and best streak of consecutive active days, counted back from
/// `today`.
pub fn streaks(days: &Vec<i32>, today: i32) -> (r: (i64, i64))
    requires
        days@.len() <= i64::MAX,
    ensures
        r.0 == current_streak(days@, today),
        r.1 == best_streak(days@),
{
    let n = days.len();
    if n == 0 {
        return (0, 0);
    }
    let mut best: i64 = 1;
    let mut run: i64 = 1;
    let mut i: usize = 1;
    assert(best_run(days@, 0) == 0);
    assert(best_run(days@, 1) == 1);
    while i < n
        invariant
            1 <= i <= n == days@.len(),
            n <= i64::MAX,
            1 <= run <= i,
            run == run_len(days@, i - 1),
            best == best_run(days@, i as int),
            best <= i,
        decreases n - i,
    {
        proof {
            lemma_run_len_bound(days@, i - 1);
        }
        if days[i] as i64 - days[i - 1] as i64 == 1 {
            run = run + 1;
            if run > best {
                best = run;
            }
        } else {
            run = 1;
        }
        i = i + 1;
    }
    let last = days[n - 1];
    let gap = today as i64 - last as i64;
    let current = if gap > 1 {
        0
    } else {
        let mut k: usize = n - 1;
        let mut c: i64 = 1;
        while k > 0 && days[k] as i64 - days[k - 1] as i64 == 1
            invariant
                k < n == days@.len(),
                n <= i64::MAX,
                c + k == n,
                run_len(days@, n - 1) == run_len(days@, k as int) + c - 1,
            decreases k,
        {
            c = c + 1;
            k = k - 1;
        }
        c
    };
    (current, best)
}

/// Words dictated on day `d` according to `rows` (the last row for that day
/// wins), or 0 when no row names it.
pub open spec fn words_on(rows: Seq<(i32, i64)>, d: i32) -> i64
    decreases rows.len(),
{
    if rows.len() == 0 {
        0
    } else if rows.last().0 == d {
        rows.last().1
    } else {
        words_on(rows.drop_last(), d)
    }
}

/// The day rows that parse, with their word totals, in order.
pub open spec fn parsed_rows(raw: Seq<(String, i64)>) -> Seq<(i32, i64)>
    decreases raw.len(),
{
    if raw.len() == 0 {
        seq![]
    } else {
        parsed_rows(raw.drop_last()) + match row_day(raw.last().0@) {
            Some(d) => seq![(d, raw.last().1)],
            None => seq![],
        }
    }
}

/// The first day of a chart window of `days` days ending today.
pub open spec fn window_start(today: i32, days: i64) -> int {
    today - (days - 1)
}

/// Law: the words shown for a day come from the last row for that day, and
/// a day with no row shows 0.
pub proof fn lemma_words_from_the_last_row(rows: Seq<(i32, i64)>, d: i32)
    ensures
        (forall|i: int| 0 <= i < rows.len() ==> #[trigger] rows[i].0 != d) ==> words_on(rows, d) == 0,
        (exists|i: int| 0 <= i < rows.len() && #[trigger] rows[i].0 == d) ==> exists|i: int|
            0 <= i < rows.len() && rows[i] == (d, words_on(rows, d)) && forall|j: int|
                i < j < rows.len() ==> #[trigger] rows[j].0 != d,
    decreases rows.len(),
{
    if rows.len() > 0 {
        let t = rows.drop_last();
        lemma_words_from_the_last_row(t, d);
        let n = rows.len() - 1;
        if rows.last().0 != d {
            if forall|i: int| 0 <= i < rows.len() ==> #[trigger] rows[i].0 != d {
                assert forall|i: int| 0 <= i < t.len() implies #[trigger] t[i].0 != d by {
                    assert(t[i] == rows[i]);
                }
            }
            if exists|i: int| 0 <= i < rows.len() && #[trigger] rows[i].0 == d {
                let k = choose|i: int| 0 <= i < rows.len() && #[trigger] rows[i].0 == d;
                assert(t[k] == rows[k]);
                let i = choose|i: int|
                    0 <= i < t.len() && t[i] == (d, words_on(t, d)) && forall|j: int|
                        i < j < t.len() ==> #[trigger] t[j].0 != d;
                assert(rows[i] == t[i]);
                assert forall|j: int| i < j < rows.len() implies #[trigger] rows[j].0 != d by {
                    if j < n {
                        assert(rows[j] == t[j]);
                    }
                }
            }
        } else {
            assert(rows[n] == rows.last());
        }
    }
}

/// Law: the chart window of `days` days ends today: its first day lies
/// `days - 1` days before `today`.
pub proof fn lemma_window_ends_today(today: i32, days: i64)
    ensures
        window_start(today, days) + days - 1 == today,
{
}

/// Law: the database's day rows are read as `YYYY-MM-DD`.
pub proof fn lemma_day_format_is_iso()
    ensures
        day_format() == "%Y-%m-%d"@,
{
    reveal_strlit("%Y-%m-%d");
}

/// The first day of the chart window of `days` days that ends at `today`.
pub fn first_day(today: i32, days: i64) -> (d: i32)
    requires
        FIRST_DAY <= window_start(today, days) <= LAST_DAY,
    ensures
        d == window_start(today, days),
{
    (today as i64 - (days - 1)) as i32
}

/// Whether the chart window of `days` days ending at `today` starts at a
/// date the calendar can hold.
pub fn window_start_in_range(today: i32, days: i64) -> (b: bool)
    ensures
        b == (FIRST_DAY <= window_start(today, days) <= LAST_DAY),
{
    let start: i128 = today as i128 - (days as i128 - 1);
    FIRST_DAY as i128 <= start && start <= LAST_DAY as i128
}

fn find_words(rows: &Vec<(i32, i64)>, d: i32) -> (w: i64)
    ensures
        w == words_on(rows@, d),
{
    let mut k = rows.len();
    assert(rows@.take(k as int) == rows@);
    while k > 0
        invariant
            k <= rows@.len(),
            words_on(rows@, d) == words_on(rows@.take(k as int), d),
        decreases k,
    {
        let t = Ghost(rows@.take(k as int));
        assert(t@.last() == rows@[k - 1]);
        assert(t@.drop_last() == rows@.take(k - 1));
        if rows[k - 1].0 == d {
            return rows[k - 1].1;
        }
        k = k - 1;
    }
    assert(rows@.take(0) == Seq::<(i32, i64)>::empty());
    0
}

/// The day rows that parse, with their word totals, in order.
pub fn parse_rows(raw: &Vec<(String, i64)>) -> (rows: Vec<(i32, i64)>)
    ensures
        rows@ == parsed_rows(raw@),
{
    let fmt = day_format_str();
    let mut rows: Vec<(i32, i64)> = Vec::new();
    let n = raw.len();
    for i in 0..n
        invariant
            n == raw@.len(),
            fmt@ == day_format(),
            rows@ == parsed_rows(raw@.take(i as int)),
    {
        proof {
            let t = raw@.take(i + 1);
            assert(t.drop_last() == raw@.take(i as int));
            assert(t.last() == raw@[i as int]);
        }
        match parse_date(raw[i].0.as_str(), fmt.as_str()) {
            Some(d) => rows.push((d, raw[i].1)),
            None => {},
        }
    }
    assert(raw@.take(n as int) == raw@);
    rows
}

/// Word totals per day for the `days` days ending at `today`, oldest first,
/// taken from the (day, words) `rows` (the last row for a day wins), with 0
/// for days that have no row.
pub fn pad_series(today: i32, days: i64, rows: &Vec<(i32, i64)>) -> (out: Vec<(i32, i64)>)
    requires
        FIRST_DAY <= today <= LAST_DAY,
        FIRST_DAY <= window_start(today, days) <= LAST_DAY,
    ensures
        out@.len() == if days > 0 { days as int } else { 0 },
        forall|i: int|
            0 <= i < out@.len() ==> #[trigger] out@[i] == (
                (window_start(today, days) + i) as i32,
                words_on(rows@, (window_start(today, days) + i) as i32),
            ),
{
    let first = first_day(today, days);
    let mut out: Vec<(i32, i64)> = Vec::new();
    let mut i: i64 = 0;
    while i < days
        invariant
            0 <= i,
            days > 0 ==> i <= days,
            days <= 0 ==> i == 0,
            first == window_start(today, days),
            FIRST_DAY <= today <= LAST_DAY,
            out@.len() == i,
            forall|k: int|
                0 <= k < i ==> #[trigger] out@[k] == (
                    (first + k) as i32,
                    words_on(rows@, (first + k) as i32),
                ),
        decreases days - i,
    {
        let d = (first as i64 + i) as i32;
        let w = find_words(rows, d);
        out.push((d, w));
        i = i + 1;
    }
    out
}

/// Word totals per day for the `days` days ending at `today`, oldest first,
/// from the database's (date, words) rows, with 0 for days that have no row.
pub fn daily_series(today: i32, days: i64, raw: &Vec<(String, i64)>) -> (out: Vec<(i32, i64)>)
    requires
        FIRST_DAY <= today <= LAST_DAY,
        FIRST_DAY <= window_start(today, days) <= LAST_DAY,
    ensures
        out@.len() == if days > 0 { days as int } else { 0 },
        forall|i: int|
            0 <= i < out@.len() ==> #[trigger] out@[i] == (
                (window_start(today, days) + i) as i32,
                words_on(parsed_rows(raw@), (window_start(today, days) + i) as i32),
            ),
{
    let rows = parse_rows(raw);
    pad_series(today, days, &rows)
}

proof fn lemma_parsed_days_len(raw: Seq<String>)
    ensures
        parsed_days(raw).len() <= raw.len(),
    decreases raw.len(),
{
    if raw.len() > 0 {
        lemma_parsed_days_len(raw.drop_last());
    }
}

/// Totals over every stored transcription.
pub struct Totals {
    pub count: i64,
    pub words: i64,
    pub duration_ms: i64,
    pub longest_words: i64,
}

/// Sessions and words of one day.
pub struct DayTotals {
    pub sessions: i64,
    pub words: i64,
}

/// Figures for the statistics page. Speaking time is kept in milliseconds,
/// as the store holds it.
#[derive(Debug, Clone)]
pub struct Stats {
    pub total: i64,
    pub total_words: i64,
    pub words_today: i64,
    pub sessions_today: i64,
    pub speaking_ms: i64,
    pub streak: i64,
    pub best_streak: i64,
    pub peak_hour: Option<i64>,
    pub longest_words: i64,
    pub most_words_day: i64,
    pub most_sessions_day: i64,
}

/// Assembles the statistics from what the queries returned: overall totals,
/// today's totals, the single best day (word count and session count of the
/// same day; zeros when there is none), the busiest hour, and the active
/// days, which give the streaks counted back from `today`.
pub fn stats_from(
    totals: &Totals,
    today_totals: &DayTotals,
    best_day: Option<DayTotals>,
    peak_hour: Option<i64>,
    active_days: &Vec<String>,
    today: i32,
) -> (s: Stats)
    requires
        active_days@.len() <= i64::MAX,
    ensures
        s.total == totals.count,
        s.total_words == totals.words,
        s.speaking_ms == totals.duration_ms,
        s.longest_words == totals.longest_words,
        s.sessions_today == today_totals.sessions,
        s.words_today == today_totals.words,
        best_day matches Some(b) ==> s.most_words_day == b.words && s.most_sessions_day
            == b.sessions,
        best_day is None ==> s.most_words_day == 0 && s.most_sessions_day == 0,
        s.peak_hour == peak_hour,
        s.streak == current_streak(parsed_days(active_days@), today),
        s.best_streak == best_streak(parsed_days(active_days@)),
{
    let days = parse_days(active_days);
    proof {
        lemma_parsed_days_len(active_days@);
    }
    let (streak, best) = streaks(&days, today);
    let (mw, ms) = match best_day {
        Some(b) => (b.words, b.sessions),
        None => (0, 0),
    };
    Stats {
        total: totals.count,
        total_words: totals.words,
        words_today: today_totals.words,
        sessions_today: today_totals.sessions,
        speaking_ms: totals.duration_ms,
        streak,
        best_streak: best,
        peak_hour,
        longest_words: totals.longest_words,
        most_words_day: mw,
        most_sessions_day: ms,
    }
}

/// The history database: `configured` (the `VOICEFLOW_DB` setting) when
/// given, else `history.sqlite3` in the data directory.
pub fn db_path(configured: Option<&str>, data_dir: &str) -> (r: String)
    ensures
        configured matches Some(c) ==> r@ == c@,
        configured is None ==> r@ == data_dir@ + "/history.sqlite3"@,
{
    match configured {
        Some(c) => String::from_str(c),
        None => join(data_dir, "/history.sqlite3"),
    }
}

} // verus!
