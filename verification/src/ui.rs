//! What the history window shows, as text and figures: grouped numbers,
//! durations, day headings, the chart's summary, and which page is open.

use vstd::prelude::*;
use crate::text::{chars_of, chars_eq, decimal, decimal_digits, digits_value, lemma_decimal_reads_back, string_from};

verus! {

/// The narrow no-break space that separates groups of three digits.
pub open spec fn group_sep() -> char {
    '\u{202f}'
}

/// Digits with a narrow no-break space before every group of three,
/// counted from the right.
pub open spec fn grouped(ds: Seq<char>) -> Seq<char>
    decreases ds.len(),
{
    if ds.len() <= 3 {
        ds
    } else {
        grouped(ds.subrange(0, ds.len() - 3)) + seq![group_sep()] + ds.subrange(
            ds.len() - 3,
            ds.len() as int,
        )
    }
}

/// The magnitude of `n`.
pub open spec fn magnitude(n: int) -> nat {
    if n < 0 {
        (-n) as nat
    } else {
        n as nat
    }
}

/// `n` written with grouped thousands, `-` in front when negative.
pub open spec fn group_text(n: int) -> Seq<char> {
    (if n < 0 {
        seq!['-']
    } else {
        seq![]
    }) + grouped(decimal(magnitude(n)))
}

/// `s` with the group separators taken out.
pub open spec fn without_seps(s: Seq<char>) -> Seq<char>
    decreases s.len(),
{
    if s.len() == 0 {
        seq![]
    } else {
        without_seps(s.drop_last()) + if s.last() == group_sep() {
            Seq::<char>::empty()
        } else {
            seq![s.last()]
        }
    }
}

proof fn lemma_without_seps_add(a: Seq<char>, b: Seq<char>)
    ensures
        without_seps(a + b) == without_seps(a) + without_seps(b),
    decreases b.len(),
{
    if b.len() == 0 {
        assert(a + b == a);
        assert(without_seps(a) + without_seps(b) == without_seps(a));
    } else {
        lemma_without_seps_add(a, b.drop_last());
        assert((a + b).drop_last() == a + b.drop_last());
        assert((a + b).last() == b.last());
    }
}

proof fn lemma_without_seps_plain(s: Seq<char>)
    requires
        forall|k: int| 0 <= k < s.len() ==> #[trigger] s[k] != group_sep(),
    ensures
        without_seps(s) == s,
    decreases s.len(),
{
    if s.len() > 0 {
        let t = s.drop_last();
        assert forall|k: int| 0 <= k < t.len() implies #[trigger] t[k] != group_sep() by {
            assert(t[k] == s[k]);
        }
        lemma_without_seps_plain(t);
        assert(s.last() == s[s.len() - 1]);
        assert(t.push(s.last()) == s);
    }
}

proof fn lemma_decimal_plain(n: nat)
    ensures
        decimal(n).len() >= 1,
        forall|k: int| 0 <= k < decimal(n).len() ==> 48 <= #[trigger] (decimal(n)[k] as u32) <= 57,
    decreases n,
{
    if n >= 10 {
        lemma_decimal_plain(n / 10);
        let t = decimal(n / 10);
        assert forall|k: int| 0 <= k < decimal(n).len() implies 48 <= #[trigger] (decimal(n)[k] as u32) <= 57 by {
            if k < t.len() {
                assert(decimal(n)[k] == t[k]);
            }
        }
    }
}

proof fn lemma_grouped_shape(ds: Seq<char>)
    requires
        ds.len() > 0,
        forall|k: int| 0 <= k < ds.len() ==> #[trigger] ds[k] != group_sep(),
    ensures
        without_seps(grouped(ds)) == ds,
        grouped(ds).len() == ds.len() + (ds.len() - 1) / 3,
        forall|i: int|
            0 <= i < grouped(ds).len() ==> (#[trigger] grouped(ds)[i] == group_sep() <==> (
            grouped(ds).len() - i) % 4 == 0),
    decreases ds.len(),
{
    if ds.len() <= 3 {
        lemma_without_seps_plain(ds);
    } else {
        let pre = ds.subrange(0, ds.len() - 3);
        let tail = ds.subrange(ds.len() - 3, ds.len() as int);
        assert forall|k: int| 0 <= k < pre.len() implies #[trigger] pre[k] != group_sep() by {
            assert(pre[k] == ds[k]);
        }
        assert forall|k: int| 0 <= k < tail.len() implies #[trigger] tail[k] != group_sep() by {
            assert(tail[k] == ds[k + ds.len() - 3]);
        }
        lemma_grouped_shape(pre);
        let gp = grouped(pre);
        let sep: Seq<char> = seq![group_sep()];
        let g = gp + sep + tail;
        assert(grouped(ds) == g);
        lemma_without_seps_add(gp + sep, tail);
        lemma_without_seps_add(gp, sep);
        lemma_without_seps_plain(tail);
        assert(sep.drop_last() == Seq::<char>::empty());
        assert(without_seps(sep.drop_last()) == Seq::<char>::empty());
        assert(sep.last() == group_sep());
        assert(without_seps(sep) =~= Seq::<char>::empty());
        assert(pre + tail == ds);
        assert(g.len() == gp.len() + 4);
        assert forall|i: int| 0 <= i < g.len() implies (#[trigger] g[i] == group_sep() <==> (g.len()
            - i) % 4 == 0) by {
            if i < gp.len() {
                assert(g[i] == gp[i]);
                assert((g.len() - i) % 4 == (gp.len() - i) % 4);
            } else if i == gp.len() {
                assert(g[i] == group_sep());
            } else {
                assert(g[i] == tail[i - gp.len() - 1]);
            }
        }
    }
}

/// Law: a grouped number is its sign (`-` exactly when negative) and then
/// its digit groups: taking the separators out gives the plain decimal
/// form, and a separator stands exactly before each group of three digits
/// counted from the right, so the first group holds one to three digits and
/// every other exactly three. Negating a positive number only puts `-` in
/// front.
pub proof fn lemma_group_text_shape(n: int)
    ensures
        without_seps(group_text(n)) == (if n < 0 {
            seq!['-']
        } else {
            Seq::<char>::empty()
        }) + decimal(magnitude(n)),
        group_text(n) == (if n < 0 {
            seq!['-']
        } else {
            Seq::<char>::empty()
        }) + grouped(decimal(magnitude(n))),
        ({
            let g = grouped(decimal(magnitude(n)));
            let l = decimal(magnitude(n)).len();
            &&& g.len() == l + (l - 1) / 3
            &&& forall|i: int| 0 <= i < g.len() ==> (#[trigger] g[i] == group_sep() <==> (g.len() - i) % 4 == 0)
        }),
        n > 0 ==> group_text(-n) == seq!['-'] + group_text(n),
        group_sep() as u32 == 0x202f,
{
    let ds = decimal(magnitude(n));
    lemma_decimal_plain(magnitude(n));
    assert forall|k: int| 0 <= k < ds.len() implies #[trigger] ds[k] != group_sep() by {
        assert(48 <= (ds[k] as u32) <= 57);
    }
    lemma_grouped_shape(ds);
    let sign: Seq<char> = if n < 0 {
        seq!['-']
    } else {
        Seq::<char>::empty()
    };
    lemma_without_seps_add(sign, grouped(ds));
    if n < 0 {
        assert(sign.drop_last() == Seq::<char>::empty());
        assert(without_seps(sign.drop_last()) == Seq::<char>::empty());
        assert(sign.last() == '-');
        assert('-' != group_sep());
        assert(without_seps(sign) =~= sign);
    }
    if n > 0 {
        assert(magnitude(-n) == magnitude(n));
    }
}

fn grouped_prefix(ds: &Vec<char>, end: usize) -> (out: Vec<char>)
    requires
        end <= ds@.len(),
    ensures
        out@ == grouped(ds@.take(end as int)),
    decreases end,
{
    let mut out: Vec<char>;
    let start: usize;
    if end <= 3 {
        out = Vec::new();
        start = 0;
    } else {
        out = grouped_prefix(ds, end - 3);
        out.push('\u{202f}');
        start = end - 3;
    }
    let ghost head = out@;
    for k in start..end
        invariant
            end <= ds@.len(),
            out@ == head + ds@.subrange(start as int, k as int),
    {
        out.push(ds[k]);
        assert(ds@.subrange(start as int, k + 1) =~= ds@.subrange(start as int, k as int).push(
            ds@[k as int],
        ));
    }
    proof {
        let t = ds@.take(end as int);
        if end <= 3 {
            assert(out@ =~= t);
        } else {
            assert(t.subrange(0, t.len() - 3) =~= ds@.take(end - 3));
            assert(t.subrange(t.len() - 3, t.len() as int) =~= ds@.subrange(start as int, end as int));
            assert(out@ =~= grouped(t));
        }
    }
    out
}

/// `n` with thousands grouped: 12345 becomes "12 345" (with a narrow
/// no-break space).
pub fn group(n: i64) -> (s: String)
    requires
        n != i64::MIN,
    ensures
        s@ == group_text(n as int),
{
    let m: u64 = if n < 0 {
        (-n) as u64
    } else {
        n as u64
    };
    let ds = decimal_digits(m);
    let g = grouped_prefix(&ds, ds.len());
    assert(ds@.take(ds@.len() as int) =~= ds@);
    let mut out: Vec<char> = Vec::new();
    if n < 0 {
        out.push('-');
    }
    let ghost head = out@;
    for k in 0..g.len()
        invariant
            out@ == head + g@.take(k as int),
    {
        out.push(g[k]);
        assert(g@.take(k + 1) =~= g@.take(k as int).push(g@[k as int]));
    }
    assert(g@.take(g@.len() as int) =~= g@);
    assert(out@ =~= group_text(n as int));
    string_from(&out)
}

/// A duration of `s` whole seconds as the statistics page writes it: seconds
/// alone under a minute, minutes alone under an hour, else hours and minutes.
pub open spec fn duration_text(s: nat) -> Seq<char> {
    let h = s / 3600;
    let m = (s % 3600) / 60;
    let sec = s % 60;
    if h == 0 && m == 0 {
        decimal(sec) + seq![' ', 'с']
    } else if h == 0 {
        decimal(m) + seq![' ', 'м', 'и', 'н']
    } else {
        decimal(h) + seq![' ', 'ч', ' '] + decimal(m) + seq![' ', 'м', 'и', 'н']
    }
}

fn append(out: &mut Vec<char>, more: &Vec<char>)
    ensures
        final(out)@ == old(out)@ + more@,
{
    let n = more.len();
    for k in 0..n
        invariant
            n == more@.len(),
            out@ == old(out)@ + more@.take(k as int),
    {
        out.push(more[k]);
        assert(more@.take(k + 1) =~= more@.take(k as int).push(more@[k as int]));
    }
    assert(more@.take(n as int) =~= more@);
}

/// A duration in whole seconds, negative ones counting as none.
pub fn fmt_dur(secs: i64) -> (r: String)
    ensures
        r@ == duration_text(if secs < 0 { 0nat } else { secs as nat }),
{
    let s: u64 = if secs < 0 {
        0
    } else {
        secs as u64
    };
    let h = s / 3600;
    let m = (s % 3600) / 60;
    let sec = s % 60;
    let mut out: Vec<char> = Vec::new();
    if h == 0 && m == 0 {
        append(&mut out, &decimal_digits(sec));
        out.push(' ');
        out.push('с');
    } else if h == 0 {
        append(&mut out, &decimal_digits(m));
        out.push(' ');
        out.push('м');
        out.push('и');
        out.push('н');
    } else {
        append(&mut out, &decimal_digits(h));
        out.push(' ');
        out.push('ч');
        out.push(' ');
        append(&mut out, &decimal_digits(m));
        out.push(' ');
        out.push('м');
        out.push('и');
        out.push('н');
    }
    assert(out@ =~= duration_text(s as nat));
    string_from(&out)
}

/// A number at least two characters wide, padded with a leading zero, as
/// `{:02}` writes it (the sign counts towards the width).
pub open spec fn pad2(n: int) -> Seq<char> {
    if n < 0 {
        seq!['-'] + decimal(magnitude(n))
    } else if n < 10 {
        seq!['0'] + decimal(n as nat)
    } else {
        decimal(n as nat)
    }
}

fn pad2_chars(n: i64) -> (out: Vec<char>)
    ensures
        out@ == pad2(n as int),
{
    let mut out: Vec<char> = Vec::new();
    if n < 0 {
        out.push('-');
        let m: u64 = ((-(n + 1)) as u64) + 1;
        append(&mut out, &decimal_digits(m));
    } else {
        if n < 10 {
            out.push('0');
        }
        append(&mut out, &decimal_digits(n as u64));
    }
    assert(out@ =~= pad2(n as int));
    out
}

/// Law: a two-digit field is the number's decimal digits, with a leading
/// `0` exactly when it is a single digit (0 to 9); so hours and months always
/// show at least two digits.
pub proof fn lemma_pad2_two_digits(n: int)
    requires
        0 <= n,
    ensures
        pad2(n).len() >= 2,
        n < 10 ==> pad2(n) == seq!['0'] + decimal(n as nat) && pad2(n).len() == 2,
        n >= 10 ==> pad2(n) == decimal(n as nat),
        n < 100 ==> pad2(n).len() == 2,
        digits_value(pad2(n)) == n,
{
    lemma_decimal_reads_back(n as nat);
    if n >= 10 {
        lemma_decimal_reads_back(n as nat / 10);
        if n >= 100 {
            lemma_decimal_reads_back(n as nat / 100);
        }
    } else {
        lemma_digits_value_zero_prefix(decimal(n as nat));
    }
}

proof fn lemma_digits_value_zero_prefix(ds: Seq<char>)
    ensures
        digits_value(seq!['0'] + ds) == digits_value(ds),
    decreases ds.len(),
{
    let z: Seq<char> = seq!['0'];
    if ds.len() == 0 {
        assert(z + ds == z);
        assert(z.drop_last() == Seq::<char>::empty());
        assert(digits_value(z.drop_last()) == 0);
        assert(z.last() as u32 == 48);
    } else {
        lemma_digits_value_zero_prefix(ds.drop_last());
        assert((z + ds).drop_last() == z + ds.drop_last());
        assert((z + ds).last() == ds.last());
    }
}

/// The busiest hour as "HH:00", or a dash when nothing was dictated.
pub fn hour_label(peak_hour: Option<i64>) -> (r: String)
    ensures
        peak_hour is None ==> r@ == seq!['—'],
        peak_hour matches Some(h) ==> r@ == pad2(h as int) + seq![':', '0', '0'],
{
    let mut out: Vec<char> = Vec::new();
    match peak_hour {
        None => {
            out.push('—');
        },
        Some(h) => {
            append(&mut out, &pad2_chars(h));
            out.push(':');
            out.push('0');
            out.push('0');
        },
    }
    string_from(&out)
}

/// A chart axis label: day of the month, a dot, the month in two digits.
pub fn date_label(day: u32, month: u32) -> (r: String)
    ensures
        r@ == decimal(day as nat) + seq!['.'] + pad2(month as int),
{
    let mut out = decimal_digits(day as u64);
    out.push('.');
    append(&mut out, &pad2_chars(month as i64));
    string_from(&out)
}

/// Month names in the genitive, as a date reads ("5 марта").
pub open spec fn month_genitive(month0: nat) -> Seq<char> {
    if month0 == 0 {
        "января"@
    } else if month0 == 1 {
        "февраля"@
    } else if month0 == 2 {
        "марта"@
    } else if month0 == 3 {
        "апреля"@
    } else if month0 == 4 {
        "мая"@
    } else if month0 == 5 {
        "июня"@
    } else if month0 == 6 {
        "июля"@
    } else if month0 == 7 {
        "августа"@
    } else if month0 == 8 {
        "сентября"@
    } else if month0 == 9 {
        "октября"@
    } else if month0 == 10 {
        "ноября"@
    } else {
        "декабря"@
    }
}

/// The months in the genitive, January first.
pub open spec fn month_table() -> Seq<Seq<char>> {
    seq![
        "января"@,
        "февраля"@,
        "марта"@,
        "апреля"@,
        "мая"@,
        "июня"@,
        "июля"@,
        "августа"@,
        "сентября"@,
        "октября"@,
        "ноября"@,
        "декабря"@,
    ]
}

/// Law: month `m` (counted from 0) is named by the `m`-th entry of the
/// calendar's table, January to December in order.
pub proof fn lemma_month_names_follow_the_calendar(m: nat)
    requires
        m < 12,
    ensures
        month_genitive(m) == month_table()[m as int],
        month_table().len() == 12,
{
}

/// Law: a duration reads as seconds under a minute, whole minutes under an
/// hour, and hours and minutes from an hour on; the numbers it shows are the
/// whole minutes, hours and leftover minutes of `s`.
pub proof fn lemma_duration_reads_back(s: nat)
    ensures
        s < 60 ==> duration_text(s) == decimal(s) + " с"@,
        60 <= s < 3600 ==> duration_text(s) == decimal(s / 60) + " мин"@,
        3600 <= s ==> duration_text(s) == decimal(s / 3600) + " ч "@ + decimal((s % 3600) / 60)
            + " мин"@,
{
    reveal_strlit(" с");
    reveal_strlit(" мин");
    reveal_strlit(" ч ");
    if s < 60 {
        assert(s / 3600 == 0 && (s % 3600) / 60 == 0 && s % 60 == s);
    } else if s < 3600 {
        assert(s / 3600 == 0 && (s % 3600) / 60 == s / 60);
        assert(s / 60 > 0);
    } else {
        assert(s / 3600 > 0);
    }
}

fn month_name(month0: u32) -> (r: &'static str)
    requires
        month0 < 12,
    ensures
        r@ == month_genitive(month0 as nat),
{
    if month0 == 0 {
        "января"
    } else if month0 == 1 {
        "февраля"
    } else if month0 == 2 {
        "марта"
    } else if month0 == 3 {
        "апреля"
    } else if month0 == 4 {
        "мая"
    } else if month0 == 5 {
        "июня"
    } else if month0 == 6 {
        "июля"
    } else if month0 == 7 {
        "августа"
    } else if month0 == 8 {
        "сентября"
    } else if month0 == 9 {
        "октября"
    } else if month0 == 10 {
        "ноября"
    } else {
        "декабря"
    }
}

/// The heading over a day's entries in the history: "Сегодня", "Вчера", or
/// the day of the month and the month's name. `days_ago` is how many days
/// before today the entries were made; `month0` counts months from 0.
pub fn day_label(days_ago: i64, day: u32, month0: u32) -> (r: String)
    requires
        month0 < 12,
    ensures
        days_ago == 0 ==> r@ == "Сегодня"@,
        days_ago == 1 ==> r@ == "Вчера"@,
        days_ago != 0 && days_ago != 1 ==> r@ == decimal(day as nat) + seq![' '] + month_genitive(
            month0 as nat,
        ),
{
    if days_ago == 0 {
        String::from_str("Сегодня")
    } else if days_ago == 1 {
        String::from_str("Вчера")
    } else {
        let mut out = decimal_digits(day as u64);
        out.push(' ');
        append(&mut out, &chars_of(month_name(month0)));
        string_from(&out)
    }
}

/// The history window's pages.
#[derive(PartialEq, Eq, Structural, Debug, Clone, Copy)]
pub enum Tab {
    History,
    Stats,
}

/// The page the window opens on: statistics when asked for by name, else
/// the history.
pub fn parse_tab(name: &str) -> (t: Tab)
    ensures
        t == if name@ == "stats"@ {
            Tab::Stats
        } else {
            Tab::History
        },
{
    let a = chars_of(name);
    let b = chars_of("stats");
    if chars_eq(&a, &b) {
        Tab::Stats
    } else {
        Tab::History
    }
}

/// The largest value of `s`, but at least 1: the height the chart scales to.
pub open spec fn scale_max(s: Seq<i64>) -> i64
    decreases s.len(),
{
    if s.len() == 0 {
        1
    } else {
        let m = scale_max(s.drop_last());
        if s.last() > m {
            s.last()
        } else {
            m
        }
    }
}

/// The sum of `s`.
pub open spec fn total(s: Seq<i64>) -> int
    decreases s.len(),
{
    if s.len() == 0 {
        0
    } else {
        total(s.drop_last()) + s.last()
    }
}

/// How many values of `s` are positive.
pub open spec fn active(s: Seq<i64>) -> nat
    decreases s.len(),
{
    if s.len() == 0 {
        0
    } else {
        active(s.drop_last()) + if s.last() > 0 {
            1nat
        } else {
            0nat
        }
    }
}

/// Law: the period's total is the plain sum of its days: nothing for no
/// days, a single day's words for one day, and the totals of two stretches
/// add up. Likewise the active days of two stretches add up, and one day is
/// active exactly when it has a word.
pub proof fn lemma_total_adds_up(a: Seq<i64>, b: Seq<i64>, x: i64)
    ensures
        total(Seq::<i64>::empty()) == 0,
        total(seq![x]) == x,
        total(a + b) == total(a) + total(b),
        active(Seq::<i64>::empty()) == 0,
        active(seq![x]) == if x > 0 {
            1nat
        } else {
            0nat
        },
        active(a + b) == active(a) + active(b),
    decreases b.len(),
{
    let one: Seq<i64> = seq![x];
    assert(one.drop_last() == Seq::<i64>::empty());
    assert(one.last() == x);
    assert(total(one.drop_last()) == 0);
    assert(active(one.drop_last()) == 0);
    if b.len() == 0 {
        assert(a + b == a);
    } else {
        lemma_total_adds_up(a, b.drop_last(), x);
        assert((a + b).drop_last() == a + b.drop_last());
        assert((a + b).last() == b.last());
    }
}

/// What the chart states about a series of daily word totals.
pub struct ChartSummary {
    /// The largest total, at least 1.
    pub max: i64,
    /// The index of the best day (the last one among equals).
    pub peak: Option<usize>,
    /// All words in the period.
    pub total: i64,
    /// Days with at least one word.
    pub active: usize,
}

/// Law: the chart's scale is at least 1 and at least every day's total, so
/// no bar is taller than the plot; above 1 it is some day's total.
pub proof fn lemma_scale_covers_every_day(s: Seq<i64>)
    ensures
        scale_max(s) >= 1,
        forall|j: int| 0 <= j < s.len() ==> s[j] <= scale_max(s),
        s.len() > 0 && scale_max(s) > 1 ==> exists|j: int| 0 <= j < s.len() && s[j] == scale_max(s),
    decreases s.len(),
{
    if s.len() > 0 {
        lemma_scale_covers_every_day(s.drop_last());
        let t = s.drop_last();
        assert forall|j: int| 0 <= j < s.len() implies s[j] <= scale_max(s) by {
            if j < s.len() - 1 {
                assert(s[j] == t[j]);
            }
        }
        if scale_max(s) > 1 && s.last() <= scale_max(t) {
            let j = choose|j: int| 0 <= j < t.len() && t[j] == scale_max(t);
            assert(s[j] == t[j]);
        }
    }
}

/// The chart's scale, best day, total and active days for `words`.
pub fn chart_summary(words: &Vec<i64>) -> (r: ChartSummary)
    requires
        forall|k: int| 0 <= k <= words@.len() ==> i64::MIN <= #[trigger] total(words@.take(k)) <= i64::MAX,
    ensures
        r.max == scale_max(words@),
        r.total == total(words@),
        r.active == active(words@),
        words@.len() == 0 ==> r.peak is None,
        words@.len() > 0 ==> (r.peak matches Some(i) && i < words@.len() && (forall|j: int|
            0 <= j < words@.len() ==> words@[j] <= words@[i as int]) && (forall|j: int|
            i < j < words@.len() ==> words@[j] < words@[i as int])),
{
    let n = words.len();
    let mut max: i64 = 1;
    let mut sum: i64 = 0;
    let mut count: usize = 0;
    let mut peak: Option<usize> = None;
    for i in 0..n
        invariant
            n == words@.len(),
            forall|k: int| 0 <= k <= words@.len() ==> i64::MIN <= #[trigger] total(words@.take(k)) <= i64::MAX,
            max == scale_max(words@.take(i as int)),
            sum == total(words@.take(i as int)),
            count == active(words@.take(i as int)),
            count <= i,
            i == 0 ==> peak is None,
            i > 0 ==> (peak matches Some(p) && p < i && (forall|j: int|
                0 <= j < i ==> words@[j] <= words@[p as int]) && (forall|j: int|
                p < j < i ==> words@[j] < words@[p as int])),
    {
        let w = words[i];
        proof {
            let t = words@.take(i + 1);
            assert(t.drop_last() =~= words@.take(i as int));
            assert(t.last() == w);
            assert(total(t) == total(words@.take(i as int)) + w);
        }
        if w > max {
            max = w;
        }
        sum = sum + w;
        if w > 0 {
            count = count + 1;
        }
        match peak {
            None => {
                peak = Some(i);
            },
            Some(p) => {
                if w >= words[p] {
                    peak = Some(i);
                }
            },
        }
    }
    assert(words@.take(n as int) =~= words@);
    ChartSummary { max, peak, total: sum, active: count }
}

/// How often the chart labels a day: about seven labels whatever the
/// period, every day when it is a week or shorter.
pub open spec fn label_step(n: nat) -> nat {
    if n == 0 {
        1
    } else {
        ((n + 6) / 7) as nat
    }
}

/// Law: the label step is the smallest step that gives at most seven
/// labelled days from the first: `ceil(n / 7)`, and 1 for an empty chart.
pub proof fn lemma_label_step_is_a_seventh(n: nat)
    ensures
        label_step(n) >= 1,
        n > 0 ==> 7 * label_step(n) >= n && 7 * (label_step(n) - 1) < n,
        n <= 7 ==> label_step(n) == 1,
{
}

/// Whether the chart writes a date under day `i` of `n`: every
/// `label_step(n)`-th day from the first, and the best day.
pub fn labels_day(i: usize, n: usize, peak: Option<usize>) -> (b: bool)
    ensures
        b == ((i as nat) % label_step(n as nat) == 0 || peak == Some(i)),
{
    let step: usize = if n == 0 {
        1
    } else {
        n / 7 + if n % 7 != 0 {
            1
        } else {
            0
        }
    };
    assert(step == label_step(n as nat));
    i % step == 0 || peak == Some(i)
}

/// Where the history puts a day heading: before its first entry and before
/// every entry whose day (a day number) differs from the one above it.
pub fn day_breaks(days: &Vec<i32>) -> (out: Vec<bool>)
    ensures
        out@.len() == days@.len(),
        forall|i: int|
            0 <= i < days@.len() ==> #[trigger] out@[i] == (i == 0 || days@[i] != days@[i - 1]),
{
    let mut out: Vec<bool> = Vec::new();
    let n = days.len();
    for i in 0..n
        invariant
            n == days@.len(),
            out@.len() == i,
            forall|k: int| 0 <= k < i ==> #[trigger] out@[k] == (k == 0 || days@[k] != days@[k - 1]),
    {
        let b = i == 0 || days[i] != days[i - 1];
        out.push(b);
    }
    out
}

} // verus!
