use chrono::{Datelike, Local, NaiveDate, TimeZone};
use rusqlite::Connection;
use voiceflow::store::{
    count_words, daily_series, first_day, like_pattern, list_query, new_entry, parse_days,
    stats_from, streaks, DayTotals, Entry, Stats, Totals, FIRST_DAY, LAST_DAY,
};

// ---- the SQL side, as the application runs it -------------------------------

fn mem() -> Connection {
    let c = Connection::open_in_memory().unwrap();
    c.execute_batch(
        "CREATE TABLE IF NOT EXISTS transcriptions (
            id          INTEGER PRIMARY KEY,
            ts          INTEGER NOT NULL,
            text        TEXT    NOT NULL,
            lang        TEXT    NOT NULL DEFAULT '',
            duration_ms INTEGER NOT NULL DEFAULT 0,
            words       INTEGER NOT NULL DEFAULT 0,
            chars       INTEGER NOT NULL DEFAULT 0
         );",
    )
    .unwrap();
    c
}

fn add(c: &Connection, ts: i64, text: &str) {
    c.execute(
        "INSERT INTO transcriptions (ts, text, lang, duration_ms, words, chars)
         VALUES (?1, ?2, 'ru-RU', 1000, ?3, ?4)",
        (ts, text, count_words(text), text.chars().count() as i64),
    )
    .unwrap();
}

fn day_bounds(d: NaiveDate) -> (i64, i64) {
    let start = d.and_hms_opt(0, 0, 0).unwrap();
    let end = start + chrono::Duration::days(1);
    (
        Local.from_local_datetime(&start).unwrap().timestamp(),
        Local.from_local_datetime(&end).unwrap().timestamp(),
    )
}

fn ts_days_ago(n: i64) -> i64 {
    let d = Local::now().date_naive() - chrono::Duration::days(n);
    day_bounds(d).0 + 3600 * 12
}

fn today() -> i32 {
    Local::now().date_naive().num_days_from_ce()
}

fn insert(c: &Connection, text: &str, lang: &str, duration_ms: i64) -> Option<i64> {
    let e = new_entry(Local::now().timestamp(), text, lang, duration_ms)?;
    c.execute(
        "INSERT INTO transcriptions (ts, text, lang, duration_ms, words, chars)
         VALUES (?1, ?2, ?3, ?4, ?5, ?6)",
        (e.ts, &e.text, &e.lang, e.duration_ms, e.words, e.chars),
    )
    .unwrap();
    Some(c.last_insert_rowid())
}

fn list(c: &Connection, query: &str, limit: usize) -> Vec<Entry> {
    let q = list_query(query, limit);
    let mut stmt = c
        .prepare(
            "SELECT id, ts, text, lang, duration_ms, words, chars
               FROM transcriptions
              WHERE ?1 = '' OR text LIKE ?2 ESCAPE '\\'
           ORDER BY ts DESC, id DESC
              LIMIT ?3",
        )
        .unwrap();
    stmt.query_map((&q.text, &q.like, q.limit), |r| {
        Ok(Entry {
            id: r.get(0)?,
            ts: r.get(1)?,
            text: r.get(2)?,
            lang: r.get(3)?,
            duration_ms: r.get(4)?,
            words: r.get(5)?,
            chars: r.get(6)?,
        })
    })
    .unwrap()
    .collect::<Result<Vec<_>, _>>()
    .unwrap()
}

fn stats(c: &Connection) -> Stats {
    let totals = c
        .query_row(
            "SELECT COUNT(*), COALESCE(SUM(words),0), COALESCE(SUM(duration_ms),0),
                    COALESCE(MAX(words),0)
               FROM transcriptions",
            [],
            |r| {
                Ok(Totals {
                    count: r.get(0)?,
                    words: r.get(1)?,
                    duration_ms: r.get(2)?,
                    longest_words: r.get(3)?,
                })
            },
        )
        .unwrap();
    let (start, end) = day_bounds(Local::now().date_naive());
    let today_totals = c
        .query_row(
            "SELECT COUNT(*), COALESCE(SUM(words),0) FROM transcriptions WHERE ts >= ?1 AND ts < ?2",
            (start, end),
            |r| Ok(DayTotals { sessions: r.get(0)?, words: r.get(1)? }),
        )
        .unwrap();
    let best = c
        .query_row(
            "SELECT SUM(words) AS w, COUNT(*) AS c
               FROM transcriptions
              GROUP BY date(ts,'unixepoch','localtime')
              ORDER BY w DESC, c DESC LIMIT 1",
            [],
            |r| Ok(DayTotals { words: r.get(0)?, sessions: r.get(1)? }),
        )
        .ok();
    let peak = c
        .query_row(
            "SELECT CAST(strftime('%H', ts, 'unixepoch', 'localtime') AS INTEGER) AS h
               FROM transcriptions
              GROUP BY h ORDER BY COUNT(*) DESC, h ASC LIMIT 1",
            [],
            |r| r.get::<_, i64>(0),
        )
        .ok();
    let mut stmt = c
        .prepare("SELECT DISTINCT date(ts,'unixepoch','localtime') FROM transcriptions ORDER BY 1")
        .unwrap();
    let days: Vec<String> = stmt
        .query_map([], |r| r.get::<_, String>(0))
        .unwrap()
        .collect::<Result<_, _>>()
        .unwrap();
    stats_from(&totals, &today_totals, best, peak, &days, today())
}

fn daily_words(c: &Connection, days: i64) -> Vec<(i32, i64)> {
    let first = first_day(today(), days);
    let (start, _) = day_bounds(NaiveDate::from_num_days_from_ce_opt(first).unwrap());
    let mut stmt = c
        .prepare(
            "SELECT date(ts,'unixepoch','localtime') AS d, SUM(words)
               FROM transcriptions WHERE ts >= ?1 GROUP BY d",
        )
        .unwrap();
    let rows: Vec<(String, i64)> = stmt
        .query_map((start,), |r| Ok((r.get(0)?, r.get(1)?)))
        .unwrap()
        .collect::<Result<_, _>>()
        .unwrap();
    daily_series(today(), days, &rows)
}

// ---- the history as a whole ------------------------------------------------

#[test]
fn empty_text_is_not_stored() {
    let c = mem();
    assert!(insert(&c, "   ", "ru-RU", 0).is_none());
    assert_eq!(stats(&c).total, 0);
}

#[test]
fn counts_words_and_today() {
    let c = mem();
    add(&c, ts_days_ago(0), "раз два три");
    add(&c, ts_days_ago(1), "вчера было четыре слова");
    let s = stats(&c);
    assert_eq!(s.total, 2);
    assert_eq!(s.total_words, 7);
    assert_eq!(s.words_today, 3);
    assert_eq!(s.sessions_today, 1);
    assert_eq!(s.longest_words, 4);
}

#[test]
fn streak_counts_consecutive_days() {
    let c = mem();
    for d in [0, 1, 2, 5, 6] {
        add(&c, ts_days_ago(d), "слово");
    }
    let s = stats(&c);
    assert_eq!(s.streak, 3, "today plus the two days before it");
    assert_eq!(s.best_streak, 3);
}

#[test]
fn streak_breaks_after_a_gap() {
    let c = mem();
    for d in [4, 5, 6] {
        add(&c, ts_days_ago(d), "слово");
    }
    assert_eq!(stats(&c).streak, 0);
    assert_eq!(stats(&c).best_streak, 3);
}

#[test]
fn yesterday_still_counts_as_a_live_streak() {
    let c = mem();
    for d in [1, 2] {
        add(&c, ts_days_ago(d), "слово");
    }
    assert_eq!(stats(&c).streak, 2);
}

#[test]
fn daily_words_pads_missing_days() {
    let c = mem();
    add(&c, ts_days_ago(0), "раз два");
    add(&c, ts_days_ago(2), "три");
    let d = daily_words(&c, 3);
    assert_eq!(d.len(), 3);
    assert_eq!(d[0].1, 1);
    assert_eq!(d[1].1, 0);
    assert_eq!(d[2].1, 2);
}

#[test]
fn search_filters_by_text() {
    let c = mem();
    add(&c, ts_days_ago(0), "привет мир");
    add(&c, ts_days_ago(0), "пока мир");
    assert_eq!(list(&c, "привет", 50).len(), 1);
    assert_eq!(list(&c, "", 50).len(), 2);
}

#[test]
fn wildcards_in_the_query_are_literal() {
    let c = mem();
    add(&c, ts_days_ago(0), "скидка 100% на всё");
    add(&c, ts_days_ago(0), "обычная запись без знаков");
    // A bare `%` used to match every row.
    assert_eq!(list(&c, "%", 50).len(), 1);
    assert_eq!(list(&c, "100%", 50).len(), 1);
    assert_eq!(list(&c, "_", 50).len(), 0);
}

#[test]
fn best_day_reports_one_single_day() {
    let c = mem();
    // Day A: many words in one go. Day B: many sessions, few words.
    add(&c, ts_days_ago(1), "раз два три четыре пять шесть семь восемь");
    for _ in 0..5 {
        add(&c, ts_days_ago(2), "коротко");
    }
    let s = stats(&c);
    assert_eq!(s.most_words_day, 8);
    assert_eq!(
        s.most_sessions_day, 1,
        "session count must come from the same day as the word count"
    );
}

// ---- the library on its own -------------------------------------------------

#[test]
fn counts_unicode_whitespace_separated_words() {
    assert_eq!(count_words(""), 0);
    assert_eq!(count_words("   "), 0);
    assert_eq!(count_words("раз два три"), 3);
    assert_eq!(count_words("  a\tb\nc  "), 3);
    assert_eq!(count_words("a\u{3000}b\u{a0}c\u{2009}d"), 4);
    assert_eq!(count_words("a\u{200b}b"), 1, "zero-width space is not whitespace");
    for s in ["x y", " lead", "trail ", "a\u{85}b\u{2028}c", "多 字"] {
        assert_eq!(count_words(s), s.split_whitespace().count() as i64);
    }
}

#[test]
fn like_pattern_escapes_metacharacters() {
    assert_eq!(like_pattern(""), "%%");
    assert_eq!(like_pattern("мир"), "%мир%");
    assert_eq!(like_pattern("100%"), "%100\\%%");
    assert_eq!(like_pattern("a_b\\c"), "%a\\_b\\\\c%");
}

#[test]
fn backslash_in_the_query_is_literal() {
    let c = mem();
    add(&c, ts_days_ago(0), "путь C:\\tmp");
    add(&c, ts_days_ago(0), "путь Ctmp");
    assert_eq!(list(&c, "\\", 50).len(), 1);
    assert_eq!(list(&c, "C:\\t", 50).len(), 1);
}

#[test]
fn list_query_trims_and_passes_the_limit() {
    let q = list_query("  привет  ", 500);
    assert_eq!(q.text, "привет");
    assert_eq!(q.like, "%привет%");
    assert_eq!(q.limit, 500);
}

#[test]
fn new_entry_trims_and_counts() {
    let e = new_entry(42, "  раз два\n", "ru-RU", 1500).unwrap();
    assert_eq!(e.ts, 42);
    assert_eq!(e.text, "раз два");
    assert_eq!(e.lang, "ru-RU");
    assert_eq!(e.duration_ms, 1500);
    assert_eq!(e.words, 2);
    assert_eq!(e.chars, 7);
    assert!(new_entry(0, "\u{3000}\t", "ru-RU", 0).is_none());
}

#[test]
fn streaks_from_day_numbers() {
    assert_eq!(streaks(&vec![], 100), (0, 0));
    assert_eq!(streaks(&vec![94, 95, 98, 99, 100], 100), (3, 3));
    assert_eq!(streaks(&vec![94, 95, 96, 99], 100), (1, 3));
    assert_eq!(streaks(&vec![94, 95, 96], 100), (0, 3));
    assert_eq!(streaks(&vec![97, 98, 99], 100), (3, 3));
    assert_eq!(streaks(&vec![100, 101], 100), (2, 2), "a future day still counts");
}

#[test]
fn unparseable_days_are_skipped() {
    let raw = vec![
        "2024-03-01".to_string(),
        "garbage".to_string(),
        "2024-03-02".to_string(),
    ];
    let d = parse_days(&raw);
    let want: Vec<i32> = vec![
        NaiveDate::from_ymd_opt(2024, 3, 1).unwrap().num_days_from_ce(),
        NaiveDate::from_ymd_opt(2024, 3, 2).unwrap().num_days_from_ce(),
    ];
    assert_eq!(d, want);
}

#[test]
fn daily_series_pads_and_orders() {
    let today = NaiveDate::from_ymd_opt(2024, 3, 10).unwrap().num_days_from_ce();
    let rows = vec![
        ("2024-03-10".to_string(), 5),
        ("2024-03-08".to_string(), 2),
        ("not a date".to_string(), 99),
        ("2024-01-01".to_string(), 7),
    ];
    let s = daily_series(today, 4, &rows);
    assert_eq!(s, vec![(today - 3, 0), (today - 2, 2), (today - 1, 0), (today, 5)]);
    assert_eq!(daily_series(today, 0, &rows), vec![]);
    assert_eq!(first_day(today, 7), today - 6);
}

#[test]
fn calendar_range_matches_chrono() {
    assert_eq!(NaiveDate::MIN.num_days_from_ce(), FIRST_DAY);
    assert_eq!(NaiveDate::MAX.num_days_from_ce(), LAST_DAY);
}

#[test]
fn stats_from_copies_and_counts_streaks() {
    let t = NaiveDate::from_ymd_opt(2024, 3, 10).unwrap();
    let days = vec!["2024-03-08".to_string(), "2024-03-09".to_string()];
    let s = stats_from(
        &Totals { count: 4, words: 40, duration_ms: 9000, longest_words: 20 },
        &DayTotals { sessions: 0, words: 0 },
        None,
        Some(14),
        &days,
        t.num_days_from_ce(),
    );
    assert_eq!((s.total, s.total_words, s.speaking_ms, s.longest_words), (4, 40, 9000, 20));
    assert_eq!((s.most_words_day, s.most_sessions_day), (0, 0));
    assert_eq!(s.peak_hour, Some(14));
    assert_eq!((s.streak, s.best_streak), (2, 2));
}

#[test]
fn parse_rows_keeps_dates_and_totals() {
    let raw = vec![
        ("2024-03-09".to_string(), 4),
        ("31.12.2024".to_string(), 1),
        ("2024-03-10".to_string(), 6),
    ];
    let d9 = NaiveDate::from_ymd_opt(2024, 3, 9).unwrap().num_days_from_ce();
    assert_eq!(voiceflow::store::parse_rows(&raw), vec![(d9, 4), (d9 + 1, 6)]);
}

#[test]
fn pad_series_takes_the_last_row_of_a_day() {
    let rows = vec![(10, 1), (12, 3), (10, 7)];
    assert_eq!(
        voiceflow::store::pad_series(12, 3, &rows),
        vec![(10, 7), (11, 0), (12, 3)]
    );
}

#[test]
fn word_counts_add_across_a_space_and_ignore_trimming() {
    let texts = ["", " ", "раз", "раз два", " три ", "a\tb", "x\u{3000}"];
    for a in texts {
        for b in texts {
            assert_eq!(count_words(&format!("{a} {b}")), count_words(a) + count_words(b));
        }
        let n = count_words(a);
        assert_eq!(n == 0, a.trim().is_empty());
        assert_eq!(count_words(a.trim()), n);
        assert!(n <= (a.chars().count() as i64 + 1) / 2);
    }
    assert_eq!(count_words("a b c"), 3);
}
