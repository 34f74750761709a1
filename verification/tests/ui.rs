use voiceflow::ui::{
    chart_summary, date_label, day_breaks, day_label, fmt_dur, group, hour_label, labels_day,
    parse_tab, Tab,
};

#[test]
fn groups_thousands() {
    assert_eq!(group(7), "7");
    assert_eq!(group(1234), "1\u{202f}234");
    assert_eq!(group(1234567), "1\u{202f}234\u{202f}567");
}

#[test]
fn groups_negative_and_boundary_numbers() {
    assert_eq!(group(0), "0");
    assert_eq!(group(999), "999");
    assert_eq!(group(1000), "1\u{202f}000");
    assert_eq!(group(-1234), "-1\u{202f}234");
    assert_eq!(
        group(i64::MAX),
        "9\u{202f}223\u{202f}372\u{202f}036\u{202f}854\u{202f}775\u{202f}807"
    );
}

#[test]
fn formats_durations() {
    assert_eq!(fmt_dur(42), "42 с");
    assert_eq!(fmt_dur(600), "10 мин");
    assert_eq!(fmt_dur(3900), "1 ч 5 мин");
    assert_eq!(fmt_dur(-5), "0 с");
}

#[test]
fn formats_hours_with_zero_minutes() {
    assert_eq!(fmt_dur(3600), "1 ч 0 мин");
    assert_eq!(fmt_dur(59), "59 с");
    assert_eq!(fmt_dur(60), "1 мин");
}

#[test]
fn labels_days() {
    assert_eq!(day_label(0, 5, 2), "Сегодня");
    assert_eq!(day_label(1, 5, 2), "Вчера");
    assert_eq!(day_label(2, 5, 2), "5 марта");
    assert_eq!(day_label(40, 31, 11), "31 декабря");
    assert_eq!(day_label(-1, 1, 0), "1 января");
}

#[test]
fn labels_hours_and_dates() {
    assert_eq!(hour_label(None), "—");
    assert_eq!(hour_label(Some(9)), "09:00");
    assert_eq!(hour_label(Some(23)), "23:00");
    assert_eq!(date_label(7, 3), "7.03");
    assert_eq!(date_label(31, 12), "31.12");
}

#[test]
fn picks_the_page() {
    assert!(parse_tab("stats") == Tab::Stats);
    assert!(parse_tab("") == Tab::History);
    assert!(parse_tab("history") == Tab::History);
}

#[test]
fn summarises_the_chart() {
    let s = chart_summary(&vec![0, 5, 2, 5, 0]);
    assert_eq!(s.max, 5);
    assert_eq!(s.peak, Some(3), "the last of equal maxima is the peak");
    assert_eq!(s.total, 12);
    assert_eq!(s.active, 3);

    let empty = chart_summary(&vec![]);
    assert_eq!(empty.max, 1);
    assert_eq!(empty.peak, None);
    assert_eq!(empty.total, 0);
    assert_eq!(empty.active, 0);

    let zeros = chart_summary(&vec![0, 0]);
    assert_eq!(zeros.max, 1);
    assert_eq!(zeros.peak, Some(1));
}

#[test]
fn grouped_numbers_read_back_as_plain_decimals() {
    for n in [1i64, 12, 123, 1234, 12345, 123456, 1234567, 9876543210, i64::MAX, -1, -1000, -123456789, i64::MIN + 1] {
        let g = group(n);
        assert_eq!(g.replace('\u{202f}', ""), n.to_string());
        let digits = g.trim_start_matches('-');
        let parts: Vec<&str> = digits.split('\u{202f}').collect();
        assert!((1..=3).contains(&parts[0].len()));
        assert!(parts[1..].iter().all(|p| p.len() == 3));
        if n > 0 {
            assert_eq!(group(-n), format!("-{}", group(n)));
        }
    }
}

#[test]
fn labels_about_seven_days_and_the_peak() {
    let week: Vec<bool> = (0..7).map(|i| labels_day(i, 7, None)).collect();
    assert!(week.iter().all(|b| *b));
    let month: Vec<usize> = (0..30).filter(|i| labels_day(*i, 30, Some(17))).collect();
    assert_eq!(month, vec![0, 5, 10, 15, 17, 20, 25]);
    assert!(labels_day(0, 0, None));
}

#[test]
fn headings_go_where_the_day_changes() {
    assert_eq!(day_breaks(&vec![]), Vec::<bool>::new());
    assert_eq!(
        day_breaks(&vec![739000, 739000, 738999, 738990, 738990]),
        vec![true, false, true, true, false]
    );
}
