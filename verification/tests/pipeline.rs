use voiceflow::asr::{Msg, Transcriber, CHUNK, FLUSH_PASSES};
use voiceflow::audio::{stream_action, Cmd, StreamAction, SAMPLE_RATE, WINDOW};
use voiceflow::chunks::Chunker;
use voiceflow::levels::{Levels, State, LEVELS_CAP};

#[test]
fn levels_keep_the_newest_and_pad_with_zero() {
    let mut l: Levels<f32> = Levels::new();
    assert_eq!(l.recent(3, 0.0), vec![0.0, 0.0, 0.0]);
    l.push(0.5);
    l.push(0.25);
    assert_eq!(l.recent(3, 0.0), vec![0.0, 0.5, 0.25]);
    assert_eq!(l.recent(1, 0.0), vec![0.25]);
    for i in 0..(LEVELS_CAP + 10) {
        l.push(i as f32);
    }
    assert_eq!(l.len(), LEVELS_CAP);
    let all = l.recent(LEVELS_CAP, -1.0);
    assert_eq!(all[0], 10.0);
    assert_eq!(all[LEVELS_CAP - 1], (LEVELS_CAP + 9) as f32);
    l.clear();
    assert_eq!(l.len(), 0);
}

#[test]
fn toggling_on_starts_afresh() {
    let mut st: State<f32, u32> = State::new();
    st.partial = "old preview".to_string();
    st.final_text = Some("old".to_string());
    st.push_level(0.7);
    assert!(st.toggle(5));
    assert!(st.recording);
    assert_eq!(st.partial, "");
    assert_eq!(st.final_text, None);
    assert_eq!(st.started_at, Some(5));
    assert_eq!(st.recent_levels(2, 0.0), vec![0.0, 0.0]);

    st.partial = "привет".to_string();
    assert!(!st.toggle(9));
    assert_eq!(st.partial, "привет", "toggling off keeps the preview");
    assert_eq!(st.started_at, Some(5));
}

#[test]
fn finishing_clears_the_preview_only_when_idle() {
    let mut st: State<f32, u32> = State::new();
    st.partial = "x".to_string();
    st.finish("готово".to_string());
    assert_eq!(st.partial, "");
    assert_eq!(st.final_text.as_deref(), Some("готово"));

    st.toggle(1);
    st.partial = "новая".to_string();
    st.finish("прошлая".to_string());
    assert_eq!(st.partial, "новая");

    st.recording_failed();
    assert!(!st.recording);
    assert_eq!(st.started_at, None);
}

#[test]
fn chunker_cuts_in_order_and_keeps_the_rest() {
    let mut c: Chunker<i32> = Chunker::new();
    c.push(&[1, 2, 3, 4, 5, 6, 7]);
    let chunks = c.take_chunks(3);
    assert_eq!(chunks, vec![vec![1, 2, 3], vec![4, 5, 6]]);
    assert_eq!(c.len(), 1);
    c.push(&[8, 9]);
    assert_eq!(c.take_chunks(3), vec![vec![7, 8, 9]]);
    assert_eq!(c.len(), 0);
    c.push(&[1]);
    assert_eq!(c.take_tail(3, 0), Some(vec![1, 0, 0]));
    assert_eq!(c.take_tail(3, 0), None);
}

#[test]
fn transcriber_feeds_full_chunks_and_flushes_at_the_end() {
    let mut t: Transcriber<f32> = Transcriber::new();
    let w = t.handle(Msg::Start, 0.0);
    assert!(w.chunks.is_empty() && !w.finish);
    let w = t.handle(Msg::Samples(vec![0.5; CHUNK + 10]), 0.0);
    assert!(!w.finish);
    assert_eq!(w.chunks.len(), 1);
    assert_eq!(w.chunks[0].len(), CHUNK);

    let w = t.handle(Msg::Finish, 0.0);
    assert!(w.finish);
    assert_eq!(w.chunks.len(), 1 + FLUSH_PASSES);
    assert_eq!(w.chunks[0].len(), CHUNK);
    assert_eq!(&w.chunks[0][..10], &[0.5; 10]);
    assert!(w.chunks[0][10..].iter().all(|s| *s == 0.0));
    assert!(w.chunks[1..].iter().all(|c| c.len() == CHUNK && c.iter().all(|s| *s == 0.0)));

    let w = t.handle(Msg::Finish, 0.0);
    assert_eq!(w.chunks.len(), FLUSH_PASSES, "nothing pending: silence only");
}

#[test]
fn start_drops_late_samples() {
    let mut t: Transcriber<f32> = Transcriber::new();
    t.handle(Msg::Start, 0.0);
    t.handle(Msg::Samples(vec![0.2; 50]), 0.0);
    let w = t.handle(Msg::Finish, 0.0);
    assert_eq!(w.chunks.len(), 1 + FLUSH_PASSES);

    // A callback already in flight lands after the Finish: short or a full
    // chunk, none of it reaches the model.
    let w = t.handle(Msg::Samples(vec![0.1; 100]), 0.0);
    assert!(w.chunks.is_empty() && !w.finish);
    let w = t.handle(Msg::Samples(vec![0.3; 2 * CHUNK + 5]), 0.0);
    assert!(w.chunks.is_empty() && !w.finish);

    let w = t.handle(Msg::Start, 0.0);
    assert!(w.chunks.is_empty() && !w.finish);
    let w = t.handle(Msg::Finish, 0.0);
    assert_eq!(w.chunks.len(), FLUSH_PASSES, "nothing of the late samples is flushed");
}

#[test]
fn samples_before_the_first_start_are_dropped() {
    let mut t: Transcriber<f32> = Transcriber::new();
    let w = t.handle(Msg::Samples(vec![0.4; CHUNK]), 0.0);
    assert!(w.chunks.is_empty());
    t.handle(Msg::Start, 0.0);
    let w = t.handle(Msg::Samples(vec![0.4; CHUNK]), 0.0);
    assert_eq!(w.chunks.len(), 1);
}

#[test]
fn capture_opens_on_start_and_closes_on_stop() {
    assert_eq!(stream_action(false, &Cmd::Start), StreamAction::Open);
    assert_eq!(stream_action(true, &Cmd::Start), StreamAction::Keep);
    assert_eq!(stream_action(true, &Cmd::Stop), StreamAction::Close);
    assert_eq!(stream_action(false, &Cmd::Stop), StreamAction::Close);
    assert_eq!(WINDOW, SAMPLE_RATE as usize / 100);
    assert_eq!(CHUNK, SAMPLE_RATE as usize * 560 / 1000);
}
