use voiceflow::overlay::{
    drag_step, drop_partial_word, longest_fitting, visibility_change, DragAction,
};

#[test]
fn finds_the_longest_fitting_suffix() {
    assert_eq!(longest_fitting(100, &|k: usize| k <= 37), 37);
    assert_eq!(longest_fitting(100, &|_k: usize| true), 100);
    assert_eq!(longest_fitting(100, &|k: usize| k == 0), 0);
    assert_eq!(longest_fitting(0, &|_k: usize| false), 0);
    assert_eq!(longest_fitting(1, &|k: usize| k <= 1), 1);
}

#[test]
fn starts_the_preview_at_a_whole_word() {
    assert_eq!(drop_partial_word("вет мир дела"), "мир дела");
    assert_eq!(drop_partial_word(" мир дела"), "мир дела");
    assert_eq!(drop_partial_word("\u{a0}\tмир"), "мир");
    assert_eq!(drop_partial_word("одно"), "одно");
    assert_eq!(drop_partial_word("конец "), "");
    assert_eq!(drop_partial_word(""), "");
}

#[test]
fn only_a_press_that_starts_on_the_card_grabs_it() {
    assert_eq!(drag_step(false, true, false, true), DragAction::Grab);
    assert_eq!(drag_step(false, true, true, true), DragAction::Ignore);
    assert_eq!(drag_step(false, true, false, false), DragAction::Ignore);
    assert_eq!(drag_step(true, true, true, false), DragAction::Follow);
    assert_eq!(drag_step(true, false, true, true), DragAction::Release);
    assert_eq!(drag_step(false, false, true, true), DragAction::Ignore);
}

#[test]
fn the_card_is_shown_exactly_while_recording() {
    assert_eq!(visibility_change(None, false), Some(false));
    assert_eq!(visibility_change(None, true), Some(true));
    assert_eq!(visibility_change(Some(false), true), Some(true));
    assert_eq!(visibility_change(Some(true), false), Some(false));
    assert_eq!(visibility_change(Some(true), true), None);
    assert_eq!(visibility_change(Some(false), false), None);
}
