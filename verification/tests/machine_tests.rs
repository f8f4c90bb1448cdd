use literal_calculator::clock::{is_step_due, STEP_INTERVAL_MS};
use literal_calculator::cue::cue_for;
use literal_calculator::machine::{AppView, ViewStateMachine, LIMB_LIMIT};

#[test]
fn new_machine_shows_calculator() {
    let m = ViewStateMachine::new();
    assert_eq!(m.current_view, AppView::Calculator);
    assert!(m.session().is_none());
    assert_eq!(m.result_text().as_str(), "");
    assert!(!m.needs_further_ticks());
}

#[test]
fn submit_within_limit_starts_session() {
    let mut m = ViewStateMachine::new();
    m.submit("6+5", 1000);
    assert!(m.needs_further_ticks());
    let s = m.session().unwrap();
    assert_eq!(s.operand1, 6);
    assert_eq!(s.operand2, 5);
    assert_eq!(s.total, 11);
    assert_eq!(s.current_count, 0);
    assert_eq!(s.last_step_time, 1000);
}

#[test]
fn submit_accepts_leading_zeros() {
    let mut m = ViewStateMachine::new();
    m.submit("00000000000000000001+1", 0);
    assert!(m.needs_further_ticks());
    let s = m.session().unwrap();
    assert_eq!(s.operand1, 1);
    assert_eq!(s.operand2, 1);
    assert_eq!(s.total, 2);
}

#[test]
fn submit_accepts_unicode_whitespace() {
    let mut m = ViewStateMachine::new();
    m.submit("\u{00A0}6 +\u{3000}5", 0);
    let s = m.session().unwrap();
    assert_eq!(s.operand1, 6);
    assert_eq!(s.operand2, 5);
    assert_eq!(s.total, 11);
}

#[test]
fn submit_at_limit_starts_session() {
    let mut m = ViewStateMachine::new();
    m.submit("10+10", 0);
    let s = m.session().unwrap();
    assert_eq!(s.total, LIMB_LIMIT);
    assert_eq!(s.current_count, 0);
}

#[test]
fn submit_over_limit_shows_sum_in_message() {
    let mut m = ViewStateMachine::new();
    m.submit("15+10", 0);
    assert_eq!(m.current_view, AppView::Result);
    assert!(m.session().is_none());
    assert_eq!(
        m.result_text().as_str(),
        "Error: Sum (25) is greater than 20. I've run out of limbs!"
    );
}

#[test]
fn submit_just_over_limit_is_rejected() {
    let mut m = ViewStateMachine::new();
    m.submit("10+11", 0);
    assert_eq!(m.current_view, AppView::Result);
    assert_eq!(
        m.result_text().as_str(),
        "Error: Sum (21) is greater than 20. I've run out of limbs!"
    );
}

#[test]
fn submit_huge_sum_is_rejected() {
    let mut m = ViewStateMachine::new();
    m.submit("9999999999999999999+9999999999999999999", 0);
    assert_eq!(m.current_view, AppView::Result);
    assert_eq!(
        m.result_text().as_str(),
        "Error: Sum (19999999999999999998) is greater than 20. I've run out of limbs!"
    );
}

#[test]
fn submit_bad_number_shows_number_error() {
    let mut m = ViewStateMachine::new();
    m.submit("abc+3", 0);
    assert_eq!(m.current_view, AppView::Result);
    assert_eq!(m.result_text().as_str(), "Error: Invalid numbers.");
}

#[test]
fn submit_negative_shows_number_error() {
    let mut m = ViewStateMachine::new();
    m.submit("-1+2", 0);
    assert_eq!(m.current_view, AppView::Result);
    assert_eq!(m.result_text().as_str(), "Error: Invalid numbers.");
}

#[test]
fn submit_single_number_shows_format_error() {
    let mut m = ViewStateMachine::new();
    m.submit("3", 0);
    assert_eq!(m.current_view, AppView::Result);
    assert_eq!(m.result_text().as_str(), "Error: Use the format 'number+number'.");
}

#[test]
fn submit_three_numbers_shows_format_error() {
    let mut m = ViewStateMachine::new();
    m.submit("3+3+3", 0);
    assert_eq!(m.current_view, AppView::Result);
    assert_eq!(m.result_text().as_str(), "Error: Use the format 'number+number'.");
}

#[test]
fn tick_before_interval_changes_nothing() {
    let mut m = ViewStateMachine::new();
    m.submit("2+1", 1000);
    let before = m.session().unwrap();
    let cue = m.tick(1000 + STEP_INTERVAL_MS - 1);
    assert_eq!(cue, None);
    assert_eq!(m.session().unwrap(), before);
    assert_eq!(m.result_text().as_str(), "");
    assert!(m.needs_further_ticks());
}

#[test]
fn tick_ignores_clock_running_backwards() {
    let mut m = ViewStateMachine::new();
    m.submit("2+1", 1000);
    let before = m.session().unwrap();
    let cue = m.tick(500);
    assert_eq!(cue, None);
    assert_eq!(m.session().unwrap(), before);
}

#[test]
fn due_tick_advances_count_and_emits_cue() {
    let mut m = ViewStateMachine::new();
    m.submit("2+1", 1000);
    let cue = m.tick(1000 + STEP_INTERVAL_MS);
    assert_eq!(cue, Some(1));
    let s = m.session().unwrap();
    assert_eq!(s.current_count, 1);
    assert_eq!(s.last_step_time, 1000 + STEP_INTERVAL_MS);
}

#[test]
fn cues_come_in_order_without_gaps() {
    let mut m = ViewStateMachine::new();
    m.submit("3+4", 0);
    let mut now = 0u64;
    for expected in 1..=7u8 {
        now += STEP_INTERVAL_MS;
        let cue = m.tick(now);
        assert_eq!(cue, Some(expected));
    }
    assert_eq!(m.session().unwrap().current_count, 7);
}

#[test]
fn end_to_end_six_plus_five() {
    let mut m = ViewStateMachine::new();
    m.submit("6+5", 0);
    let mut now = 0u64;
    for _ in 0..11 {
        now += STEP_INTERVAL_MS;
        assert!(m.tick(now).is_some());
    }
    assert_eq!(m.session().unwrap().current_count, 11);
    now += STEP_INTERVAL_MS;
    let cue = m.tick(now);
    assert_eq!(cue, None);
    assert_eq!(m.current_view, AppView::Result);
    assert!(m.session().is_none());
    assert!(!m.needs_further_ticks());
    assert_eq!(m.result_text().as_str(), "6 + 5 = 11");
}

#[test]
fn zero_plus_zero_finishes_on_first_due_tick() {
    let mut m = ViewStateMachine::new();
    m.submit("0+0", 0);
    assert_eq!(m.session().unwrap().total, 0);
    let cue = m.tick(STEP_INTERVAL_MS);
    assert_eq!(cue, None);
    assert_eq!(m.current_view, AppView::Result);
    assert_eq!(m.result_text().as_str(), "0 + 0 = 0");
}

#[test]
fn count_never_passes_total() {
    let mut m = ViewStateMachine::new();
    m.submit("1+2", 0);
    let mut now = 0u64;
    let mut last_count = 0u8;
    while m.needs_further_ticks() {
        now += STEP_INTERVAL_MS;
        m.tick(now);
        if let Some(s) = m.session() {
            assert!(s.current_count <= s.total);
            assert!(s.current_count >= last_count);
            last_count = s.current_count;
        }
    }
    assert_eq!(m.result_text().as_str(), "1 + 2 = 3");
}

#[test]
fn reset_from_result_returns_to_calculator() {
    let mut m = ViewStateMachine::new();
    m.submit("3+3+3", 0);
    assert_eq!(m.current_view, AppView::Result);
    m.reset();
    assert_eq!(m.current_view, AppView::Calculator);
    assert!(m.session().is_none());
    assert_eq!(m.result_text().as_str(), "");
}

#[test]
fn reset_mid_animation_discards_session() {
    let mut m = ViewStateMachine::new();
    m.submit("6+5", 0);
    m.tick(STEP_INTERVAL_MS);
    assert!(m.needs_further_ticks());
    m.reset();
    assert_eq!(m.current_view, AppView::Calculator);
    assert!(m.session().is_none());
    assert_eq!(m.result_text().as_str(), "");
}

#[test]
fn reset_from_fresh_calculator_is_harmless() {
    let mut m = ViewStateMachine::new();
    m.reset();
    assert_eq!(m.current_view, AppView::Calculator);
    assert!(m.session().is_none());
    assert_eq!(m.result_text().as_str(), "");
}

#[test]
fn step_is_due_exactly_after_interval() {
    assert!(!is_step_due(0, STEP_INTERVAL_MS - 1, STEP_INTERVAL_MS));
    assert!(is_step_due(0, STEP_INTERVAL_MS, STEP_INTERVAL_MS));
    assert!(is_step_due(0, STEP_INTERVAL_MS + 1, STEP_INTERVAL_MS));
    assert!(is_step_due(1000, 1000 + STEP_INTERVAL_MS, STEP_INTERVAL_MS));
}

#[test]
fn step_is_not_due_when_clock_goes_backwards() {
    assert!(!is_step_due(1000, 500, STEP_INTERVAL_MS));
}

#[test]
fn cue_index_is_the_count() {
    assert_eq!(cue_for(1, 20), 1);
    assert_eq!(cue_for(10, 11), 10);
    assert_eq!(cue_for(20, 20), 20);
}
