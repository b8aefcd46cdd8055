use megenginelite_rs::PollOutcome;
use megenginelite_rs::State;

#[test]
fn poll_suspends_then_callback_delivers_once() {
    let mut st = State::new();
    assert_eq!(st.poll(1), PollOutcome::Pending);
    // a second poll before completion re-registers and suspends again
    assert_eq!(st.poll(2), PollOutcome::Pending);
    // the callback wakes the most recently registered continuation
    assert_eq!(st.signal(9), Some(2));
    assert_eq!(st.poll(3), PollOutcome::Ready(9));
    // polling after consumption is a detectable misuse
    assert_eq!(st.poll(3), PollOutcome::Consumed);
    assert_eq!(st.poll(4), PollOutcome::Consumed);
}

#[test]
fn callback_before_first_poll_is_immediate() {
    let mut st = State::new();
    assert_eq!(st.signal(0), None);
    assert_eq!(st.poll(1), PollOutcome::Ready(0));
}

#[test]
fn race_callback_between_check_and_register() {
    // replay one poll at the granularity of its atomic steps, with the
    // callback firing right after the first flag check
    let mut st = State::new();
    assert!(!st.is_finished()); // the poll's first check: not finished
    assert_eq!(st.signal(5), None); // callback fires; nothing registered yet
    st.register(7); // the poll registers anyway
    assert!(st.is_finished()); // the mandatory re-check sees the callback
    assert_eq!(st.try_consume(), Some(5)); // same poll delivers; no hang
    assert_eq!(st.poll(8), PollOutcome::Consumed);
}

#[test]
fn race_callback_between_register_and_recheck() {
    let mut st = State::new();
    assert!(!st.is_finished());
    st.register(7);
    assert_eq!(st.signal(5), Some(7)); // callback wakes the registered task
    assert!(st.is_finished()); // the re-check delivers on this same poll
    assert_eq!(st.try_consume(), Some(5));
}

#[test]
fn failure_status_is_surfaced_not_lost() {
    let mut st = State::new();
    assert_eq!(st.poll(1), PollOutcome::Pending);
    assert_eq!(st.signal(-3), Some(1));
    assert_eq!(st.poll(1), PollOutcome::Ready(-3));
}

#[test]
fn reset_makes_the_cell_reusable() {
    let mut st = State::new();
    st.signal(4);
    assert_eq!(st.poll(1), PollOutcome::Ready(4));
    st.reset();
    assert_eq!(st.poll(1), PollOutcome::Pending);
    assert_eq!(st.signal(6), Some(1));
    assert_eq!(st.poll(1), PollOutcome::Ready(6));
}

#[test]
fn default_cell_is_pending() {
    let mut st = State::default();
    assert!(!st.is_finished());
    assert!(!st.is_consumed());
    assert_eq!(st.poll(1), PollOutcome::Pending);
}

#[test]
fn try_consume_before_completion_is_none() {
    let mut st = State::new();
    assert_eq!(st.try_consume(), None);
    st.signal(2);
    assert_eq!(st.try_consume(), Some(2));
    assert_eq!(st.try_consume(), None);
}
