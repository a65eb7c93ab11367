use gh_pilot::status::{can_strip, content_hash, detect_status, strip_ansi, SessionStatus};

#[test]
fn detects_busy_before_prompt() {
    let content = "❯ previous prompt\n⠋ Thinking... ctrl+c to interrupt";
    assert_eq!(
        detect_status(content, false, false, false),
        SessionStatus::Busy
    );
}

#[test]
fn prompt_history_does_not_mark_active_output_done() {
    let content = "What would you like to do?\n❯ explain this file\nReading file src/main.rs";
    assert_eq!(
        detect_status(content, false, false, false),
        SessionStatus::Busy
    );
}

#[test]
fn prompt_history_without_recent_activity_is_idle() {
    let content = "What would you like to do?\n❯ explain this file\nSummary output";
    assert_eq!(
        detect_status(content, false, false, false),
        SessionStatus::Idle
    );
}

#[test]
fn detects_input_prompt_as_waiting() {
    assert_eq!(
        detect_status("What would you like to do?\n❯", false, false, false),
        SessionStatus::Waiting
    );
    assert_eq!(
        detect_status("What would you like to do?\n❯", false, false, true),
        SessionStatus::Waiting
    );
}

#[test]
fn detects_attention_prompt() {
    assert_eq!(
        detect_status("Run this command?\n❯ Yes", false, false, false),
        SessionStatus::Waiting
    );
}

#[test]
fn detects_activity_as_busy() {
    assert_eq!(
        detect_status("summary output", true, true, false),
        SessionStatus::Busy
    );
    assert_eq!(
        detect_status("summary output", true, false, false),
        SessionStatus::Busy
    );
    assert_eq!(
        detect_status("summary output", false, true, false),
        SessionStatus::Busy
    );
}

#[test]
fn static_token_counts_are_not_busy() {
    assert_eq!(
        detect_status("Done. 1200 tokens used.", false, false, false),
        SessionStatus::Idle
    );
}

#[test]
fn strips_ansi_sequences() {
    assert_eq!(strip_ansi("\x1b[31mhello\x1b[0m"), "hello");
}

#[test]
fn stripping_twice_changes_nothing() {
    let once = strip_ansi("a\x1b]0;title\x07b\x1b[2Kc\r\n");
    assert_eq!(strip_ansi(&once), once);
    assert!(!once.contains('\x1b'));
    assert_eq!(strip_ansi("plain text"), "plain text");
    assert!(can_strip("plain text"));
}

#[test]
fn the_hash_ignores_colours_and_outer_space() {
    assert_eq!(content_hash("\x1b[31mhello\x1b[0m\n"), content_hash("hello"));
    assert_ne!(content_hash("hello"), content_hash("hallo"));
}

#[test]
fn capital_letters_are_read_as_small_ones() {
    assert_eq!(
        detect_status("PRESS ESC TO INTERRUPT", false, false, false),
        SessionStatus::Busy
    );
}

#[test]
fn labels_name_their_status() {
    for status in [
        SessionStatus::Waiting,
        SessionStatus::Done,
        SessionStatus::Busy,
        SessionStatus::Idle,
    ] {
        assert_eq!(SessionStatus::from_label(status.label()), status);
    }
    assert_eq!(SessionStatus::from_label("unknown"), SessionStatus::Idle);
    assert_eq!(SessionStatus::Waiting.sort_rank(), 0);
    assert_eq!(SessionStatus::Idle.sort_rank(), 3);
}
