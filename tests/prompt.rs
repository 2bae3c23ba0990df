use playlist_fetch::partition::{PartitionError, Range};
use playlist_fetch::prompt::{
    affirmative, answer_or, ask_if_format, chosen_format, count_from_output, download_range,
    format_confirmed, is_single_char, number_from_line, received, to_boolean, worker_count,
    PromptOutcome,
};

fn got(s: &str) -> PromptOutcome {
    PromptOutcome::Received(s.to_string())
}

#[test]
fn received_line_is_trimmed() {
    assert_eq!(received("  hello world \n"), got("hello world"));
    assert_eq!(received("\n"), got(""));
}

#[test]
fn timeout_takes_the_default_and_empty_stays_empty() {
    assert_eq!(answer_or(&PromptOutcome::TimedOut, "y"), "y");
    assert_eq!(answer_or(&got(""), "y"), "");
    assert_eq!(answer_or(&got("n"), "y"), "n");
}

#[test]
fn to_boolean_reads_y_only() {
    assert!(to_boolean("y"));
    assert!(to_boolean(" Y \n"));
    assert!(!to_boolean("n"));
    assert!(!to_boolean("yes"));
    assert!(!to_boolean(""));
}

#[test]
fn single_char_check() {
    assert!(is_single_char("y", 'y'));
    assert!(!is_single_char("Y", 'y'));
    assert!(!is_single_char("yy", 'y'));
    assert!(!is_single_char("", 'y'));
}

#[test]
fn yes_no_questions_default_to_yes() {
    assert!(affirmative(&PromptOutcome::TimedOut));
    assert!(affirmative(&got("Y")));
    assert!(!affirmative(&got("n")));
    assert!(!affirmative(&got("")));
    assert!(ask_if_format(&PromptOutcome::TimedOut));
    assert!(!ask_if_format(&got("N")));
}

#[test]
fn format_defaults_to_eighteen() {
    assert_eq!(chosen_format(&PromptOutcome::TimedOut), "18");
    assert_eq!(chosen_format(&got("")), "18");
    assert_eq!(chosen_format(&got("137+140")), "137+140");
}

#[test]
fn only_n_rejects_a_format() {
    assert!(format_confirmed(&PromptOutcome::TimedOut));
    assert!(format_confirmed(&got("")));
    assert!(format_confirmed(&got("y")));
    assert!(!format_confirmed(&got("n")));
    assert!(!format_confirmed(&got("N")));
}

#[test]
fn count_output_parses_or_is_zero() {
    assert_eq!(count_from_output("42\n"), 42);
    assert_eq!(count_from_output("  +7 "), 7);
    assert_eq!(count_from_output("NA\n"), 0);
    assert_eq!(count_from_output(""), 0);
    assert_eq!(count_from_output("-3"), 0);
    assert_eq!(count_from_output("99999999999999999999999999"), 0);
}

#[test]
fn number_falls_back_to_default() {
    assert_eq!(number_from_line(" 12 ", 3), 12);
    assert_eq!(number_from_line("x", 3), 3);
}

#[test]
fn download_range_defaults_and_rejections() {
    assert_eq!(download_range(10, "", ""), Ok(Range::new(0, 9)));
    assert_eq!(download_range(10, "3", "5"), Ok(Range::new(3, 5)));
    assert_eq!(download_range(10, "6", "5"), Err(PartitionError::InvalidRange));
    assert_eq!(download_range(0, "", ""), Err(PartitionError::InvalidRange));
}

#[test]
fn worker_count_is_at_least_one() {
    assert_eq!(worker_count("4", 10), 4);
    assert_eq!(worker_count("", 10), 5);
    assert_eq!(worker_count("", 1), 1);
    assert_eq!(worker_count("0", 10), 1);
}
