//! Tests of the text helpers, the cache file format, the file naming,
//! the batching policy and the retry policy.

use reudh::cache::CacheWriter;
use reudh::errors::{Error, ErrorKind};
use reudh::progress::ProgressTracker;
use reudh::records::{parse_batch, render_batch, Record};
use reudh::retry::{resolve_attempts, AttemptOutcome, RetryState};
use reudh::text::{first_token, parse_u64, to_decimal};
use reudh::worker::Worker;

fn rec(term: &str, text: &str) -> Record {
    Record { term: term.to_owned(), text: text.to_owned() }
}

#[test]
fn decimal_renders() {
    assert_eq!(to_decimal(0), "0");
    assert_eq!(to_decimal(7), "7");
    assert_eq!(to_decimal(305), "305");
    assert_eq!(to_decimal(u64::MAX), "18446744073709551615");
}

#[test]
fn decimal_parses() {
    assert_eq!(parse_u64("0"), Some(0));
    assert_eq!(parse_u64("305"), Some(305));
    assert_eq!(parse_u64("18446744073709551615"), Some(u64::MAX));
    assert_eq!(parse_u64("18446744073709551616"), None);
    assert_eq!(parse_u64(""), None);
    assert_eq!(parse_u64("12a"), None);
    assert_eq!(parse_u64("-3"), None);
    assert_eq!(parse_u64(" 3"), None);
}

#[test]
fn first_token_splits() {
    assert_eq!(first_token("1234 words found"), "1234");
    assert_eq!(first_token("solo"), "solo");
    assert_eq!(first_token(""), "");
    assert_eq!(first_token(" leading"), "");
}

#[test]
fn batch_renders_delimited() {
    let batch = vec![rec("apple", "a fruit"), rec("ant", "an insect")];
    assert_eq!(render_batch(&batch), "apple\na fruit\n*\nant\nan insect");
}

#[test]
fn single_record_renders_without_separator() {
    let batch = vec![rec("axe", "a tool")];
    assert_eq!(render_batch(&batch), "axe\na tool");
}

#[test]
fn round_trip_preserves_records() {
    let batch = vec![
        rec("apple", "a fruit\nwith several lines"),
        rec("ant", ""),
        rec("axe", "* not alone on its line"),
    ];
    let parsed = parse_batch(&render_batch(&batch));
    assert_eq!(parsed.len(), batch.len());
    for (a, b) in batch.iter().zip(parsed.iter()) {
        assert_eq!(a.term, b.term);
        assert_eq!(a.text, b.text);
    }
}

#[test]
fn parse_splits_on_separator_lines() {
    let parsed = parse_batch("one\nfirst\n*\ntwo\nsecond line\nmore");
    assert_eq!(parsed.len(), 2);
    assert_eq!(parsed[0].term, "one");
    assert_eq!(parsed[0].text, "first");
    assert_eq!(parsed[1].term, "two");
    assert_eq!(parsed[1].text, "second line\nmore");
}

#[test]
fn writer_skips_empty_batches() {
    let mut writer = CacheWriter::new(3);
    assert!(writer.write_batch(&Vec::new()).is_none());
    assert_eq!(writer.files_written, 0);
}

#[test]
fn writer_names_have_the_documented_shape() {
    let mut writer = CacheWriter::new(7);
    let file = writer.write_batch(&vec![rec("apple", "a fruit")]).unwrap();
    let name: Vec<char> = file.name.chars().collect();
    assert_eq!(name.len(), 32 + 1 + 1 + 1 + 1);
    assert!(name[..32].iter().all(|c| c.is_ascii_hexdigit() && !c.is_ascii_uppercase()));
    assert_eq!(name[32], '-');
    assert_eq!(name[33], '7');
    assert_eq!(name[34], '-');
    assert_eq!(name[35], '0');
    assert_eq!(file.contents, "apple\na fruit");
}

#[test]
fn writer_names_stay_distinct_across_writers() {
    let mut names = Vec::new();
    for id in 0..5u64 {
        let mut writer = CacheWriter::new(id);
        for _ in 0..3 {
            let file = writer.write_batch(&vec![rec("term", "text")]).unwrap();
            names.push(file.name);
        }
    }
    for i in 0..names.len() {
        for j in 0..i {
            assert_ne!(names[i], names[j]);
        }
    }
}

#[test]
fn worker_holds_less_than_threshold() {
    let mut worker = Worker::new(0, 3);
    assert!(worker.accept_records(vec![rec("a", "1"), rec("b", "2")]).is_none());
    assert_eq!(worker.batch.len(), 2);
    let file = worker.accept_records(vec![rec("c", "3")]).unwrap();
    assert_eq!(worker.batch.len(), 0);
    assert_eq!(file.contents, "a\n1\n*\nb\n2\n*\nc\n3");
}

#[test]
fn worker_flushes_remainder_on_finish() {
    let mut worker = Worker::new(0, 10);
    assert!(worker.accept_records(vec![rec("a", "1")]).is_none());
    let file = worker.finish().unwrap();
    assert_eq!(file.contents, "a\n1");
    assert!(worker.finish().is_none());
}

#[test]
fn retry_stops_at_first_success() {
    let outcomes = vec![
        AttemptOutcome::Transport,
        AttemptOutcome::BadStatus(500),
        AttemptOutcome::Success,
        AttemptOutcome::Success,
        AttemptOutcome::Success,
    ];
    assert_eq!(resolve_attempts(&outcomes, 5).unwrap(), 2);
}

#[test]
fn retry_reports_first_status_not_last() {
    let outcomes = vec![
        AttemptOutcome::Transport,
        AttemptOutcome::BadStatus(503),
        AttemptOutcome::BadStatus(404),
        AttemptOutcome::Transport,
        AttemptOutcome::BadStatus(500),
    ];
    let err = resolve_attempts(&outcomes, 5).unwrap_err();
    assert!(matches!(err.kind, ErrorKind::Fetch { status: Some(503) }));
}

#[test]
fn retry_without_status_reports_none() {
    let outcomes = vec![AttemptOutcome::Transport; 5];
    let err = resolve_attempts(&outcomes, 5).unwrap_err();
    assert!(matches!(err.kind, ErrorKind::Fetch { status: None }));
}

#[test]
fn retry_never_looks_past_the_bound() {
    let outcomes = vec![
        AttemptOutcome::BadStatus(500),
        AttemptOutcome::BadStatus(500),
        AttemptOutcome::Success,
    ];
    let err = resolve_attempts(&outcomes, 2).unwrap_err();
    assert!(matches!(err.kind, ErrorKind::Fetch { status: Some(500) }));
}

#[test]
fn round_trip_keeps_duplicate_terms() {
    let batch = vec![rec("set", "first sense"), rec("set", "second sense")];
    let parsed = parse_batch(&render_batch(&batch));
    assert_eq!(parsed.len(), 2);
    assert_eq!(parsed[0].term, "set");
    assert_eq!(parsed[0].text, "first sense");
    assert_eq!(parsed[1].term, "set");
    assert_eq!(parsed[1].text, "second sense");
}

#[test]
fn error_constructors_set_their_kinds() {
    assert!(matches!(Error::new("broken page").kind, ErrorKind::Extraction));
    assert_eq!(Error::new("broken page").message(), "broken page");
    assert!(matches!(Error::discovery("no pagination").kind, ErrorKind::Discovery));
    assert!(matches!(Error::fetch(Some(418)).kind, ErrorKind::Fetch { status: Some(418) }));
    assert!(matches!(Error::fetch(None).kind, ErrorKind::Fetch { status: None }));
    assert!(matches!(Error::io("disk full").kind, ErrorKind::Io));
    assert!(matches!(Error::thread("worker gone").kind, ErrorKind::Thread));
}

#[test]
fn progress_starts_indeterminate() {
    let mut progress = ProgressTracker::new();
    assert_eq!(progress.total, None);
    assert_eq!(progress.completed, 0);
    progress.inc();
    progress.inc();
    progress.set_total(14);
    assert_eq!(progress.total, Some(14));
    assert_eq!(progress.completed, 2);
}

#[test]
fn retry_state_remembers_first_status() {
    let mut state = RetryState::new(5);
    assert!(state.should_attempt());
    state.note_failure(&AttemptOutcome::Transport);
    state.note_failure(&AttemptOutcome::BadStatus(429));
    state.note_failure(&AttemptOutcome::BadStatus(500));
    assert_eq!(state.first_status, Some(429));
}
