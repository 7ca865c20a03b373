use web2pdf::batch::{
    normalize_location, pair_arguments, task_steps, BatchTally, TaskOutcome, TaskStep,
    UNPAIRED_EXIT_CODE,
};

fn args(v: &[&str]) -> Vec<String> {
    v.iter().map(|s| s.to_string()).collect()
}

#[test]
fn second_render_failing_gives_exit_one() {
    let pairs =
        pair_arguments(&args(&["https://a.test", "/tmp/a.pdf", "https://b.test", "/tmp/b.pdf"]))
            .unwrap();
    assert_eq!(pairs.len(), 2);
    assert_eq!(pairs[0].url, "https://a.test");
    assert_eq!(pairs[0].path, "/tmp/a.pdf");
    assert_eq!(pairs[1].url, "https://b.test");
    assert_eq!(pairs[1].path, "/tmp/b.pdf");
    let mut tally = BatchTally::new(pairs.len());
    assert!(tally.record(&TaskOutcome::new(1, Some("render failed for https://b.test".to_string()))));
    assert!(!tally.is_complete());
    assert!(tally.record(&TaskOutcome::new(0, None)));
    assert!(tally.is_complete());
    assert_eq!(tally.exit_code(), 1);
}

#[test]
fn exit_code_does_not_depend_on_order() {
    let outcomes = [(0usize, true), (1, false), (2, false), (3, true)];
    let mut forward = BatchTally::new(4);
    for (i, ok) in outcomes.iter() {
        let err = if *ok { None } else { Some("failed".to_string()) };
        assert!(forward.record(&TaskOutcome::new(*i, err)));
    }
    let mut backward = BatchTally::new(4);
    for (i, ok) in outcomes.iter().rev() {
        let err = if *ok { None } else { Some("failed".to_string()) };
        assert!(backward.record(&TaskOutcome::new(*i, err)));
    }
    assert_eq!(forward.exit_code(), 2);
    assert_eq!(backward.exit_code(), 2);
    assert!(forward.is_complete() && backward.is_complete());
}

#[test]
fn duplicate_and_unknown_reports_are_refused() {
    let mut tally = BatchTally::new(2);
    assert!(tally.record(&TaskOutcome::new(0, Some("x".to_string()))));
    assert!(!tally.record(&TaskOutcome::new(0, Some("again".to_string()))));
    assert!(!tally.record(&TaskOutcome::new(5, Some("unknown".to_string()))));
    assert_eq!(tally.exit_code(), 1);
    assert!(!tally.is_complete());
}

#[test]
fn empty_batch_is_complete() {
    let tally = BatchTally::new(0);
    assert!(tally.is_complete());
    assert_eq!(tally.exit_code(), 0);
    assert!(pair_arguments(&Vec::new()).unwrap().is_empty());
}

#[test]
fn odd_argument_count_is_refused() {
    let err = pair_arguments(&args(&["https://a.test", "/tmp/a.pdf", "https://b.test"])).unwrap_err();
    assert_eq!(err.argument, "https://b.test");
    assert_eq!(err.exit_code(), 1);
    assert_eq!(UNPAIRED_EXIT_CODE, 1);
    assert!(pair_arguments(&args(&["only"])).is_err());
}

#[test]
fn outcome_constructor() {
    let ok = TaskOutcome::new(3, None);
    assert!(ok.success);
    assert_eq!(ok.index, 3);
    let bad = TaskOutcome::new(4, Some("e".to_string()));
    assert!(!bad.success);
    assert_eq!(bad.error.as_deref(), Some("e"));
}

#[test]
fn locations_of_files_become_urls() {
    assert_eq!(normalize_location("/tmp/page.html".to_string(), true), "file:///tmp/page.html");
    assert_eq!(normalize_location("https://a.test".to_string(), false), "https://a.test");
}

#[test]
fn steps_of_a_task() {
    assert_eq!(task_steps(false, false), vec![TaskStep::OpenPage, TaskStep::Render, TaskStep::ClosePage]);
    assert_eq!(
        task_steps(true, true),
        vec![
            TaskStep::OpenPage,
            TaskStep::EmulateScreen,
            TaskStep::MeasureLayout,
            TaskStep::Render,
            TaskStep::ClosePage
        ]
    );
    assert_eq!(
        task_steps(false, true),
        vec![TaskStep::OpenPage, TaskStep::MeasureLayout, TaskStep::Render, TaskStep::ClosePage]
    );
}
