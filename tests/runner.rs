use pts_bot::runner::{profile_name, select_tests, summary, Batch, TestExecution, TestResult};

fn names(v: &[&str]) -> Vec<String> {
    v.iter().map(|s| s.to_string()).collect()
}

#[test]
fn verdicts_map_to_results() {
    assert!(matches!(TestResult::from_verdict(Some("PASS".to_owned())), Ok(TestResult::Pass)));
    assert!(matches!(TestResult::from_verdict(Some("FAIL".to_owned())), Ok(TestResult::Fail)));
    assert!(matches!(
        TestResult::from_verdict(Some("INCONC".to_owned())),
        Ok(TestResult::Inconclusive)
    ));
    assert!(matches!(TestResult::from_verdict(Some("NONE".to_owned())), Ok(TestResult::NoVerdict)));
    assert!(matches!(TestResult::from_verdict(None), Ok(TestResult::NoVerdict)));
    match TestResult::from_verdict(Some("ERROR".to_owned())) {
        Err(e) => assert_eq!(e.0, "ERROR"),
        Ok(_) => panic!(),
    }
    match TestResult::from_outcome(Err("Timeout".to_owned())) {
        Ok(TestResult::Error(m)) => assert_eq!(m, "Timeout"),
        _ => panic!(),
    }
}

#[test]
fn tests_are_selected_by_prefix_and_skip() {
    let tests = names(&["A2DP/SRC/1", "A2DP/SNK/2", "A2DP/SRC/3", "AVRCP/1"]);
    assert_eq!(
        select_tests(&tests, "A2DP/SRC", &names(&["A2DP/SRC/3"])),
        names(&["A2DP/SRC/1"])
    );
    assert_eq!(select_tests(&tests, "A2DP", &vec![]), names(&["A2DP/SRC/1", "A2DP/SNK/2", "A2DP/SRC/3"]));
    assert_eq!(profile_name("A2DP/SRC/AS"), "A2DP");
    assert_eq!(profile_name("AVRCP"), "AVRCP");
}

#[test]
fn cancelled_batch_fills_with_no_verdict() {
    let tests = names(&["t1", "t2", "t3", "t4", "t5"]);
    let mut batch = Batch::new(tests, false);
    assert_eq!(batch.next_test(), Some("t1".to_owned()));
    batch.record(TestResult::Pass);
    assert_eq!(batch.next_test(), Some("t2".to_owned()));
    batch.record(TestResult::Fail);
    batch.cancel();
    assert_eq!(batch.next_test(), None);
    let results = batch.finish();
    let got: Vec<(String, String)> =
        results.iter().map(|e| (e.name.clone(), format!("{:?}", e.result))).collect();
    assert_eq!(
        got,
        vec![
            ("t1".to_owned(), "Pass".to_owned()),
            ("t2".to_owned(), "Fail".to_owned()),
            ("t3".to_owned(), "NoVerdict".to_owned()),
            ("t4".to_owned(), "NoVerdict".to_owned()),
            ("t5".to_owned(), "NoVerdict".to_owned()),
        ]
    );
}

#[test]
fn fail_fast_stops_after_first_non_pass() {
    let mut batch = Batch::new(names(&["t1", "t2", "t3"]), true);
    batch.record(TestResult::Pass);
    assert_eq!(batch.next_test(), Some("t2".to_owned()));
    batch.record(TestResult::Error("Timeout".to_owned()));
    assert_eq!(batch.next_test(), None);
    let results = batch.finish();
    assert!(matches!(results[1].result, TestResult::Error(_)));
    assert!(matches!(results[2].result, TestResult::NoVerdict));
}

#[test]
fn summary_counts() {
    let results = vec![
        TestExecution { name: "a".to_owned(), result: TestResult::Pass },
        TestExecution { name: "b".to_owned(), result: TestResult::Fail },
        TestExecution { name: "c".to_owned(), result: TestResult::Pass },
        TestExecution { name: "d".to_owned(), result: TestResult::Inconclusive },
        TestExecution { name: "e".to_owned(), result: TestResult::NoVerdict },
    ];
    let s = summary(&results);
    assert_eq!((s.total, s.passed, s.failed, s.inconclusive), (5, 2, 1, 1));
}
