use ingst::executor::{
    action_kind, begin_transfer, complete_event, file_done_event, file_started_event, outcome_of_finish, part_path,
    run_result, final_event, start_operation, starting_event, MAX_PARALLEL, tick_event, verify_copy, ActionKind, Dispatch, Dispatcher, FileOutcome, InFlight,
    RunTally, StepOutcome, TransferStep,
};
use ingst::types::IngestOperation;

fn op(action: &str, size: u64) -> IngestOperation {
    IngestOperation {
        source_path: "/cards/A/clip.mp4".to_string(),
        dest_path: "/library/2026/07/Cam/clip.mp4".to_string(),
        action: action.to_string(),
        size,
        capture_date: Some("2026-07-23T07:30:20".to_string()),
        device_name: "Cam".to_string(),
        hash: Some("fp".to_string()),
    }
}

/// Runs a transfer to its end, answering each step from `answer`.
fn run(is_move: bool, answer: &dyn Fn(&TransferStep) -> StepOutcome) -> (Vec<String>, Result<Option<String>, String>) {
    let (mut t, mut step) = begin_transfer(is_move, "/cards/A/clip.mp4", "/library/Cam/clip.mp4");
    let mut trace = Vec::new();
    loop {
        let name = match &step {
            TransferStep::CreateDir(d) => format!("mkdir {}", d),
            TransferStep::Rename { from, to } => format!("rename {} {}", from, to),
            TransferStep::CopyToPart { from, to } => format!("copy {} {}", from, to),
            TransferStep::HashFile(f) => format!("hash {}", f),
            TransferStep::Promote { from, to } => format!("promote {} {}", from, to),
            TransferStep::DiscardPart(f) => format!("discard {}", f),
            TransferStep::RemoveSource(f) => format!("remove {}", f),
            TransferStep::Finish(r) => return (trace, r.clone()),
        };
        trace.push(name);
        let ev = answer(&step);
        step = t.advance(ev);
    }
}

fn healthy(step: &TransferStep) -> StepOutcome {
    match step {
        TransferStep::CopyToPart { .. } | TransferStep::HashFile(_) => StepOutcome::Hashed("abc".to_string()),
        TransferStep::Rename { .. } => StepOutcome::Failed("cross-device link".to_string()),
        _ => StepOutcome::Done,
    }
}

#[test]
fn a_copy_is_verified_before_it_takes_its_name() {
    let (trace, r) = run(false, &healthy);
    assert_eq!(
        trace,
        vec![
            "mkdir /library/Cam",
            "copy /cards/A/clip.mp4 /library/Cam/clip.mp4.part",
            "hash /library/Cam/clip.mp4.part",
            "promote /library/Cam/clip.mp4.part /library/Cam/clip.mp4",
        ]
    );
    assert_eq!(r, Ok(Some("abc".to_string())));
}

#[test]
fn a_corrupt_copy_is_discarded_and_reported() {
    let answer = |step: &TransferStep| match step {
        TransferStep::CopyToPart { .. } => StepOutcome::Hashed("aaaa".to_string()),
        TransferStep::HashFile(_) => StepOutcome::Hashed("bbbb".to_string()),
        _ => StepOutcome::Done,
    };
    let (trace, r) = run(false, &answer);
    assert_eq!(trace.last().map(String::as_str), Some("discard /library/Cam/clip.mp4.part"));
    assert!(!trace.iter().any(|s| s.starts_with("promote")), "a mismatched copy never reaches its name");
    assert_eq!(r, Err("Checksum mismatch after copy — source: aaaa dest: bbbb".to_string()));
}

#[test]
fn a_move_within_a_volume_is_a_rename() {
    let answer = |_: &TransferStep| StepOutcome::Done;
    let (trace, r) = run(true, &answer);
    assert_eq!(trace, vec!["mkdir /library/Cam", "rename /cards/A/clip.mp4 /library/Cam/clip.mp4"]);
    assert_eq!(r, Ok(None));
}

#[test]
fn a_move_across_volumes_removes_the_source_only_after_verifying() {
    let (trace, r) = run(true, &healthy);
    assert_eq!(
        trace,
        vec![
            "mkdir /library/Cam",
            "rename /cards/A/clip.mp4 /library/Cam/clip.mp4",
            "copy /cards/A/clip.mp4 /library/Cam/clip.mp4.part",
            "hash /library/Cam/clip.mp4.part",
            "promote /library/Cam/clip.mp4.part /library/Cam/clip.mp4",
            "remove /cards/A/clip.mp4",
        ]
    );
    assert_eq!(r, Ok(Some("abc".to_string())));
}

#[test]
fn a_failed_step_ends_the_transfer_with_its_error() {
    let answer = |step: &TransferStep| match step {
        TransferStep::CopyToPart { .. } => StepOutcome::Failed("disk full".to_string()),
        _ => StepOutcome::Done,
    };
    let (trace, r) = run(false, &answer);
    assert_eq!(trace.len(), 2);
    assert_eq!(r, Err("disk full".to_string()));
}

#[test]
fn actions_and_part_files() {
    assert_eq!(action_kind("skip"), ActionKind::Skip);
    assert_eq!(action_kind("copy"), ActionKind::Copy);
    assert_eq!(action_kind("move"), ActionKind::Move);
    assert_eq!(action_kind("COPY"), ActionKind::Other);
    assert_eq!(part_path("/l/a.mp4"), "/l/a.mp4.part");
    assert_eq!(verify_copy("ab", "ab"), Ok(()));
    assert!(verify_copy("ab", "cd").is_err());
}

#[test]
fn every_operation_is_counted_once() {
    let mut tally = RunTally::new();
    tally.record(&op("copy", 100), outcome_of_finish(Ok(Some("whole".to_string()))));
    tally.record(&op("skip", 50), FileOutcome::Skipped);
    tally.record(&op("copy", 70), outcome_of_finish(Err("disk full".to_string())));
    assert_eq!(tally.success_count, 1);
    assert_eq!(tally.skipped_count, 1, "skips are not successes");
    assert_eq!(tally.error_count, 1);
    assert_eq!(tally.completed, 3);
    assert_eq!(tally.bytes_copied, 100, "only transferred bytes count");
    assert_eq!(tally.errors, vec!["/cards/A/clip.mp4: disk full".to_string()]);
    assert_eq!(tally.log_entries.len(), 3, "one log entry per operation");
    assert_eq!(tally.log_entries[0].status, "success");
    assert_eq!(tally.log_entries[0].full_hash.as_deref(), Some("whole"));
    assert_eq!(tally.log_entries[1].status, "skipped");
    assert_eq!(tally.log_entries[2].status, "error");
    assert_eq!(tally.log_entries[2].error.as_deref(), Some("disk full"));
}

#[test]
fn cancelling_reports_what_never_started() {
    let mut d = Dispatcher::new(5);
    assert_eq!(d.decide(false, false), Dispatch::Start);
    assert_eq!(d.decide(false, true), Dispatch::Wait, "paused");
    assert_eq!(d.decide(false, false), Dispatch::Start);
    assert_eq!(d.in_flight(), 2);
    assert_eq!(d.decide(true, true), Dispatch::Stop, "a cancel wins over a pause");
    assert!(d.is_over());
    assert_eq!(d.decide(false, false), Dispatch::Stop, "nothing starts after a stop");
    d.finish();
    d.finish();
    let mut tally = RunTally::new();
    tally.record(&op("copy", 10), FileOutcome::Transferred(None));
    tally.record(&op("skip", 10), FileOutcome::Skipped);
    let r = run_result(tally, "/l/.ingst/logs/x.json".to_string(), &d);
    assert!(r.cancelled);
    assert_eq!(r.remaining_count, 3);
    assert_eq!(r.success_count + r.skipped_count + r.error_count + r.remaining_count, 5);
    let end = final_event(&d, 2, 10, 100, 1);
    assert_eq!((end.status.as_str(), end.current_file.as_str(), end.current_index), ("cancelled", "Cancelled", 2));

    let mut all = Dispatcher::new(1);
    assert_eq!(all.decide(false, false), Dispatch::Start);
    assert!(all.is_over());
    all.finish();
    let mut one = RunTally::new();
    one.record(&op("copy", 10), FileOutcome::Transferred(None));
    let done = run_result(one, String::new(), &all);
    assert!(!done.cancelled);
    assert_eq!(done.remaining_count, 0);
    assert_eq!(final_event(&all, 1, 10, 10, 1).status, "complete");
}

#[test]
fn at_most_four_operations_run_at_once() {
    let mut d = Dispatcher::new(10);
    for _ in 0..MAX_PARALLEL {
        assert_eq!(d.decide(false, false), Dispatch::Start);
    }
    assert_eq!(d.decide(false, false), Dispatch::Wait, "every slot is busy");
    d.finish();
    assert_eq!(d.decide(false, false), Dispatch::Start, "a slot came free");
    assert_eq!(d.in_flight(), MAX_PARALLEL);
}

#[test]
fn progress_events() {
    let s = starting_event(3, 1000);
    assert_eq!((s.current_file.as_str(), s.status.as_str(), s.total, s.total_bytes), ("Starting...", "starting", 3, 1000));
    let skip = op("skip", 50);
    let started = file_started_event(&skip, 1, 3, 10, 1000, 2);
    assert_eq!(started.current_file_total, 0, "nothing is written for a skip");
    let copy = op("copy", 70);
    let done = file_done_event(&copy, 2, 3, 80, 1000, 3);
    assert_eq!((done.current_index, done.current_file_bytes, done.current_file_total), (2, 70, 70));
    let c = complete_event(3, 1000, 1000, 9);
    assert_eq!((c.current_file.as_str(), c.status.as_str(), c.current_index), ("Complete", "complete", 3));
}

#[test]
fn the_largest_file_in_flight_is_shown() {
    assert!(tick_event(&vec![], 0, 3, 0, 100, 0).is_none());
    let fl = vec![
        InFlight { path: "/a".to_string(), written: 5, size: 50 },
        InFlight { path: "/b".to_string(), written: 7, size: 90 },
        InFlight { path: "/c".to_string(), written: 1, size: 10 },
    ];
    let e = tick_event(&fl, 1, 4, 100, 1000, 5).unwrap();
    assert_eq!(e.current_file, "/b");
    assert_eq!(e.bytes_copied, 113, "finished bytes plus what is written so far");
    assert_eq!((e.current_file_bytes, e.current_file_total), (7, 90));
}

#[test]
fn an_operation_starts_by_its_action() {
    assert!(matches!(start_operation(&op("skip", 10)), Err(FileOutcome::Skipped)));
    assert!(matches!(start_operation(&op("archive", 10)), Err(FileOutcome::Skipped)));
    match start_operation(&op("move", 10)) {
        Ok((t, TransferStep::CreateDir(d))) => {
            assert!(t.is_move);
            assert_eq!(d, "/library/2026/07/Cam");
        }
        _ => panic!("a move starts a transfer"),
    }
    match start_operation(&op("copy", 10)) {
        Ok((t, _)) => assert!(!t.is_move),
        _ => panic!("a copy starts a transfer"),
    }
}

#[test]
fn bytes_copied_count_only_transfers() {
    let mut t = RunTally::new();
    t.record(&op("copy", 100), FileOutcome::Transferred(None));
    t.record(&op("skip", 50), FileOutcome::Skipped);
    t.record(&op("copy", 30), FileOutcome::Failed("disk full".to_string()));
    assert_eq!(t.bytes_copied, 100);
}
