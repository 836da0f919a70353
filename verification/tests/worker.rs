use quafu_worker::engine::{engine_arguments, output_prefix, scratch_path, scratch_paths, ScratchFile};
use quafu_worker::lifecycle::{advance, Action, Event, Phase};
use quafu_worker::service::{base_address, result_url, task_url};
use quafu_worker::task::{
    aggregate_response, diagnostics, execution_response, failed_response, finished_response,
    list_string, prepare, push_measure_statement, succeeded, task_from_fields, QuafuTask,
    RunOutcome,
};
use quafu_worker::text::{
    chars_of, contains_word, decimal_string, push_decimal, push_digit, zeros,
};

fn task(qubits: u32, circuit: &str, shots: u32) -> QuafuTask {
    QuafuTask::new(qubits, circuit.to_string(), shots, "t42".to_string())
}

#[test]
fn new_keeps_its_arguments() {
    let t = QuafuTask::new(5, "h q[0];".to_string(), 1000, "abc".to_string());
    assert_eq!(t.qubits, 5);
    assert_eq!(t.circuit, "h q[0];");
    assert_eq!(t.shots, 1000);
    assert_eq!(t.task_id, "abc");
}

#[test]
fn source_without_measurement_gets_one_per_qubit() {
    let mut t = task(2, "qreg q[2];\nh q[0];", 10);
    prepare(&mut t);
    assert_eq!(
        t.circuit,
        "qreg q[2];\nh q[0];\r\nmeasure q[0] -> c[0];\r\nmeasure q[1] -> c[1];"
    );
    assert_eq!(t.qubits, 2);
    assert_eq!(t.shots, 10);
    assert_eq!(t.task_id, "t42");
}

#[test]
fn measurements_come_in_ascending_order() {
    let mut t = task(12, "", 1);
    prepare(&mut t);
    let mut expected = String::new();
    for q in 0..12 {
        expected.push_str(&format!("\r\nmeasure q[{}] -> c[{}];", q, q));
    }
    assert_eq!(t.circuit, expected);
    assert_eq!(t.circuit.matches("measure").count(), 12);
}

#[test]
fn source_with_measurement_stays() {
    let source = "h q[0];\nmeasure q[0] -> c[0];";
    let mut t = task(3, source, 10);
    prepare(&mut t);
    assert_eq!(t.circuit, source);
    let mut u = task(3, "// no measure here", 10);
    prepare(&mut u);
    assert_eq!(u.circuit, "// no measure here");
}

#[test]
fn source_of_no_qubits_stays() {
    let mut t = task(0, "h q[0];", 10);
    prepare(&mut t);
    assert_eq!(t.circuit, "h q[0];");
}

#[test]
fn measure_statement_text() {
    let mut s = "x".to_string();
    push_measure_statement(&mut s, 7);
    assert_eq!(s, "x\r\nmeasure q[7] -> c[7];");
    push_measure_statement(&mut s, u32::MAX);
    assert_eq!(s, "x\r\nmeasure q[7] -> c[7];\r\nmeasure q[4294967295] -> c[4294967295];");
}

#[test]
fn decimal_text() {
    assert_eq!(decimal_string(0), "0");
    assert_eq!(decimal_string(9), "9");
    assert_eq!(decimal_string(10), "10");
    assert_eq!(decimal_string(1234567890), "1234567890");
    assert_eq!(decimal_string(usize::MAX), usize::MAX.to_string());
    let mut s = "n=".to_string();
    push_decimal(&mut s, 405);
    assert_eq!(s, "n=405");
    push_digit(&mut s, 0);
    push_digit(&mut s, 9);
    assert_eq!(s, "n=40509");
}

#[test]
fn zeros_and_characters() {
    assert_eq!(zeros(0), "");
    assert_eq!(zeros(3), "000");
    assert_eq!(chars_of("aé\n"), vec!['a', 'é', '\n']);
    assert_eq!(chars_of(""), Vec::<char>::new());
}

#[test]
fn words_are_found_where_they_stand() {
    let find = |text: &str, word: &str| contains_word(&chars_of(text), &chars_of(word));
    assert!(find("measure", "measure"));
    assert!(find("xmeasure", "measure"));
    assert!(find("measurex", "measure"));
    assert!(find("meameasure", "measure"));
    assert!(!find("measur", "measure"));
    assert!(!find("measur e", "measure"));
    assert!(!find("", "measure"));
    assert!(find("", ""));
    assert!(find("abc", ""));
    assert!(!find("Measure", "measure"));
}

#[test]
fn lists_are_written_as_debug_writes_them() {
    assert_eq!(list_string(&vec![]), "[]");
    assert_eq!(list_string(&vec![0]), "[0]");
    assert_eq!(list_string(&vec![0, 1, 2]), "[0, 1, 2]");
    let v: Vec<usize> = vec![10, 0, 345, usize::MAX];
    assert_eq!(list_string(&v), format!("{:?}", v));
}

#[test]
fn exit_code_one_is_a_failure_without_diagnostics() {
    let t = task(2, "h q[0];", 10);
    let outcome = RunOutcome::Exited { code: Some(1) };
    assert!(!succeeded(&outcome));
    assert_eq!(diagnostics(&outcome), "");
    let r = execution_response(&t, &outcome, 7);
    assert_eq!(r.task_id, "t42");
    assert_eq!(r.status, "failed");
    assert_eq!(r.measure, "");
    assert_eq!(r.raw, "");
    assert_eq!(r.res, "");
    assert_eq!(r.server, 7);
}

#[test]
fn spawn_failure_carries_its_message() {
    let t = task(2, "h q[0];", 10);
    let outcome = RunOutcome::SpawnFailed { message: "No such file or directory".to_string() };
    assert!(!succeeded(&outcome));
    assert_eq!(diagnostics(&outcome), "No such file or directory");
    let r = execution_response(&t, &outcome, 7);
    assert_eq!(r.status, "failed");
    assert_eq!(r.measure, "");
    assert_eq!(r.raw, "No such file or directory");
    assert_eq!(r.res, "");
}

#[test]
fn only_exit_code_zero_succeeds() {
    assert!(succeeded(&RunOutcome::Exited { code: Some(0) }));
    assert!(!succeeded(&RunOutcome::Exited { code: Some(-1) }));
    assert!(!succeeded(&RunOutcome::Exited { code: Some(2) }));
    assert!(!succeeded(&RunOutcome::Exited { code: None }));
    assert_eq!(diagnostics(&RunOutcome::Exited { code: None }), "");
}

#[test]
fn finished_and_failed_reports() {
    let t = task(2, "h q[0];", 10);
    let r = finished_response(&t, (vec![0, 1], "{\"00\":10}".to_string(), "{\"00\":10}".to_string()), 3);
    assert_eq!(r.task_id, "t42");
    assert_eq!(r.status, "finished");
    assert_eq!(r.measure, "[0, 1]");
    assert_eq!(r.raw, "{\"00\":10}");
    assert_eq!(r.res, "{\"00\":10}");
    assert_eq!(r.server, 3);
    let f = failed_response(&t, "boom".to_string(), 3);
    assert_eq!(f.task_id, "t42");
    assert_eq!(f.status, "failed");
    assert_eq!(f.measure, "");
    assert_eq!(f.raw, "boom");
    assert_eq!(f.res, "");
    assert_eq!(f.server, 3);
}

#[test]
fn report_from_counts() {
    let t = task(3, "h q[0];", 8);
    let r = aggregate_response(&t, "0 0 1 5\n0 1 0 3\n", 7);
    assert_eq!(r.status, "finished");
    assert_eq!(r.measure, "[0, 1, 2]");
    assert_eq!(r.raw, "{\"001\":5,\"010\":3}");
    assert_eq!(r.res, r.raw);
    assert_eq!(r.server, 7);
    let e = aggregate_response(&t, "", 7);
    assert_eq!(e.status, "finished");
    assert_eq!(e.measure, "[0, 1, 2]");
    assert_eq!(e.raw, "{\"000\":8}");
    let bad = aggregate_response(&t, "0 0 1 5\noops\n", 7);
    assert_eq!(bad.task_id, "t42");
    assert_eq!(bad.status, "failed");
    assert_eq!(bad.measure, "");
    assert_eq!(bad.raw, "");
    assert_eq!(bad.res, "");
}

#[test]
fn scratch_files_are_keyed_by_task() {
    assert_eq!(output_prefix("t42"), "/tmp/t42");
    assert_eq!(scratch_path("t42", ScratchFile::Source), "/tmp/t42.qasm");
    assert_eq!(scratch_path("t42", ScratchFile::Counts), "/tmp/t42.stats");
    assert_eq!(scratch_path("t42", ScratchFile::State), "/tmp/t42.state");
    assert_eq!(scratch_paths("a"), vec!["/tmp/a.qasm", "/tmp/a.stats", "/tmp/a.state"]);
}

#[test]
fn engine_is_started_with_these_arguments() {
    let t = task(2, "h q[0];", 1024);
    assert_eq!(
        engine_arguments(&t),
        vec!["-s", "1024", "-f", "/tmp/t42.qasm", "--simulator", "sv", "-o", "/tmp/t42"]
    );
}

#[test]
fn fields_of_an_answer_make_a_task() {
    let t = task_from_fields(Some(2), Some("h q[0];".to_string()), Some(100), Some("id".to_string()))
        .unwrap();
    assert_eq!(t.qubits, 2);
    assert_eq!(t.circuit, "h q[0];");
    assert_eq!(t.shots, 100);
    assert_eq!(t.task_id, "id");
    let edge = task_from_fields(Some(u32::MAX as u64), Some(String::new()), Some(0), Some(String::new()))
        .unwrap();
    assert_eq!(edge.qubits, u32::MAX);
    assert_eq!(edge.shots, 0);
}

#[test]
fn incomplete_answers_make_no_task() {
    let c = || Some("h q[0];".to_string());
    let id = || Some("id".to_string());
    assert!(task_from_fields(None, c(), Some(1), id()).is_none());
    assert!(task_from_fields(Some(1), None, Some(1), id()).is_none());
    assert!(task_from_fields(Some(1), c(), None, id()).is_none());
    assert!(task_from_fields(Some(1), c(), Some(1), None).is_none());
    assert!(task_from_fields(Some(u32::MAX as u64 + 1), c(), Some(1), id()).is_none());
    assert!(task_from_fields(Some(1), c(), Some(u64::MAX), id()).is_none());
}

#[test]
fn service_addresses() {
    assert_eq!(base_address("120.46.209.71"), "http://120.46.209.71/qbackend/");
    assert_eq!(
        task_url("http://host/qbackend/", 7),
        "http://host/qbackend/scq_task/?system_id=7"
    );
    assert_eq!(result_url("http://host/qbackend/"), "http://host/qbackend/scq_result/");
}

#[test]
fn a_task_that_finishes() {
    let mut phase = Phase::Idle;
    let mut actions = Vec::new();
    for event in [
        Event::DelayElapsed,
        Event::TaskReceived,
        Event::SourceWritten,
        Event::EngineSucceeded,
        Event::CountsRead,
        Event::ReportAttempted,
        Event::FilesRemoved,
    ] {
        let (next, action) = advance(phase, event);
        phase = next;
        actions.push(action);
    }
    assert_eq!(phase, Phase::Idle);
    assert_eq!(
        actions,
        vec![
            Action::Fetch,
            Action::WriteSource,
            Action::RunEngine,
            Action::ReadCounts,
            Action::SubmitReport,
            Action::RemoveFiles,
            Action::Wait,
        ]
    );
}

#[test]
fn a_task_that_fails_is_reported_and_cleaned_up() {
    assert_eq!(advance(Phase::Executing, Event::EngineFailed), (Phase::Reporting, Action::SubmitFailure));
    assert_eq!(advance(Phase::Reporting, Event::ReportAttempted), (Phase::Cleanup, Action::RemoveFiles));
    assert_eq!(advance(Phase::Preparing, Event::WriteFailed), (Phase::Cleanup, Action::RemoveFiles));
    assert_eq!(advance(Phase::Cleanup, Event::FilesRemoved), (Phase::Idle, Action::Wait));
}

#[test]
fn no_task_goes_back_to_idle() {
    assert_eq!(advance(Phase::Fetching, Event::NoTask), (Phase::Idle, Action::Wait));
}

#[test]
fn stray_events_change_nothing() {
    assert_eq!(advance(Phase::Idle, Event::FilesRemoved), (Phase::Idle, Action::Nothing));
    assert_eq!(advance(Phase::Executing, Event::CountsRead), (Phase::Executing, Action::Nothing));
    assert_eq!(advance(Phase::Cleanup, Event::DelayElapsed), (Phase::Cleanup, Action::Nothing));
    assert_eq!(advance(Phase::Reporting, Event::EngineFailed), (Phase::Reporting, Action::Nothing));
}
