//! A task as the service hands it out, what is done to its source before it
//! runs, and the report that goes back.

use vstd::prelude::*;
use vstd::string::*;
use crate::data::{
    count_document, indices, measured_width, parsed, print_stats, read_stats, reported, table_of,
    Statistics, StatsError,
};
use crate::document::document_text;
use crate::text::{chars_of, contains_word, decimal, occurs, push_decimal};

verus! {

/// One job: a circuit over `qubits` qubits, to be sampled `shots` times.
#[derive(Debug)]
pub struct QuafuTask {
    pub qubits: u32,
    pub circuit: String,
    pub shots: u32,
    pub task_id: String,
}

/// The report on one task, field by field as it is submitted.
#[derive(Debug)]
pub struct QuafuResponse {
    pub task_id: String,
    pub status: String,
    pub measure: String,
    pub raw: String,
    pub res: String,
    pub server: usize,
}

/// How a run of the engine ended.
#[derive(Debug)]
pub enum RunOutcome {
    /// The engine ran and exited, with this code if it left one.
    Exited { code: Option<i32> },
    /// The engine could not be started.
    SpawnFailed { message: String },
}

impl QuafuTask {
    /// A task of these four parts.
    pub fn new(qubits: u32, circuit: String, shots: u32, task_id: String) -> (task: Self)
        ensures
            task.qubits == qubits,
            task.circuit == circuit,
            task.shots == shots,
            task.task_id == task_id,
    {
        Self { qubits, circuit, shots, task_id }
    }
}

/// Whether the fields of a service's answer make a task: all four are
/// there, and the two numbers fit 32 bits.
pub open spec fn fields_make_task(
    qubits: Option<u64>,
    circuit: Option<String>,
    shots: Option<u64>,
    task_id: Option<String>,
) -> bool {
    &&& qubits is Some && qubits.unwrap() <= u32::MAX
    &&& circuit is Some
    &&& shots is Some && shots.unwrap() <= u32::MAX
    &&& task_id is Some
}

/// Makes the task that a service's answer describes, from the fields as
/// they were found in it. An answer that lacks a field, or holds a number
/// beyond 32 bits, describes no task.
pub fn task_from_fields(
    qubits: Option<u64>,
    circuit: Option<String>,
    shots: Option<u64>,
    task_id: Option<String>,
) -> (r: Option<QuafuTask>)
    ensures
        r is Some <==> fields_make_task(qubits, circuit, shots, task_id),
        match r {
            Some(task) => {
                &&& task.qubits == qubits.unwrap()
                &&& task.circuit == circuit.unwrap()
                &&& task.shots == shots.unwrap()
                &&& task.task_id == task_id.unwrap()
            },
            None => true,
        },
{
    match (qubits, circuit, shots, task_id) {
        (Some(q), Some(c), Some(s), Some(id)) => {
            if q <= u32::MAX as u64 && s <= u32::MAX as u64 {
                Some(QuafuTask::new(q as u32, c, s as u32, id))
            } else {
                None
            }
        },
        _ => None,
    }
}

/// The statement that measures qubit `qubit` into the classical bit of the
/// same number, on a line of its own.
pub open spec fn measure_statement(qubit: nat) -> Seq<char> {
    "\r\nmeasure q["@ + decimal(qubit) + "] -> c["@ + decimal(qubit) + "];"@
}

/// The measure statements for the qubits below `qubits`, in ascending order.
pub open spec fn measurements(qubits: nat) -> Seq<char>
    decreases qubits,
{
    if qubits == 0 {
        Seq::empty()
    } else {
        measurements((qubits - 1) as nat) + measure_statement((qubits - 1) as nat)
    }
}

/// Whether a source measures anything: the word `measure` stands in it.
pub open spec fn has_measurement(source: Seq<char>) -> bool {
    occurs(source, "measure"@)
}

/// The source that is handed to the engine: the task's own where it
/// measures something, else the task's own followed by one measure
/// statement for every qubit.
pub open spec fn prepared_source(source: Seq<char>, qubits: nat) -> Seq<char> {
    if has_measurement(source) {
        source
    } else {
        source + measurements(qubits)
    }
}

/// Appends the measure statement for `qubit` to `source`.
pub fn push_measure_statement(source: &mut String, qubit: u32)
    ensures
        final(source)@ == old(source)@ + measure_statement(qubit as nat),
{
    let ghost before = source@;
    source.append("\r\nmeasure q[");
    push_decimal(source, qubit as usize);
    source.append("] -> c[");
    push_decimal(source, qubit as usize);
    source.append("];");
    assert(source@ =~= before + measure_statement(qubit as nat));
}

/// Makes a task ready to run: a source that measures nothing gets one
/// measure statement per qubit; nothing else changes.
pub fn prepare(task: &mut QuafuTask)
    ensures
        final(task).qubits == old(task).qubits,
        final(task).shots == old(task).shots,
        final(task).task_id == old(task).task_id,
        final(task).circuit@ == prepared_source(old(task).circuit@, old(task).qubits as nat),
{
    let source = chars_of(task.circuit.as_str());
    let word = chars_of("measure");
    if !contains_word(&source, &word) {
        let ghost before = task.circuit@;
        let mut qubit: u32 = 0;
        assert(task.circuit@ =~= before + measurements(0));
        while qubit < task.qubits
            invariant
                qubit <= task.qubits,
                task.qubits == old(task).qubits,
                task.shots == old(task).shots,
                task.task_id == old(task).task_id,
                task.circuit@ == before + measurements(qubit as nat),
            decreases task.qubits - qubit,
        {
            push_measure_statement(&mut task.circuit, qubit);
            assert(task.circuit@ =~= before + measurements((qubit + 1) as nat));
            qubit += 1;
        }
    }
}

/// The numbers of a list as text, separated by a comma and a space.
pub open spec fn joined(values: Seq<usize>) -> Seq<char>
    decreases values.len(),
{
    if values.len() == 0 {
        Seq::empty()
    } else if values.len() == 1 {
        decimal(values[0] as nat)
    } else {
        joined(values.drop_last()) + ", "@ + decimal(values.last() as nat)
    }
}

/// A list of numbers as text: the numbers in square brackets, separated by
/// a comma and a space.
pub open spec fn list_text(values: Seq<usize>) -> Seq<char> {
    "["@ + joined(values) + "]"@
}

/// Writes a list of numbers as text.
pub fn list_string(values: &Vec<usize>) -> (s: String)
    ensures
        s@ == list_text(values@),
{
    let mut s = String::from_str("[");
    let mut k: usize = 0;
    assert(values@.subrange(0, 0) =~= Seq::<usize>::empty());
    assert(s@ =~= "["@ + joined(values@.subrange(0, 0)));
    while k < values.len()
        invariant
            k <= values.len(),
            s@ == "["@ + joined(values@.subrange(0, k as int)),
        decreases values.len() - k,
    {
        let ghost before = s@;
        let ghost front = values@.subrange(0, k as int);
        let ghost next = values@.subrange(0, k + 1);
        assert(next.drop_last() =~= front);
        if k > 0 {
            s.append(", ");
        }
        push_decimal(&mut s, values[k]);
        assert(s@ =~= "["@ + joined(next));
        k += 1;
    }
    assert(values@.subrange(0, k as int) =~= values@);
    s.append("]");
    s
}

/// Whether the engine ran to a good end: it exited with code zero.
pub open spec fn run_succeeded(outcome: RunOutcome) -> bool {
    outcome matches RunOutcome::Exited { code: Some(c) } && c == 0
}

/// What a run that failed has to say: the message of an engine that could
/// not be started, and nothing for one that exited.
pub open spec fn run_diagnostics(outcome: RunOutcome) -> Seq<char> {
    match outcome {
        RunOutcome::Exited { .. } => Seq::empty(),
        RunOutcome::SpawnFailed { message } => message@,
    }
}

/// Tells whether the engine ran to a good end.
pub fn succeeded(outcome: &RunOutcome) -> (b: bool)
    ensures
        b == run_succeeded(*outcome),
{
    match outcome {
        RunOutcome::Exited { code: Some(c) } => *c == 0,
        _ => false,
    }
}

/// The diagnostics of a run.
pub fn diagnostics(outcome: &RunOutcome) -> (text: String)
    ensures
        text@ == run_diagnostics(*outcome),
{
    match outcome {
        RunOutcome::Exited { .. } => String::new(),
        RunOutcome::SpawnFailed { message } => message.clone(),
    }
}

/// The report on a task that finished: the measured positions as a list,
/// and both renderings of the counts.
pub fn finished_response(task: &QuafuTask, output: (Vec<usize>, String, String), server: usize) -> (r:
    QuafuResponse)
    ensures
        r.task_id@ == task.task_id@,
        r.status@ == "finished"@,
        r.measure@ == list_text(output.0@),
        r.raw@ == output.1@,
        r.res@ == output.2@,
        r.server == server,
{
    QuafuResponse {
        task_id: task.task_id.clone(),
        status: String::from_str("finished"),
        measure: list_string(&output.0),
        raw: output.1,
        res: output.2,
        server,
    }
}

/// The report on a task that failed. Nothing was measured and nothing is
/// rendered; the diagnostics, where there are any, travel in the raw field.
pub fn failed_response(task: &QuafuTask, diagnostics: String, server: usize) -> (r: QuafuResponse)
    ensures
        r.task_id@ == task.task_id@,
        r.status@ == "failed"@,
        r.measure@ == Seq::<char>::empty(),
        r.raw@ == diagnostics@,
        r.res@ == Seq::<char>::empty(),
        r.server == server,
{
    QuafuResponse {
        task_id: task.task_id.clone(),
        status: String::from_str("failed"),
        measure: String::new(),
        raw: diagnostics,
        res: String::new(),
        server,
    }
}

/// Reads the counts text an engine wrote and renders it for the report:
/// the measured positions, the raw distribution and the derived one. A text
/// without outcomes is reported as `shots` samples of the outcome of
/// `qubits` zeros. A malformed text is rejected.
pub fn read_output(contents: &str, qubits: u32, shots: u32) -> (r: Result<
    (Vec<usize>, String, String),
    StatsError,
>)
    ensures
        match parsed(contents@) {
            Ok(outcomes) => r is Ok && ({
                let out = r->Ok_0;
                &&& out.0@ == indices(measured_width(table_of(outcomes), qubits))
                &&& out.1@ == document_text(
                    count_document(reported(table_of(outcomes), qubits, shots)),
                )
                &&& out.2@ == out.1@
            }),
            Err(e) => r == Err::<(Vec<usize>, String, String), StatsError>(e),
        },
{
    let mut stats = Statistics::new();
    match read_stats(&mut stats, contents) {
        Ok(()) => Ok(print_stats(&stats, qubits, shots)),
        Err(e) => Err(e),
    }
}

/// The report on a task whose engine run ended as `outcome` says and did
/// not succeed: failed, with the diagnostics of the run.
pub fn execution_response(task: &QuafuTask, outcome: &RunOutcome, server: usize) -> (r:
    QuafuResponse)
    ensures
        r.task_id@ == task.task_id@,
        r.status@ == "failed"@,
        r.measure@ == Seq::<char>::empty(),
        r.raw@ == run_diagnostics(*outcome),
        r.res@ == Seq::<char>::empty(),
        r.server == server,
{
    failed_response(task, diagnostics(outcome), server)
}

/// The report on a task whose engine succeeded and wrote `contents`:
/// finished, with the renderings of the counts, or failed without
/// diagnostics where the counts text is malformed.
pub fn aggregate_response(task: &QuafuTask, contents: &str, server: usize) -> (r: QuafuResponse)
    ensures
        r.task_id@ == task.task_id@,
        r.server == server,
        match parsed(contents@) {
            Ok(outcomes) => {
                &&& r.status@ == "finished"@
                &&& r.measure@ == list_text(
                    indices(measured_width(table_of(outcomes), task.qubits)),
                )
                &&& r.raw@ == document_text(
                    count_document(reported(table_of(outcomes), task.qubits, task.shots)),
                )
                &&& r.res@ == r.raw@
            },
            Err(_) => {
                &&& r.status@ == "failed"@
                &&& r.measure@ == Seq::<char>::empty()
                &&& r.raw@ == Seq::<char>::empty()
                &&& r.res@ == Seq::<char>::empty()
            },
        },
{
    match read_output(contents, task.qubits, task.shots) {
        Ok(output) => finished_response(task, output, server),
        Err(_) => failed_response(task, String::new(), server),
    }
}

} // verus!
