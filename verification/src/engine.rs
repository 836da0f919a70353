//! Running the engine on a task: where the files of a task lie, and the
//! arguments the engine is started with.

use vstd::prelude::*;
use vstd::string::*;
use crate::task::QuafuTask;
use crate::text::{decimal, decimal_string};

verus! {

/// The files that a task leaves in the scratch directory.
#[derive(Debug, Clone, Copy, PartialEq, Eq)]
pub enum ScratchFile {
    /// The source handed to the engine.
    Source,
    /// The counts the engine wrote.
    Counts,
    /// The state the engine keeps for itself.
    State,
}

/// The ending of a scratch file's name.
pub open spec fn extension(file: ScratchFile) -> Seq<char> {
    match file {
        ScratchFile::Source => ".qasm"@,
        ScratchFile::Counts => ".stats"@,
        ScratchFile::State => ".state"@,
    }
}

/// The prefix that all files of a task share: the scratch directory and the
/// task's identifier.
pub open spec fn prefix_of(task_id: Seq<char>) -> Seq<char> {
    "/tmp/"@ + task_id
}

/// The path of one of a task's scratch files.
pub open spec fn path_of(task_id: Seq<char>, file: ScratchFile) -> Seq<char> {
    prefix_of(task_id) + extension(file)
}

/// The arguments of an engine run: the number of samples, the source file,
/// the state-vector simulator as backend, and the prefix for what the
/// engine writes.
pub open spec fn arguments_of(task_id: Seq<char>, shots: u32) -> Seq<Seq<char>> {
    seq![
        "-s"@,
        decimal(shots as nat),
        "-f"@,
        path_of(task_id, ScratchFile::Source),
        "--simulator"@,
        "sv"@,
        "-o"@,
        prefix_of(task_id),
    ]
}

/// The texts of a vector of strings.
pub open spec fn texts_of(strings: Seq<String>) -> Seq<Seq<char>> {
    Seq::new(strings.len(), |i: int| strings[i]@)
}

/// The prefix that all files of a task share.
pub fn output_prefix(task_id: &str) -> (path: String)
    ensures
        path@ == prefix_of(task_id@),
{
    let mut path = String::from_str("/tmp/");
    path.append(task_id);
    path
}

/// The path of one of a task's scratch files.
pub fn scratch_path(task_id: &str, file: ScratchFile) -> (path: String)
    ensures
        path@ == path_of(task_id@, file),
{
    let mut path = output_prefix(task_id);
    match file {
        ScratchFile::Source => path.append(".qasm"),
        ScratchFile::Counts => path.append(".stats"),
        ScratchFile::State => path.append(".state"),
    }
    path
}

/// The three scratch files of a task, which are removed when it is done.
pub fn scratch_paths(task_id: &str) -> (paths: Vec<String>)
    ensures
        texts_of(paths@) == seq![
            path_of(task_id@, ScratchFile::Source),
            path_of(task_id@, ScratchFile::Counts),
            path_of(task_id@, ScratchFile::State),
        ],
{
    let mut paths: Vec<String> = Vec::new();
    paths.push(scratch_path(task_id, ScratchFile::Source));
    paths.push(scratch_path(task_id, ScratchFile::Counts));
    paths.push(scratch_path(task_id, ScratchFile::State));
    assert(texts_of(paths@) =~= seq![
        path_of(task_id@, ScratchFile::Source),
        path_of(task_id@, ScratchFile::Counts),
        path_of(task_id@, ScratchFile::State),
    ]);
    paths
}

/// The arguments the engine is started with for a task.
pub fn engine_arguments(task: &QuafuTask) -> (args: Vec<String>)
    ensures
        texts_of(args@) == arguments_of(task.task_id@, task.shots),
{
    let id = task.task_id.as_str();
    let mut args: Vec<String> = Vec::new();
    args.push(String::from_str("-s"));
    args.push(decimal_string(task.shots as usize));
    args.push(String::from_str("-f"));
    args.push(scratch_path(id, ScratchFile::Source));
    args.push(String::from_str("--simulator"));
    args.push(String::from_str("sv"));
    args.push(String::from_str("-o"));
    args.push(output_prefix(id));
    assert(texts_of(args@) =~= arguments_of(task.task_id@, task.shots));
    args
}

} // verus!
