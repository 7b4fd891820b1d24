//! Where a log is kept: under a path, with the log that was there before
//! kept aside under a second path.
//!
//! The store itself is not touched here. What is decided here is which
//! steps a write consists of and what a missing log means; the effect of the
//! steps is stated over a model of the store, a map from paths to contents.

use vstd::prelude::*;
use vstd::string::*;
use crate::log::{entries_of, log_text, outcome_of, parse_log, read_text, render_log, well_formed, Entry, LogError, Record};
use crate::roundtrip::lemma_round_trip;

verus! {

/// One step of a write, as a value.
pub ghost enum Action {
    /// What is kept under `from` is kept under `to` from now on, in place
    /// of what was kept there.
    Rename { from: Seq<char>, to: Seq<char> },
    /// `text` is kept under `path` from now on, in place of what was kept
    /// there.
    Write { path: Seq<char>, text: Seq<char> },
}

/// One step of a write.
#[derive(Debug, PartialEq, Eq)]
pub enum FileStep {
    /// Move what is kept under `from` to `to`, over what is kept there.
    Rename { from: String, to: String },
    /// Keep `text` under `path`, over what is kept there.
    Write { path: String, text: String },
}

impl View for FileStep {
    type V = Action;

    open spec fn view(&self) -> Action {
        match self {
            FileStep::Rename { from, to } => Action::Rename { from: from@, to: to@ },
            FileStep::Write { path, text } => Action::Write { path: path@, text: text@ },
        }
    }
}

/// The steps of `steps` as values.
pub open spec fn actions_of(steps: Seq<FileStep>) -> Seq<Action> {
    Seq::new(steps.len(), |i: int| steps[i]@)
}

/// The path under which the log at `path` is kept aside.
pub open spec fn backup_name(path: Seq<char>) -> Seq<char> {
    path + ".bak"@
}

/// The steps by which `text` becomes the log at `path`: a log that exists
/// there is first moved aside, then the new one is written.
pub open spec fn write_plan(path: Seq<char>, exists: bool, text: Seq<char>) -> Seq<Action> {
    if exists {
        seq![Action::Rename { from: path, to: backup_name(path) }, Action::Write { path, text }]
    } else {
        seq![Action::Write { path, text }]
    }
}

/// The store after `action`. Moving what is not there changes nothing.
pub open spec fn perform(files: Map<Seq<char>, Seq<char>>, action: Action) -> Map<
    Seq<char>,
    Seq<char>,
> {
    match action {
        Action::Rename { from, to } => if files.contains_key(from) {
            files.remove(from).insert(to, files[from])
        } else {
            files
        },
        Action::Write { path, text } => files.insert(path, text),
    }
}

/// The store after `actions`, one after the other.
pub open spec fn perform_all(files: Map<Seq<char>, Seq<char>>, actions: Seq<Action>) -> Map<
    Seq<char>,
    Seq<char>,
>
    decreases actions.len(),
{
    if actions.len() == 0 {
        files
    } else {
        perform(perform_all(files, actions.drop_last()), actions.last())
    }
}

/// The store after `text` was written as the log at `path`.
pub open spec fn written(files: Map<Seq<char>, Seq<char>>, path: Seq<char>, text: Seq<char>) -> Map<
    Seq<char>,
    Seq<char>,
> {
    perform_all(files, write_plan(path, files.contains_key(path), text))
}

/// What the log at `path` says. A log that is not there says nothing, and
/// that is no error.
pub open spec fn read_at(files: Map<Seq<char>, Seq<char>>, path: Seq<char>) -> Result<
    Seq<Entry>,
    LogError,
> {
    if files.contains_key(path) {
        read_text(files[path])
    } else {
        Ok(Seq::empty())
    }
}

/// The path under which the log at `path` is kept aside before a new one
/// takes its place.
pub fn backup_path(path: &str) -> (aside: String)
    ensures
        aside@ == backup_name(path@),
{
    String::from_str(path).concat(".bak")
}

/// The steps by which `records` become the log at `path`, where `exists`
/// says whether a log is there already.
pub fn write_steps(records: &Vec<Record>, path: &str, exists: bool) -> (steps: Vec<FileStep>)
    ensures
        actions_of(steps@) == write_plan(path@, exists, log_text(entries_of(records@))),
{
    let mut steps: Vec<FileStep> = Vec::new();
    if exists {
        steps.push(FileStep::Rename { from: String::from_str(path), to: backup_path(path) });
    }
    steps.push(FileStep::Write { path: String::from_str(path), text: render_log(records) });
    proof {
        assert(actions_of(steps@) =~= write_plan(
            path@,
            exists,
            log_text(entries_of(records@)),
        ));
    }
    steps
}

/// The records of a log that may not exist yet: a log that is not there
/// holds no records, and that is no error.
pub fn load_log(contents: Option<&str>) -> (result: Result<Vec<Record>, LogError>)
    ensures
        outcome_of(result) == match contents {
            Some(text) => read_text(text@),
            None => Ok::<Seq<Entry>, LogError>(Seq::empty()),
        },
{
    match contents {
        Some(text) => parse_log(text),
        None => {
            let records: Vec<Record> = Vec::new();
            proof {
                assert(entries_of(records@) =~= Seq::<Entry>::empty());
            }
            Ok(records)
        },
    }
}

/// A log and the log kept aside for it never share a path.
pub proof fn lemma_backup_differs(path: Seq<char>)
    ensures
        backup_name(path) != path,
{
    reveal_strlit(".bak");
    assert(backup_name(path).len() == path.len() + 4);
}

/// After a write the new log stands at the path. A log that stood there
/// before stands aside; where none did, what was kept aside stays as it was.
/// Nothing else in the store changes.
pub proof fn lemma_written(files: Map<Seq<char>, Seq<char>>, path: Seq<char>, text: Seq<char>)
    ensures
        written(files, path, text).contains_key(path),
        written(files, path, text)[path] == text,
        files.contains_key(path) ==> written(files, path, text).contains_key(backup_name(path))
            && written(files, path, text)[backup_name(path)] == files[path],
        !files.contains_key(path) ==> (written(files, path, text).contains_key(backup_name(path))
            <==> files.contains_key(backup_name(path))),
        !files.contains_key(path) && files.contains_key(backup_name(path)) ==> written(
            files,
            path,
            text,
        )[backup_name(path)] == files[backup_name(path)],
        forall|other: Seq<char>|
            other != path && other != backup_name(path) ==> (#[trigger] written(
                files,
                path,
                text,
            ).contains_key(other) <==> files.contains_key(other)),
        forall|other: Seq<char>|
            other != path && other != backup_name(path) && files.contains_key(other)
                ==> #[trigger] written(files, path, text)[other] == files[other],
{
    lemma_backup_differs(path);
    let plan = write_plan(path, files.contains_key(path), text);
    if files.contains_key(path) {
        let first = seq![plan[0]];
        assert(plan.drop_last() =~= first);
        assert(first.drop_last() =~= Seq::<Action>::empty());
        assert(perform_all(files, first.drop_last()) == files);
        assert(perform_all(files, first) == perform(files, plan[0]));
    } else {
        assert(plan.drop_last() =~= Seq::<Action>::empty());
        assert(perform_all(files, plan.drop_last()) == files);
    }
}

/// After two writes to one path the second log stands at the path and the
/// first stands aside.
pub proof fn lemma_rotation(
    files: Map<Seq<char>, Seq<char>>,
    path: Seq<char>,
    first: Seq<char>,
    second: Seq<char>,
)
    ensures
        ({
            let after = written(written(files, path, first), path, second);
            &&& after.contains_key(path)
            &&& after[path] == second
            &&& after.contains_key(backup_name(path))
            &&& after[backup_name(path)] == first
        }),
{
    lemma_written(files, path, first);
    lemma_written(written(files, path, first), path, second);
}

/// A log written from entries whose coordinates are numerals is read from
/// the store as the same entries.
pub proof fn lemma_read_written(files: Map<Seq<char>, Seq<char>>, path: Seq<char>, entries: Seq<Entry>)
    requires
        forall|i: int| 0 <= i < entries.len() ==> well_formed(#[trigger] entries[i]),
    ensures
        read_at(written(files, path, log_text(entries)), path) == Ok::<Seq<Entry>, LogError>(
            entries,
        ),
{
    lemma_written(files, path, log_text(entries));
    lemma_round_trip(entries);
}

} // verus!
