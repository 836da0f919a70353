//! Sample counts: the table of observed outcomes and the text format an
//! engine writes them in.

use vstd::prelude::*;
use vstd::string::*;
use crate::document::{
    document_counts, document_entries, document_string, document_text, new_document, object_in,
    parse_object, put_count,
};
use crate::numbers::{outcome_of, parse_line};
use crate::text::{repeated, zeros};

verus! {

/// The outcomes observed for one task, each label with its count, in the
/// order in which the labels were first seen.
pub struct Statistics {
    pub memory: Vec<(String, usize)>,
}

/// Why a counts text was rejected.
#[derive(Debug, Clone, Copy, PartialEq, Eq)]
pub enum StatsError {
    /// The line with this index, counted from zero, holds fewer than two
    /// numbers.
    MalformedLine { line: usize },
}

/// One label with its count.
pub type Entry = (Seq<char>, usize);

/// The entries that a vector of labelled counts stands for.
pub open spec fn entries_of(memory: Seq<(String, usize)>) -> Seq<Entry> {
    Seq::new(memory.len(), |i: int| (memory[i].0@, memory[i].1))
}

/// Whether some entry carries `label`.
pub open spec fn has_label(entries: Seq<Entry>, label: Seq<char>) -> bool {
    exists|i: int| 0 <= i < entries.len() && (#[trigger] entries[i]).0 == label
}

/// The place of an entry that carries `label`.
pub open spec fn label_index(entries: Seq<Entry>, label: Seq<char>) -> int {
    choose|i: int| 0 <= i < entries.len() && (#[trigger] entries[i]).0 == label
}

/// Whether no label occurs twice.
pub open spec fn distinct_labels(entries: Seq<Entry>) -> bool {
    forall|i: int, j: int|
        0 <= i < j < entries.len() ==> (#[trigger] entries[i]).0 != (#[trigger] entries[j]).0
}

/// Whether every label is `width` characters long.
pub open spec fn uniform_labels(entries: Seq<Entry>, width: nat) -> bool {
    forall|i: int| 0 <= i < entries.len() ==> (#[trigger] entries[i]).0.len() == width
}

/// The entries after one outcome was recorded: a label already present
/// keeps its place and takes the new count, a new label goes to the end.
pub open spec fn record(entries: Seq<Entry>, label: Seq<char>, count: usize) -> Seq<Entry> {
    if has_label(entries, label) {
        entries.update(label_index(entries, label), (label, count))
    } else {
        entries.push((label, count))
    }
}

/// The entries after a run of outcomes was recorded, first to last.
pub open spec fn record_all(entries: Seq<Entry>, outcomes: Seq<Entry>) -> Seq<Entry>
    decreases outcomes.len(),
{
    if outcomes.len() == 0 {
        entries
    } else {
        record(record_all(entries, outcomes.drop_last()), outcomes.last().0, outcomes.last().1)
    }
}

/// The entries of the table that a fresh read of `outcomes` fills.
pub open spec fn table_of(outcomes: Seq<Entry>) -> Seq<Entry> {
    record_all(Seq::empty(), outcomes)
}

/// The mapping from label to count that the entries stand for; of two
/// entries with one label the later counts.
pub open spec fn as_map(entries: Seq<Entry>) -> Map<Seq<char>, usize>
    decreases entries.len(),
{
    if entries.len() == 0 {
        Map::empty()
    } else {
        as_map(entries.drop_last()).insert(entries.last().0, entries.last().1)
    }
}

/// How many characters of `s` from `from` on come before the next line feed.
pub open spec fn line_len(s: Seq<char>, from: int) -> nat
    decreases s.len() - from,
{
    if from < 0 || from >= s.len() || s[from] == '\n' {
        0
    } else {
        1 + line_len(s, from + 1)
    }
}

/// The lines of `s` from `from` on. A line ends at a line feed or at the end
/// of the text; the line feed belongs to no line, and nothing follows the
/// last one.
pub open spec fn lines_from(s: Seq<char>, from: int) -> Seq<Seq<char>>
    decreases s.len() - from,
{
    if from < 0 || from >= s.len() {
        Seq::empty()
    } else {
        let to = from + line_len(s, from);
        let rest = if to + 1 < s.len() {
            lines_from(s, to + 1)
        } else {
            Seq::empty()
        };
        seq![s.subrange(from, to)] + rest
    }
}

/// The lines of a text.
pub open spec fn lines_of(s: Seq<char>) -> Seq<Seq<char>> {
    lines_from(s, 0)
}

/// The outcomes that the lines report, or the first line that reports none.
pub open spec fn outcomes_of(lines: Seq<Seq<char>>) -> Result<Seq<Entry>, StatsError>
    decreases lines.len(),
{
    if lines.len() == 0 {
        Ok(Seq::empty())
    } else {
        match outcomes_of(lines.drop_last()) {
            Err(e) => Err(e),
            Ok(outcomes) => match outcome_of(lines.last()) {
                Some(o) => Ok(outcomes.push(o)),
                None => Err(StatsError::MalformedLine { line: (lines.len() - 1) as usize }),
            },
        }
    }
}

/// The outcomes that a counts text reports.
pub open spec fn parsed(contents: Seq<char>) -> Result<Seq<Entry>, StatsError> {
    outcomes_of(lines_of(contents))
}

/// Lines after the first one that reports nothing do not change the error.
pub proof fn lemma_first_error_stays(head: Seq<Seq<char>>, tail: Seq<Seq<char>>)
    requires
        outcomes_of(head) is Err,
    ensures
        outcomes_of(head + tail) == outcomes_of(head),
    decreases tail.len(),
{
    if tail.len() == 0 {
        assert(head + tail =~= head);
    } else {
        lemma_first_error_stays(head, tail.drop_last());
        assert((head + tail).drop_last() =~= head + tail.drop_last());
    }
}

impl View for Statistics {
    type V = Seq<Entry>;

    open spec fn view(&self) -> Seq<Entry> {
        entries_of(self.memory@)
    }
}

impl Statistics {
    /// Whether the table is valid: no label occurs twice.
    pub open spec fn wf(&self) -> bool {
        distinct_labels(self@)
    }

    /// A table without entries.
    pub fn new() -> (stats: Statistics)
        ensures
            stats@ == Seq::<Entry>::empty(),
            stats.wf(),
    {
        let stats = Statistics { memory: Vec::new() };
        assert(stats@ =~= Seq::<Entry>::empty());
        stats
    }

    /// The count recorded for `label`, if there is one.
    pub fn get(&self, label: &String) -> (r: Option<usize>)
        requires
            self.wf(),
        ensures
            r == if has_label(self@, label@) {
                Some(self@[label_index(self@, label@)].1)
            } else {
                None
            },
    {
        let mut i: usize = 0;
        while i < self.memory.len()
            invariant
                i <= self.memory.len(),
                self.wf(),
                forall|j: int| 0 <= j < i ==> (#[trigger] self@[j]).0 != label@,
            decreases self.memory.len() - i,
        {
            if self.memory[i].0 == *label {
                assert(self@[i as int].0 == label@);
                return Some(self.memory[i].1);
            }
            i += 1;
        }
        None
    }

    /// Records one outcome, replacing the count of a label already present.
    pub fn insert(&mut self, label: String, count: usize)
        requires
            old(self).wf(),
        ensures
            final(self).wf(),
            final(self)@ == record(old(self)@, label@, count),
    {
        let ghost before = self@;
        let mut i: usize = 0;
        while i < self.memory.len()
            invariant
                i <= self.memory.len(),
                self@ == before,
                before == old(self)@,
                distinct_labels(before),
                forall|j: int| 0 <= j < i ==> (#[trigger] before[j]).0 != label@,
            decreases self.memory.len() - i,
        {
            if self.memory[i].0 == label {
                assert(before[i as int].0 == label@);
                self.memory.set(i, (label, count));
                assert(self@ =~= before.update(i as int, (label@, count)));
                return ;
            }
            i += 1;
        }
        self.memory.push((label, count));
        assert(self@ =~= before.push((label@, count)));
    }
}

/// Reads a counts text and records every outcome it reports, line by line.
/// A text with a line of fewer than two numbers is rejected as a whole, and
/// the table stays as it was.
pub fn read_stats(stats: &mut Statistics, contents: &str) -> (r: Result<(), StatsError>)
    requires
        old(stats).wf(),
    ensures
        final(stats).wf(),
        match parsed(contents@) {
            Ok(outcomes) => r is Ok && final(stats)@ == record_all(old(stats)@, outcomes),
            Err(e) => r == Err::<(), StatsError>(e) && final(stats)@ == old(stats)@,
        },
{
    let outcomes = parse_stats(contents)?;
    let mut k: usize = 0;
    while k < outcomes.len()
        invariant
            k <= outcomes.len(),
            stats.wf(),
            stats@ == record_all(old(stats)@, entries_of(outcomes@).subrange(0, k as int)),
        decreases outcomes.len() - k,
    {
        let ghost all = entries_of(outcomes@);
        assert(all.subrange(0, k + 1).drop_last() =~= all.subrange(0, k as int));
        let label = outcomes[k].0.clone();
        stats.insert(label, outcomes[k].1);
        k += 1;
    }
    assert(entries_of(outcomes@).subrange(0, k as int) =~= entries_of(outcomes@));
    Ok(())
}

/// Reads the outcomes that a counts text reports, in the order of its lines.
pub fn parse_stats(contents: &str) -> (r: Result<Vec<(String, usize)>, StatsError>)
    ensures
        match r {
            Ok(outcomes) => parsed(contents@) == Ok::<Seq<Entry>, StatsError>(entries_of(outcomes@)),
            Err(e) => parsed(contents@) == Err::<Seq<Entry>, StatsError>(e),
        },
{
    let chars = crate::text::chars_of(contents);
    let mut outcomes: Vec<(String, usize)> = Vec::new();
    let ghost mut seen: Seq<Seq<char>> = Seq::empty();
    let mut i: usize = 0;
    assert(entries_of(outcomes@) =~= Seq::<Entry>::empty());
    while i < chars.len()
        invariant
            chars@ == contents@,
            i <= chars.len(),
            seen.len() == outcomes.len(),
            lines_of(chars@) == seen + lines_from(chars@, i as int),
            outcomes_of(seen) == Ok::<Seq<Entry>, StatsError>(entries_of(outcomes@)),
        decreases chars.len() - i,
    {
        let mut line: Vec<char> = Vec::new();
        let mut j: usize = i;
        while j < chars.len() && chars[j] != '\n'
            invariant
                i <= j <= chars.len(),
                line@ == chars@.subrange(i as int, j as int),
                line_len(chars@, i as int) == (j - i) + line_len(chars@, j as int),
            decreases chars.len() - j,
        {
            line.push(chars[j]);
            assert(line@ =~= chars@.subrange(i as int, j + 1));
            j += 1;
        }
        let ghost rest = lines_from(chars@, j + 1);
        assert(lines_from(chars@, i as int) == seq![line@] + rest);
        assert(seen + (seq![line@] + rest) =~= seen.push(line@) + rest);
        assert(seen.push(line@).drop_last() =~= seen);
        match parse_line(&line) {
            Some(o) => {
                let ghost before = entries_of(outcomes@);
                outcomes.push(o);
                assert(entries_of(outcomes@) =~= before.push((o.0@, o.1)));
            },
            None => {
                proof {
                    lemma_first_error_stays(seen.push(line@), rest);
                }
                return Err(StatsError::MalformedLine { line: outcomes.len() });
            },
        }
        proof {
            seen = seen.push(line@);
        }
        i = if j < chars.len() { j + 1 } else { j };
    }
    assert(seen + Seq::<Seq<char>>::empty() =~= seen);
    Ok(outcomes)
}

/// The document contents that a mapping from label to count is written as.
pub open spec fn count_document(counts: Map<Seq<char>, usize>) -> Map<Seq<char>, Option<u64>> {
    Map::new(|k: Seq<char>| counts.contains_key(k), |k: Seq<char>| Some(counts[k] as u64))
}

/// The positions `0, 1, ..` below `n`, in order.
pub open spec fn indices(n: nat) -> Seq<usize> {
    Seq::new(n, |i: int| i as usize)
}

/// The mapping that is reported for a table: its own entries, or, for a
/// table without entries, the one outcome of `qubits` zeros with all the
/// `shots` requested.
pub open spec fn reported(entries: Seq<Entry>, qubits: u32, shots: u32) -> Map<Seq<char>, usize> {
    if entries.len() > 0 {
        as_map(entries)
    } else {
        Map::empty().insert(repeated('0', qubits as nat), shots as usize)
    }
}

/// How many positions were measured: the length of the first label, or
/// `qubits` for a table without entries.
pub open spec fn measured_width(entries: Seq<Entry>, qubits: u32) -> nat {
    if entries.len() > 0 {
        entries[0].0.len()
    } else {
        qubits as nat
    }
}

/// In a table without a repeated label, the mapping holds exactly the
/// labels of the entries, each with the count of its entry.
pub proof fn lemma_as_map_of_distinct(entries: Seq<Entry>)
    requires
        distinct_labels(entries),
    ensures
        forall|k: Seq<char>| #[trigger] as_map(entries).contains_key(k) <==> has_label(entries, k),
        forall|i: int|
            0 <= i < entries.len() ==> as_map(entries)[(#[trigger] entries[i]).0] == entries[i].1,
        as_map(entries).dom().finite(),
        as_map(entries).dom().len() == entries.len(),
    decreases entries.len(),
{
    if entries.len() > 0 {
        let front = entries.drop_last();
        let last = entries.last();
        lemma_as_map_of_distinct(front);
        assert forall|k: Seq<char>| #[trigger]
            as_map(entries).contains_key(k) <==> has_label(entries, k) by {
            if has_label(entries, k) {
                let i = label_index(entries, k);
                if i < entries.len() - 1 {
                    assert(front[i].0 == k);
                }
            }
            if has_label(front, k) {
                let i = label_index(front, k);
                assert(entries[i].0 == k);
            }
            if k == last.0 {
                assert(entries[entries.len() - 1].0 == k);
            }
        }
        assert forall|i: int| 0 <= i < entries.len() implies as_map(entries)[(
        #[trigger] entries[i]).0] == entries[i].1 by {
            if i < entries.len() - 1 {
                assert(front[i] == entries[i]);
                assert(entries[i].0 != entries[entries.len() - 1].0);
            }
        }
        if has_label(front, last.0) {
            let i = label_index(front, last.0);
            assert(entries[i].0 == entries[entries.len() - 1].0);
        }
        assert(!as_map(front).dom().contains(last.0));
        assert(as_map(entries).dom() =~= as_map(front).dom().insert(last.0));
    }
}

/// The positions `0, 1, ..` below `n`.
pub fn index_sequence(n: usize) -> (v: Vec<usize>)
    ensures
        v@ == indices(n as nat),
{
    let mut v: Vec<usize> = Vec::new();
    let mut i: usize = 0;
    while i < n
        invariant
            i <= n,
            v@ == indices(i as nat),
        decreases n - i,
    {
        v.push(i);
        assert(v@ =~= indices((i + 1) as nat));
        i += 1;
    }
    v
}

/// The key/value document of a table: each label with its count.
pub fn to_document(stats: &Statistics) -> (doc: serde_json::Map<String, serde_json::Value>)
    ensures
        document_counts(doc) == count_document(as_map(stats@)),
{
    let mut doc = new_document();
    let mut k: usize = 0;
    assert(stats@.subrange(0, 0) =~= Seq::<Entry>::empty());
    assert(document_counts(doc) =~= count_document(as_map(stats@.subrange(0, 0))));
    while k < stats.memory.len()
        invariant
            k <= stats.memory.len(),
            document_counts(doc) == count_document(as_map(stats@.subrange(0, k as int))),
        decreases stats.memory.len() - k,
    {
        let ghost before = as_map(stats@.subrange(0, k as int));
        assert(stats@.subrange(0, k + 1).drop_last() =~= stats@.subrange(0, k as int));
        let label = stats.memory[k].0.clone();
        let count = stats.memory[k].1;
        put_count(&mut doc, label, count as u64);
        assert(document_counts(doc) =~= count_document(before.insert(label@, count)));
        k += 1;
    }
    assert(stats@.subrange(0, k as int) =~= stats@);
    doc
}

/// Whether a document can be read as a table: every value is a count that
/// fits the machine word.
pub open spec fn readable(counts: Map<Seq<char>, Option<u64>>) -> bool {
    forall|k: Seq<char>|
        counts.contains_key(k) ==> (#[trigger] counts[k]) is Some && counts[k].unwrap()
            <= usize::MAX
}

/// Reads a key/value document back as a table. The table stands for the
/// mapping that the document holds; a document with a value that is no
/// count, or with a count too large for the machine word, gives nothing.
pub fn from_document(doc: &serde_json::Map<String, serde_json::Value>) -> (r: Option<Statistics>)
    ensures
        r is Some <==> readable(document_counts(*doc)),
        match r {
            Some(stats) => stats.wf() && count_document(as_map(stats@)) == document_counts(*doc),
            None => true,
        },
{
    let entries = document_entries(doc);
    let mut stats = Statistics { memory: Vec::new() };
    let mut k: usize = 0;
    while k < entries.len()
        invariant
            k <= entries.len(),
            stats@.len() == k,
            forall|i: int|
                0 <= i < k ==> (#[trigger] stats@[i]).0 == entries[i].0@ && entries[i].1 == Some(
                    stats@[i].1 as u64,
                ),
            forall|i: int|
                0 <= i < entries.len() ==> document_counts(*doc).contains_key(
                    (#[trigger] entries[i]).0@,
                ) && document_counts(*doc)[entries[i].0@] == entries[i].1,
        decreases entries.len() - k,
    {
        let ghost before = stats@;
        match entries[k].1 {
            Some(count) => {
                if count > usize::MAX as u64 {
                    return None;
                }
                stats.memory.push((entries[k].0.clone(), count as usize));
            },
            None => {
                return None;
            },
        }
        assert(stats@ =~= before.push((entries[k as int].0@, stats@[k as int].1)));
        k += 1;
    }
    proof {
        assert(distinct_labels(stats@));
        lemma_as_map_of_distinct(stats@);
        let counts = document_counts(*doc);
        assert forall|key: Seq<char>| counts.contains_key(key) implies has_label(
            stats@,
            key,
        ) && (#[trigger] counts[key]) == Some(as_map(stats@)[key] as u64) by {
            let i = choose|i: int| 0 <= i < entries.len() && (#[trigger] entries[i]).0@ == key;
            assert(stats@[i].0 == key);
        }
        assert forall|key: Seq<char>| has_label(stats@, key) implies counts.contains_key(key) by {
            let i = label_index(stats@, key);
            assert(entries[i].0@ == key);
        }
        assert(count_document(as_map(stats@)) =~= counts);
    }
    Some(stats)
}

/// Reads the JSON text of a document as a table. A text that is no JSON
/// object, or whose document cannot be read as a table, gives nothing.
pub fn read_document(text: &str) -> (r: Option<Statistics>)
    ensures
        r is Some <==> object_in(text@) is Some && readable(object_in(text@).unwrap()),
        match r {
            Some(stats) => stats.wf() && Some(count_document(as_map(stats@))) == object_in(text@),
            None => true,
        },
{
    match parse_object(text) {
        Some(doc) => from_document(&doc),
        None => None,
    }
}

/// Renders a table for the report: the measured positions, the raw
/// distribution as JSON text, and the derived distribution, which is the raw
/// one again. A table without entries is reported as one outcome of
/// `qubits` zeros that took all the `shots`.
pub fn print_stats(stats: &Statistics, qubits: u32, shots: u32) -> (r: (Vec<usize>, String, String))
    ensures
        r.0@ == indices(measured_width(stats@, qubits)),
        r.1@ == document_text(count_document(reported(stats@, qubits, shots))),
        r.2@ == r.1@,
{
    let width: usize;
    let doc;
    if stats.memory.len() > 0 {
        width = stats.memory[0].0.as_str().unicode_len();
        doc = to_document(stats);
    } else {
        width = qubits as usize;
        let mut single = new_document();
        put_count(&mut single, zeros(qubits as usize), shots as u64);
        assert(document_counts(single) =~= count_document(reported(stats@, qubits, shots)));
        doc = single;
    }
    let measure = index_sequence(width);
    let raw = document_string(doc);
    let res = raw.clone();
    (measure, raw, res)
}

/// Recording an outcome in a valid table leaves a valid table, and does to
/// the mapping what an insertion does: the label holds the new count, and
/// every other label holds what it held.
pub proof fn lemma_record_inserts(entries: Seq<Entry>, label: Seq<char>, count: usize)
    requires
        distinct_labels(entries),
    ensures
        distinct_labels(record(entries, label, count)),
        as_map(record(entries, label, count)) == as_map(entries).insert(label, count),
{
    let after = record(entries, label, count);
    if has_label(entries, label) {
        let at = label_index(entries, label);
        assert(distinct_labels(after));
        lemma_as_map_of_distinct(entries);
        lemma_as_map_of_distinct(after);
        assert forall|k: Seq<char>| has_label(after, k) <==> has_label(entries, k) by {
            if has_label(after, k) {
                let i = label_index(after, k);
                assert(entries[i].0 == k);
            }
            if has_label(entries, k) {
                let i = label_index(entries, k);
                assert(after[i].0 == k);
            }
        }
        assert forall|k: Seq<char>| as_map(entries).contains_key(k) implies #[trigger] as_map(
            after,
        )[k] == as_map(entries).insert(label, count)[k] by {
            let i = label_index(entries, k);
            assert(after[i].0 == k);
            assert(as_map(after)[after[i].0] == after[i].1);
            assert(as_map(entries)[entries[i].0] == entries[i].1);
        }
        assert(as_map(after) =~= as_map(entries).insert(label, count));
    } else {
        assert(after.drop_last() =~= entries);
        assert forall|i: int, j: int| 0 <= i < j < after.len() implies (#[trigger] after[i]).0 != (
        #[trigger] after[j]).0 by {
            if j == entries.len() {
                assert(entries[i].0 != label);
            }
        }
    }
}

/// The mapping after a run of outcomes was inserted, first to last.
pub open spec fn insert_all(counts: Map<Seq<char>, usize>, outcomes: Seq<Entry>) -> Map<
    Seq<char>,
    usize,
>
    decreases outcomes.len(),
{
    if outcomes.len() == 0 {
        counts
    } else {
        insert_all(counts, outcomes.drop_last()).insert(outcomes.last().0, outcomes.last().1)
    }
}

/// Recording a run of outcomes in a valid table leaves a valid table, whose
/// mapping is the old one with every outcome inserted in turn: of two
/// outcomes with one label the later counts.
pub proof fn lemma_record_all_inserts(entries: Seq<Entry>, outcomes: Seq<Entry>)
    requires
        distinct_labels(entries),
    ensures
        distinct_labels(record_all(entries, outcomes)),
        as_map(record_all(entries, outcomes)) == insert_all(as_map(entries), outcomes),
    decreases outcomes.len(),
{
    if outcomes.len() > 0 {
        lemma_record_all_inserts(entries, outcomes.drop_last());
        lemma_record_inserts(
            record_all(entries, outcomes.drop_last()),
            outcomes.last().0,
            outcomes.last().1,
        );
    }
}

/// Labels of one length stay of one length: recording outcomes whose labels
/// are `width` characters long in a table whose labels are, leaves a table
/// whose labels are.
pub proof fn lemma_width_is_kept(entries: Seq<Entry>, outcomes: Seq<Entry>, width: nat)
    requires
        uniform_labels(entries, width),
        uniform_labels(outcomes, width),
    ensures
        uniform_labels(record_all(entries, outcomes), width),
    decreases outcomes.len(),
{
    if outcomes.len() > 0 {
        let front = outcomes.drop_last();
        assert forall|i: int| 0 <= i < front.len() implies (#[trigger] front[i]).0.len()
            == width by {
            assert(front[i] == outcomes[i]);
        }
        lemma_width_is_kept(entries, front, width);
        assert(outcomes[outcomes.len() - 1].0.len() == width);
    }
}

/// Outcomes with pairwise different labels are all kept: a fresh read of
/// them fills the table with exactly these outcomes, in their order.
pub proof fn lemma_distinct_outcomes_kept(outcomes: Seq<Entry>)
    requires
        distinct_labels(outcomes),
    ensures
        table_of(outcomes) == outcomes,
    decreases outcomes.len(),
{
    if outcomes.len() > 0 {
        let front = outcomes.drop_last();
        lemma_distinct_outcomes_kept(front);
        if has_label(front, outcomes.last().0) {
            let i = label_index(front, outcomes.last().0);
            assert(outcomes[i].0 == outcomes[outcomes.len() - 1].0);
        }
        assert(front.push(outcomes.last()) =~= outcomes);
    } else {
        assert(table_of(outcomes) =~= outcomes);
    }
}

/// A counts text whose lines report at least one outcome, all with
/// different labels of one length `width`: the table read from it reports
/// one entry for every line, in the table's mapping and in its document
/// alike, and as many measured positions as a label is long.
pub proof fn lemma_report_of_outcomes(
    contents: Seq<char>,
    outcomes: Seq<Entry>,
    width: nat,
    qubits: u32,
    shots: u32,
)
    requires
        parsed(contents) == Ok::<Seq<Entry>, StatsError>(outcomes),
        outcomes.len() >= 1,
        distinct_labels(outcomes),
        uniform_labels(outcomes, width),
    ensures
        table_of(outcomes) == outcomes,
        reported(table_of(outcomes), qubits, shots) == as_map(outcomes),
        as_map(outcomes).dom().finite(),
        as_map(outcomes).dom().len() == outcomes.len(),
        count_document(as_map(outcomes)).dom() == as_map(outcomes).dom(),
        outcomes.len() == lines_of(contents).len(),
        indices(measured_width(table_of(outcomes), qubits)).len() == width,
{
    lemma_distinct_outcomes_kept(outcomes);
    lemma_as_map_of_distinct(outcomes);
    lemma_one_outcome_per_line(lines_of(contents));
    assert(count_document(as_map(outcomes)).dom() =~= as_map(outcomes).dom());
    assert(outcomes[0].0.len() == width);
}

/// Lines that all report an outcome report as many outcomes as there are
/// lines.
pub proof fn lemma_one_outcome_per_line(lines: Seq<Seq<char>>)
    ensures
        outcomes_of(lines) matches Ok(outcomes) ==> outcomes.len() == lines.len(),
    decreases lines.len(),
{
    if lines.len() > 0 {
        lemma_one_outcome_per_line(lines.drop_last());
    }
}

/// A counts text without lines: the table read from it stays empty, and
/// what is reported is the single outcome of `qubits` zeros with all the
/// `shots`, over the positions below `qubits`.
pub proof fn lemma_report_of_nothing(contents: Seq<char>, qubits: u32, shots: u32)
    requires
        lines_of(contents).len() == 0,
    ensures
        parsed(contents) == Ok::<Seq<Entry>, StatsError>(Seq::empty()),
        table_of(Seq::empty()) == Seq::<Entry>::empty(),
        reported(Seq::empty(), qubits, shots).dom() == set![repeated('0', qubits as nat)],
        reported(Seq::empty(), qubits, shots).dom().len() == 1,
        reported(Seq::empty(), qubits, shots)[repeated('0', qubits as nat)] == shots,
        repeated('0', qubits as nat).len() == qubits,
        indices(measured_width(Seq::empty(), qubits)).len() == qubits,
{
    let zeros = repeated('0', qubits as nat);
    assert(reported(Seq::empty(), qubits, shots).dom() =~= set![zeros]);
    assert(set![zeros].len() == 1) by {
        assert(set![zeros] =~= Set::<Seq<char>>::empty().insert(zeros));
    }
}

/// Writing a table as a document and reading the document back gives the
/// same mapping from label to count: two tables whose documents hold the
/// same stand for the same mapping.
pub proof fn lemma_document_round_trip(written: Seq<Entry>, read_back: Seq<Entry>)
    requires
        count_document(as_map(read_back)) == count_document(as_map(written)),
    ensures
        as_map(read_back) == as_map(written),
{
    let a = as_map(written);
    let b = as_map(read_back);
    assert forall|k: Seq<char>| a.contains_key(k) <==> b.contains_key(k) by {
        assert(count_document(a).contains_key(k) <==> a.contains_key(k));
        assert(count_document(b).contains_key(k) <==> b.contains_key(k));
    }
    assert forall|k: Seq<char>| a.contains_key(k) implies a[k] == b[k] by {
        assert(count_document(a)[k] == Some(a[k] as u64));
        assert(count_document(b)[k] == Some(b[k] as u64));
    }
    assert(a =~= b);
}

} // verus!
