use vstd::prelude::*;
use crate::text::{append_decimal, append_str, decimal, str_chars, string_from};

verus! {

/// How a section of a task ended.
#[derive(Clone, Copy, PartialEq, Eq, Debug)]
pub enum StatusKind {
    Success,
    Failure,
    Unknown,
}

/// How a section of a task ended, with an optional explanation.
pub struct Status {
    pub kind: StatusKind,
    pub details: Option<String>,
}

/// What starts: a call of an external tool, or a named section of work, possibly counted in
/// units.
pub enum StartedDetails {
    ToolCall { tool_name: String, arguments: Vec<String> },
    Section { name: String, units: Option<usize> },
}

/// What changes in a started entry.
pub enum ChangedDetails {
    SetUnitsFinished { units_finished: usize },
    FinishedToolCall { output: String },
    FinishedSection { status: Status },
}

/// A message from a running task about its log.
pub enum LogUpdate {
    Started { task_id: (usize, usize), update_id: (usize, usize), details: StartedDetails },
    Changed { update_id: (usize, usize), details: ChangedDetails },
}

/// What a log entry records.
pub enum LogDetails {
    ToolCall { tool_name: String, arguments: Vec<String>, output: Option<String> },
    Section { name: String, total_units: Option<usize>, completed_units: Option<usize>, final_status: Option<Status> },
}

/// A log entry of a task. Times are whole milliseconds, as the caller measures them.
pub struct LogEntry {
    pub task_id: (usize, usize),
    pub details: LogDetails,
    pub start_time: u64,
    pub end_time: Option<u64>,
}

/// Why a log update cannot be applied.
#[derive(Clone, Copy, PartialEq, Eq, Debug)]
pub enum LogError {
    /// The update changes an entry that was never started.
    UnknownEntry,
    /// The update does not fit the kind of the entry.
    WrongKind,
}

/// The first position of `key` among the keys of an association list.
pub open spec fn key_position<V>(entries: Seq<((usize, usize), V)>, key: (usize, usize)) -> Option<int>
    decreases entries.len(),
{
    if entries.len() == 0 {
        None
    } else if entries[0].0 == key {
        Some(0)
    } else {
        match key_position(entries.drop_first(), key) {
            Some(p) => Some(p + 1),
            None => None,
        }
    }
}

/// The lists of entry ids of each task, as sequences.
pub open spec fn task_lists(s: Seq<((usize, usize), Vec<(usize, usize)>)>) -> Seq<((usize, usize), Seq<(usize, usize)>)> {
    s.map_values(|p: ((usize, usize), Vec<(usize, usize)>)| (p.0, p.1@))
}

/// Whether no key of an association list occurs twice.
pub open spec fn distinct_keys<V>(entries: Seq<((usize, usize), V)>) -> bool {
    forall|i: int, j: int| 0 <= i < j < entries.len() ==> #[trigger] entries[i].0 != #[trigger] entries[j].0
}

proof fn lemma_key_position<V>(entries: Seq<((usize, usize), V)>, key: (usize, usize))
    ensures
        key_position(entries, key) matches Some(p) ==> 0 <= p < entries.len() && entries[p].0 == key
            && forall|j: int| 0 <= j < p ==> entries[j].0 != key,
        key_position(entries, key) is None ==> forall|j: int| 0 <= j < entries.len() ==> entries[j].0 != key,
    decreases entries.len(),
{
    if entries.len() > 0 && entries[0].0 != key {
        let d = entries.drop_first();
        lemma_key_position(d, key);
        assert forall|j: int| 0 <= j < d.len() implies #[trigger] d[j] == entries[j + 1] by {}
        assert forall|j: int| 0 < j < entries.len() implies #[trigger] entries[j] == d[j - 1] by {}
    }
}

/// The position of `key` in an association list, as [`key_position`] says.
fn find_key<V>(entries: &Vec<((usize, usize), V)>, key: (usize, usize)) -> (r: Option<usize>)
    ensures
        r matches Some(x) ==> key_position(entries@, key) == Some(x as int),
        r is None ==> key_position(entries@, key) is None,
{
    proof { lemma_key_position(entries@, key); }
    let mut i: usize = 0;
    while i < entries.len()
        invariant
            i <= entries@.len(),
            forall|j: int| 0 <= j < i ==> entries@[j].0 != key,
            key_position(entries@, key) matches Some(p) ==> 0 <= p < entries@.len() && entries@[p].0 == key
                && forall|j: int| 0 <= j < p ==> entries@[j].0 != key,
            key_position(entries@, key) is None ==> forall|j: int| 0 <= j < entries@.len() ==> entries@[j].0 != key,
        decreases entries.len() - i,
    {
        if entries[i].0.0 == key.0 && entries[i].0.1 == key.1 {
            return Some(i);
        }
        i += 1;
    }
    None
}

/// The entry that an update starting an entry of `task_id` at time `now` creates.
pub open spec fn started_entry(task_id: (usize, usize), details: StartedDetails, now: u64) -> LogEntry {
    LogEntry {
        task_id,
        details: match details {
            StartedDetails::ToolCall { tool_name, arguments } => LogDetails::ToolCall { tool_name, arguments, output: None },
            StartedDetails::Section { name, units } => LogDetails::Section {
                name,
                total_units: units,
                completed_units: match units { Some(_) => Some(0usize), None => None },
                final_status: None,
            },
        },
        start_time: now,
        end_time: None,
    }
}

/// The entry after a change at time `now`, or `None` where the change does not fit the kind of
/// the entry: a count of finished units applies to a counted section; the output of a tool
/// call and the end of a section also set the end time.
pub open spec fn changed_entry(e: LogEntry, details: ChangedDetails, now: u64) -> Option<LogEntry> {
    match details {
        ChangedDetails::SetUnitsFinished { units_finished } => match e.details {
            LogDetails::Section { name, total_units, completed_units, final_status } => Some(LogEntry {
                details: LogDetails::Section {
                    name,
                    total_units,
                    completed_units: match completed_units { Some(_) => Some(units_finished), None => None },
                    final_status,
                },
                ..e
            }),
            _ => None,
        },
        ChangedDetails::FinishedToolCall { output } => match e.details {
            LogDetails::ToolCall { tool_name, arguments, .. } => Some(LogEntry {
                details: LogDetails::ToolCall { tool_name, arguments, output: Some(output) },
                end_time: Some(now),
                ..e
            }),
            _ => None,
        },
        ChangedDetails::FinishedSection { status } => match e.details {
            LogDetails::Section { name, total_units, completed_units, .. } => Some(LogEntry {
                details: LogDetails::Section { name, total_units, completed_units, final_status: Some(status) },
                end_time: Some(now),
                ..e
            }),
            _ => None,
        },
    }
}

/// A section that is started and then finished records the status it was finished with,
/// keeps its name and units, and spans from the start to the finish.
pub proof fn law_section_start_then_finish(
    task_id: (usize, usize),
    name: String,
    units: Option<usize>,
    status: Status,
    started: u64,
    finished: u64,
)
    ensures
        changed_entry(started_entry(task_id, StartedDetails::Section { name, units }, started), ChangedDetails::FinishedSection { status }, finished)
            == Some(LogEntry {
                task_id,
                details: LogDetails::Section {
                    name,
                    total_units: units,
                    completed_units: match units { Some(_) => Some(0usize), None => None },
                    final_status: Some(status),
                },
                start_time: started,
                end_time: Some(finished),
            }),
{
}

/// A tool call that is started and then given its output records the output, keeps the
/// tool's name and arguments, and spans from the start to the output.
pub proof fn law_tool_call_start_then_finish(
    task_id: (usize, usize),
    tool_name: String,
    arguments: Vec<String>,
    output: String,
    started: u64,
    finished: u64,
)
    ensures
        changed_entry(started_entry(task_id, StartedDetails::ToolCall { tool_name, arguments }, started), ChangedDetails::FinishedToolCall { output }, finished)
            == Some(LogEntry {
                task_id,
                details: LogDetails::ToolCall { tool_name, arguments, output: Some(output) },
                start_time: started,
                end_time: Some(finished),
            }),
{
}

/// The log of all tasks: each entry by its id, and the ids of each task's entries in the
/// order they started.
pub struct MainToolRunner {
    pub log_entries: Vec<((usize, usize), LogEntry)>,
    pub entries_of_task: Vec<((usize, usize), Vec<(usize, usize)>)>,
    pub child_counter: usize,
}

/// A task's handle on the log: its id, and counters for its updates and temporary files.
pub struct ToolRunner {
    pub task_id: (usize, usize),
    pub id: usize,
    pub update_counter: usize,
    pub file_counter: usize,
}

impl MainToolRunner {
    /// Entry ids and task ids each occur once.
    pub open spec fn wf(&self) -> bool {
        &&& distinct_keys(self.log_entries@)
        &&& distinct_keys(self.entries_of_task@)
    }

    pub fn new() -> (r: Self)
        ensures
            r.wf(),
            r.log_entries@.len() == 0,
            r.entries_of_task@.len() == 0,
            r.child_counter == 0,
    {
        MainToolRunner { log_entries: Vec::new(), entries_of_task: Vec::new(), child_counter: 0 }
    }

    /// A handle for the task `task_index` of model `model_index`, with the next free id.
    pub fn get_tool_runner(&mut self, model_index: usize, task_index: usize) -> (r: ToolRunner)
        requires
            old(self).child_counter < usize::MAX,
        ensures
            r.task_id == (model_index, task_index),
            r.id == old(self).child_counter,
            r.update_counter == 0,
            r.file_counter == 0,
            final(self).child_counter == old(self).child_counter + 1,
            final(self).log_entries == old(self).log_entries,
            final(self).entries_of_task == old(self).entries_of_task,
    {
        let id = self.child_counter;
        self.child_counter = self.child_counter + 1;
        ToolRunner { task_id: (model_index, task_index), id, update_counter: 0, file_counter: 0 }
    }

    fn add_entry_for_task(&mut self, task_id: (usize, usize), call_id: (usize, usize))
        requires
            distinct_keys(old(self).entries_of_task@),
        ensures
            distinct_keys(final(self).entries_of_task@),
            final(self).log_entries == old(self).log_entries,
            final(self).child_counter == old(self).child_counter,
            match key_position(old(self).entries_of_task@, task_id) {
                Some(p) => task_lists(final(self).entries_of_task@) == task_lists(old(self).entries_of_task@).update(
                    p, (task_id, task_lists(old(self).entries_of_task@)[p].1.push(call_id))),
                None => task_lists(final(self).entries_of_task@) == task_lists(old(self).entries_of_task@).push((task_id, seq![call_id])),
            },
    {
        proof { lemma_key_position(self.entries_of_task@, task_id); }
        match find_key(&self.entries_of_task, task_id) {
            Some(p) => {
                let (key, mut list) = self.entries_of_task.remove(p);
                list.push(call_id);
                self.entries_of_task.insert(p, (key, list));
                assert(task_lists(self.entries_of_task@) =~= task_lists(old(self).entries_of_task@).update(
                    p as int, (task_id, task_lists(old(self).entries_of_task@)[p as int].1.push(call_id))));
                proof {
                    assert forall|i: int, j: int| 0 <= i < j < self.entries_of_task@.len()
                        implies #[trigger] self.entries_of_task@[i].0 != #[trigger] self.entries_of_task@[j].0 by {
                        assert(old(self).entries_of_task@[i].0 != old(self).entries_of_task@[j].0);
                    }
                }
            },
            None => {
                let mut list = Vec::new();
                list.push(call_id);
                self.entries_of_task.push((task_id, list));
                assert(task_lists(self.entries_of_task@) =~= task_lists(old(self).entries_of_task@).push((task_id, seq![call_id])));
            },
        }
    }

    /// The ids of the entries of a task, in the order they started.
    pub fn entries_for_task(&self, task_id: (usize, usize)) -> (r: Vec<(usize, usize)>)
        ensures
            match key_position(self.entries_of_task@, task_id) {
                Some(p) => r@ == self.entries_of_task@[p].1@,
                None => r@.len() == 0,
            },
    {
        proof { lemma_key_position(self.entries_of_task@, task_id); }
        match find_key(&self.entries_of_task, task_id) {
            Some(p) => {
                clone_pairs(&self.entries_of_task[p].1)
            },
            None => Vec::new(),
        }
    }

    /// The entry with id `entry_id`, which must exist.
    pub fn entry(&self, entry_id: (usize, usize)) -> (r: &LogEntry)
        requires
            key_position(self.log_entries@, entry_id) is Some,
        ensures
            *r == self.log_entries@[key_position(self.log_entries@, entry_id)->Some_0].1,
    {
        proof { lemma_key_position(self.log_entries@, entry_id); }
        let p = find_key(&self.log_entries, entry_id).unwrap();
        &self.log_entries[p].1
    }

    /// Applies a log update received at time `now`: a started entry is recorded (replacing an
    /// entry with the same id) and listed under its task; a change is applied to its entry, as
    /// [`changed_entry`] says. Refused, with nothing changed, where the entry of a change was
    /// never started or does not fit the change.
    pub fn process_update(&mut self, update: LogUpdate, now: u64) -> (r: Result<(), LogError>)
        requires
            old(self).wf(),
        ensures
            final(self).wf(),
            final(self).child_counter == old(self).child_counter,
            match update {
                LogUpdate::Started { task_id, update_id, details } => {
                    let e = started_entry(task_id, details, now);
                    &&& r is Ok
                    &&& match key_position(old(self).log_entries@, update_id) {
                        Some(p) => final(self).log_entries@ == old(self).log_entries@.update(p, (update_id, e)),
                        None => final(self).log_entries@ == old(self).log_entries@.push((update_id, e)),
                    }
                    &&& match key_position(old(self).entries_of_task@, task_id) {
                        Some(p) => task_lists(final(self).entries_of_task@) == task_lists(old(self).entries_of_task@).update(
                            p, (task_id, task_lists(old(self).entries_of_task@)[p].1.push(update_id))),
                        None => task_lists(final(self).entries_of_task@) == task_lists(old(self).entries_of_task@).push((task_id, seq![update_id])),
                    }
                },
                LogUpdate::Changed { update_id, details } => {
                    &&& final(self).entries_of_task == old(self).entries_of_task
                    &&& match key_position(old(self).log_entries@, update_id) {
                        None => r == Err::<(), LogError>(LogError::UnknownEntry) && final(self).log_entries == old(self).log_entries,
                        Some(p) => match changed_entry(old(self).log_entries@[p].1, details, now) {
                            None => r == Err::<(), LogError>(LogError::WrongKind) && final(self).log_entries@ == old(self).log_entries@,
                            Some(e) => r is Ok && final(self).log_entries@ == old(self).log_entries@.update(p, (update_id, e)),
                        },
                    }
                },
            },
    {
        proof { lemma_key_position(self.log_entries@, update_id_of(&update)); }
        match update {
            LogUpdate::Started { task_id, update_id, details } => {
                let ghost e = started_entry(task_id, details, now);
                let details = match details {
                    StartedDetails::ToolCall { tool_name, arguments } => LogDetails::ToolCall { tool_name, arguments, output: None },
                    StartedDetails::Section { name, units } => LogDetails::Section {
                        name,
                        total_units: units,
                        completed_units: match units { Some(_) => Some(0), None => None },
                        final_status: None,
                    },
                };
                let entry = LogEntry { task_id, details, start_time: now, end_time: None };
                assert(entry == e);
                let ghost before = self.log_entries@;
                match find_key(&self.log_entries, update_id) {
                    Some(p) => {
                        self.log_entries.set(p, (update_id, entry));
                        proof {
                            assert forall|i: int, j: int| 0 <= i < j < self.log_entries@.len()
                                implies #[trigger] self.log_entries@[i].0 != #[trigger] self.log_entries@[j].0 by {
                                assert(self.log_entries@[i].0 == before[i].0);
                                assert(self.log_entries@[j].0 == before[j].0);
                            }
                        }
                    },
                    None => {
                        self.log_entries.push((update_id, entry));
                        proof {
                            assert forall|i: int, j: int| 0 <= i < j < self.log_entries@.len()
                                implies #[trigger] self.log_entries@[i].0 != #[trigger] self.log_entries@[j].0 by {
                                if j < before.len() {
                                    assert(self.log_entries@[i].0 == before[i].0);
                                    assert(self.log_entries@[j].0 == before[j].0);
                                } else {
                                    assert(self.log_entries@[i].0 == before[i].0);
                                    assert(before[i].0 != update_id);
                                }
                            }
                        }
                    },
                }
                self.add_entry_for_task(task_id, update_id);
                Ok(())
            },
            LogUpdate::Changed { update_id, details } => {
                let p = match find_key(&self.log_entries, update_id) {
                    Some(p) => p,
                    None => return Err(LogError::UnknownEntry),
                };
                let fits = match (&details, &self.log_entries[p].1.details) {
                    (ChangedDetails::SetUnitsFinished { .. }, LogDetails::Section { .. }) => true,
                    (ChangedDetails::FinishedToolCall { .. }, LogDetails::ToolCall { .. }) => true,
                    (ChangedDetails::FinishedSection { .. }, LogDetails::Section { .. }) => true,
                    _ => false,
                };
                if !fits {
                    return Err(LogError::WrongKind);
                }
                let ghost before = self.log_entries@;
                let (key, mut entry) = self.log_entries.remove(p);
                let ghost target = changed_entry(entry, details, now);
                let LogEntry { task_id, details: old_details, start_time, end_time } = entry;
                let new_entry = match details {
                    ChangedDetails::SetUnitsFinished { units_finished } => match old_details {
                        LogDetails::Section { name, total_units, completed_units, final_status } => LogEntry {
                            task_id,
                            details: LogDetails::Section {
                                name,
                                total_units,
                                completed_units: match completed_units { Some(_) => Some(units_finished), None => None },
                                final_status,
                            },
                            start_time,
                            end_time,
                        },
                        other => {
                            proof { assert(false); }
                            LogEntry { task_id, details: other, start_time, end_time }
                        },
                    },
                    ChangedDetails::FinishedToolCall { output } => match old_details {
                        LogDetails::ToolCall { tool_name, arguments, .. } => LogEntry {
                            task_id,
                            details: LogDetails::ToolCall { tool_name, arguments, output: Some(output) },
                            start_time,
                            end_time: Some(now),
                        },
                        other => {
                            proof { assert(false); }
                            LogEntry { task_id, details: other, start_time, end_time }
                        },
                    },
                    ChangedDetails::FinishedSection { status } => match old_details {
                        LogDetails::Section { name, total_units, completed_units, .. } => LogEntry {
                            task_id,
                            details: LogDetails::Section { name, total_units, completed_units, final_status: Some(status) },
                            start_time,
                            end_time: Some(now),
                        },
                        other => {
                            proof { assert(false); }
                            LogEntry { task_id, details: other, start_time, end_time }
                        },
                    },
                };
                assert(target == Some(new_entry));
                self.log_entries.insert(p, (key, new_entry));
                assert(self.log_entries@ =~= before.update(p as int, (update_id, new_entry)));
                proof {
                    assert forall|i: int, j: int| 0 <= i < j < self.log_entries@.len()
                        implies #[trigger] self.log_entries@[i].0 != #[trigger] self.log_entries@[j].0 by {
                        assert(before[i].0 != before[j].0);
                    }
                }
                Ok(())
            },
        }
    }
}

/// A copy of a list of id pairs.
fn clone_pairs(v: &Vec<(usize, usize)>) -> (r: Vec<(usize, usize)>)
    ensures
        r@ == v@,
{
    let mut r: Vec<(usize, usize)> = Vec::new();
    let mut i: usize = 0;
    while i < v.len()
        invariant
            i <= v@.len(),
            r@ == v@.subrange(0, i as int),
        decreases v.len() - i,
    {
        r.push(v[i]);
        assert(r@ =~= v@.subrange(0, i + 1));
        i += 1;
    }
    assert(r@ =~= v@);
    r
}

/// The id of the entry an update concerns.
pub open spec fn update_id_of(update: &LogUpdate) -> (usize, usize) {
    match update {
        LogUpdate::Started { update_id, .. } => *update_id,
        LogUpdate::Changed { update_id, .. } => *update_id,
    }
}

/// The directory of the temporary files of a task: `temp/task_<model>_<task>`.
pub open spec fn temp_directory(task_id: (usize, usize)) -> Seq<char> {
    "temp/task_"@ + decimal(task_id.0 as nat) + "_"@ + decimal(task_id.1 as nat)
}

/// The name of temporary file number `counter` of type `file_type`: the number, then the type
/// after a dot (unless the type starts with one).
pub open spec fn temp_file_name(counter: usize, file_type: Seq<char>) -> Seq<char> {
    decimal(counter as nat) + (if file_type.len() > 0 && file_type[0] == '.' { Seq::empty() } else { "."@ }) + file_type
}

/// A started call of an external tool, by the id of its log entry.
#[derive(Clone, Copy, PartialEq, Eq, Debug)]
pub struct ToolCall {
    pub log_id: (usize, usize),
}

impl ToolCall {
    /// The update that records the output of the call.
    pub fn finish(self, output: String) -> (r: LogUpdate)
        ensures
            r == (LogUpdate::Changed { update_id: self.log_id, details: ChangedDetails::FinishedToolCall { output } }),
    {
        LogUpdate::Changed { update_id: self.log_id, details: ChangedDetails::FinishedToolCall { output } }
    }
}

/// A started section of a task's log, by the id of its entry; `counted` where it was started
/// with a number of units.
#[derive(Clone, Copy, PartialEq, Eq, Debug)]
pub struct Section {
    pub log_id: (usize, usize),
    pub counted: bool,
}

/// The update that ends the section with id `log_id` with a status of `kind`.
pub open spec fn section_end(log_id: (usize, usize), kind: StatusKind, details: Option<String>) -> LogUpdate {
    LogUpdate::Changed { update_id: log_id, details: ChangedDetails::FinishedSection { status: Status { kind, details } } }
}

impl Section {
    fn finish_internal(self, status: Status) -> (r: LogUpdate)
        ensures
            r == section_end(self.log_id, status.kind, status.details),
    {
        LogUpdate::Changed { update_id: self.log_id, details: ChangedDetails::FinishedSection { status } }
    }

    /// The update that ends the section successfully.
    pub fn finish_success(self) -> (r: LogUpdate)
        ensures
            r == section_end(self.log_id, StatusKind::Success, None),
    {
        self.finish_internal(Status { kind: StatusKind::Success, details: None })
    }

    /// The update that ends the section successfully, with an explanation.
    pub fn finish_success_with_text(self, details: String) -> (r: LogUpdate)
        ensures
            r == section_end(self.log_id, StatusKind::Success, Some(details)),
    {
        self.finish_internal(Status { kind: StatusKind::Success, details: Some(details) })
    }

    /// The update that ends the section without a known outcome.
    pub fn finish_unknown(self) -> (r: LogUpdate)
        ensures
            r == section_end(self.log_id, StatusKind::Unknown, None),
    {
        self.finish_internal(Status { kind: StatusKind::Unknown, details: None })
    }

    /// The update that ends the section without a known outcome, with an explanation.
    pub fn finish_unknown_with_text(self, details: String) -> (r: LogUpdate)
        ensures
            r == section_end(self.log_id, StatusKind::Unknown, Some(details)),
    {
        self.finish_internal(Status { kind: StatusKind::Unknown, details: Some(details) })
    }

    /// The update that ends the section as failed.
    pub fn finish_failure(self) -> (r: LogUpdate)
        ensures
            r == section_end(self.log_id, StatusKind::Failure, None),
    {
        self.finish_internal(Status { kind: StatusKind::Failure, details: None })
    }

    /// The update that ends the section as failed, with an explanation.
    pub fn finish_failure_with_text(self, details: String) -> (r: LogUpdate)
        ensures
            r == section_end(self.log_id, StatusKind::Failure, Some(details)),
    {
        self.finish_internal(Status { kind: StatusKind::Failure, details: Some(details) })
    }

    /// The update that sets how many units of a counted section are finished.
    pub fn set_unit_count(&self, units_finished: usize) -> (r: LogUpdate)
        requires
            self.counted,
        ensures
            r == (LogUpdate::Changed { update_id: self.log_id, details: ChangedDetails::SetUnitsFinished { units_finished } }),
    {
        LogUpdate::Changed { update_id: self.log_id, details: ChangedDetails::SetUnitsFinished { units_finished } }
    }
}

impl ToolRunner {
    /// The id of the next log entry: this runner's id and its update counter, which advances.
    pub fn next_update_id(&mut self) -> (r: (usize, usize))
        requires
            old(self).update_counter < usize::MAX,
        ensures
            r == (old(self).id, old(self).update_counter),
            final(self).update_counter == old(self).update_counter + 1,
            final(self).id == old(self).id,
            final(self).task_id == old(self).task_id,
            final(self).file_counter == old(self).file_counter,
    {
        let r = (self.id, self.update_counter);
        self.update_counter = self.update_counter + 1;
        r
    }

    /// The start of a call of the tool `name` with `arguments`: the handle of its log entry,
    /// which takes the next update id, and the update that records it. The caller runs the
    /// tool, then sends what [`ToolCall::finish`] gives for its output.
    pub fn start_tool_call(&mut self, name: String, arguments: Vec<String>) -> (r: (ToolCall, LogUpdate))
        requires
            old(self).update_counter < usize::MAX,
        ensures
            r.0.log_id == (old(self).id, old(self).update_counter),
            r.1 == (LogUpdate::Started {
                task_id: old(self).task_id,
                update_id: r.0.log_id,
                details: StartedDetails::ToolCall { tool_name: name, arguments },
            }),
            final(self).update_counter == old(self).update_counter + 1,
            final(self).id == old(self).id,
            final(self).task_id == old(self).task_id,
            final(self).file_counter == old(self).file_counter,
    {
        let update_id = self.next_update_id();
        let update = LogUpdate::Started {
            task_id: self.task_id,
            update_id,
            details: StartedDetails::ToolCall { tool_name: name, arguments },
        };
        (ToolCall { log_id: update_id }, update)
    }

    /// The start of a section `name` of the runner's task: its handle, which takes the next update
    /// id, and the update that records it.
    pub fn start_section(&mut self, name: String) -> (r: (Section, LogUpdate))
        requires
            old(self).update_counter < usize::MAX,
        ensures
            r.0 == (Section { log_id: (old(self).id, old(self).update_counter), counted: false }),
            r.1 == (LogUpdate::Started {
                task_id: old(self).task_id,
                update_id: r.0.log_id,
                details: StartedDetails::Section { name, units: None },
            }),
            final(self).update_counter == old(self).update_counter + 1,
            final(self).id == old(self).id,
            final(self).task_id == old(self).task_id,
            final(self).file_counter == old(self).file_counter,
    {
        self.start_section_internal(name, None)
    }

    /// The start of a section `name` of the runner's task that counts `units` units of work: its
    /// handle, which takes the next update id, and the update that records it.
    pub fn start_section_with_units(&mut self, name: String, units: usize) -> (r: (Section, LogUpdate))
        requires
            old(self).update_counter < usize::MAX,
        ensures
            r.0 == (Section { log_id: (old(self).id, old(self).update_counter), counted: true }),
            r.1 == (LogUpdate::Started {
                task_id: old(self).task_id,
                update_id: r.0.log_id,
                details: StartedDetails::Section { name, units: Some(units) },
            }),
            final(self).update_counter == old(self).update_counter + 1,
            final(self).id == old(self).id,
            final(self).task_id == old(self).task_id,
            final(self).file_counter == old(self).file_counter,
    {
        self.start_section_internal(name, Some(units))
    }

    fn start_section_internal(&mut self, name: String, units: Option<usize>) -> (r: (Section, LogUpdate))
        requires
            old(self).update_counter < usize::MAX,
        ensures
            r.0 == (Section { log_id: (old(self).id, old(self).update_counter), counted: units is Some }),
            r.1 == (LogUpdate::Started {
                task_id: old(self).task_id,
                update_id: r.0.log_id,
                details: StartedDetails::Section { name, units },
            }),
            final(self).update_counter == old(self).update_counter + 1,
            final(self).id == old(self).id,
            final(self).task_id == old(self).task_id,
            final(self).file_counter == old(self).file_counter,
    {
        let log_id = self.next_update_id();
        let counted = units.is_some();
        let update = LogUpdate::Started { task_id: self.task_id, update_id: log_id, details: StartedDetails::Section { name, units } };
        (Section { log_id, counted }, update)
    }

    /// The directory and the name of the next temporary file of type `file_type`, as
    /// [`temp_directory`] and [`temp_file_name`] say; the file counter advances.
    pub fn temp_file(&mut self, file_type: &str) -> (r: (String, String))
        requires
            old(self).file_counter < usize::MAX,
        ensures
            r.0@ == temp_directory(old(self).task_id),
            r.1@ == temp_file_name(old(self).file_counter, file_type@),
            final(self).file_counter == old(self).file_counter + 1,
            final(self).id == old(self).id,
            final(self).task_id == old(self).task_id,
            final(self).update_counter == old(self).update_counter,
    {
        let mut directory: Vec<char> = Vec::new();
        append_str(&mut directory, "temp/task_");
        append_decimal(&mut directory, self.task_id.0 as u64);
        append_str(&mut directory, "_");
        append_decimal(&mut directory, self.task_id.1 as u64);
        let mut file: Vec<char> = Vec::new();
        append_decimal(&mut file, self.file_counter as u64);
        let kind = str_chars(file_type);
        if !(kind.len() > 0 && kind[0] == '.') {
            append_str(&mut file, ".");
        }
        let ghost before_kind = file@;
        append_str(&mut file, file_type);
        proof {
            reveal_strlit(".");
            if kind@.len() > 0 && kind@[0] == '.' {
                assert(before_kind =~= decimal(old(self).file_counter as nat) + Seq::<char>::empty());
            }
        }
        self.file_counter = self.file_counter + 1;
        assert(directory@ =~= temp_directory(old(self).task_id));
        assert(file@ =~= temp_file_name(old(self).file_counter, file_type@));
        (string_from(&directory), string_from(&file))
    }
}

} // verus!
