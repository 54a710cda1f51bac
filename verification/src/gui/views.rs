use vstd::prelude::*;
use crate::engine::synthesis::files::joined;
use crate::engine::tool_runner::{LogDetails, LogEntry, StatusKind};
use crate::text::{append_decimal, append_str, decimal, string_from};

verus! {

/// The state shown beside an entry of the task log.
#[derive(Clone, Copy, PartialEq, Eq, Debug)]
pub enum Status {
    NotSet,
    Running,
    Success,
    Failure,
}

/// An edge of the drawn graph, from one node to another by their positions in the node list.
#[derive(Clone, Copy, PartialEq, Eq, Debug)]
pub struct Connection {
    pub from: usize,
    pub to: usize,
}

impl Connection {
    pub fn new(from: usize, to: usize) -> (r: Self)
        ensures
            r.from == from,
            r.to == to,
    {
        Connection { from, to }
    }
}

/// The tab that shows one call of an external tool, by the id of its log entry.
#[derive(Clone, Copy, PartialEq, Eq, Debug)]
pub struct CallDetails {
    pub call_id: (usize, usize),
}

impl CallDetails {
    pub fn new(call_id: (usize, usize)) -> (r: Self)
        ensures
            r.call_id == call_id,
    {
        CallDetails { call_id }
    }
}

/// The tab that shows the repair graph.
#[derive(Clone, Copy, PartialEq, Eq, Debug)]
pub struct RepairGraphUITab {}

impl RepairGraphUITab {
    pub fn new() -> (r: Self)
        ensures
            r == (RepairGraphUITab {}),
    {
        RepairGraphUITab {}
    }
}

/// The messages of the task overview tab.
#[derive(Clone, Copy, PartialEq, Eq, Debug)]
pub enum TaskViewMessage {
    Open,
}

/// The tab that lists every log entry of every task.
#[derive(Clone, Copy, PartialEq, Eq, Debug)]
pub struct TaskViewTab {}

impl TaskViewTab {
    pub fn new() -> (r: Self)
        ensures
            r == (TaskViewTab {}),
    {
        TaskViewTab {}
    }
}

/// The status shown for a log entry: a tool call is running until it has output and then
/// succeeded; a section is running until it ends, and then shows how it ended (an unknown
/// end shows as running).
pub fn entry_status(details: &crate::engine::tool_runner::LogDetails) -> (r: Status)
    ensures
        r == match details {
            crate::engine::tool_runner::LogDetails::ToolCall { output, .. } =>
                if output is Some { Status::Success } else { Status::Running },
            crate::engine::tool_runner::LogDetails::Section { final_status, .. } => match final_status {
                None => Status::Running,
                Some(s) => match s.kind {
                    crate::engine::tool_runner::StatusKind::Success => Status::Success,
                    crate::engine::tool_runner::StatusKind::Failure => Status::Failure,
                    crate::engine::tool_runner::StatusKind::Unknown => Status::Running,
                },
            },
        },
{
    match details {
        crate::engine::tool_runner::LogDetails::ToolCall { output, .. } => {
            if output.is_some() { Status::Success } else { Status::Running }
        },
        crate::engine::tool_runner::LogDetails::Section { final_status, .. } => match final_status {
            None => Status::Running,
            Some(s) => match s.kind {
                crate::engine::tool_runner::StatusKind::Success => Status::Success,
                crate::engine::tool_runner::StatusKind::Failure => Status::Failure,
                crate::engine::tool_runner::StatusKind::Unknown => Status::Running,
            },
        },
    }
}


/// The mark shown before a log entry: a section that has ended shows how (`✓` success, `✗`
/// failure, `?` unknown); any other entry that has ended shows `✓`; an entry that has not
/// ended shows `⌛`.
pub open spec fn status_mark_of(entry: LogEntry) -> char {
    if entry.end_time is Some {
        match entry.details {
            LogDetails::Section { final_status: Some(s), .. } => match s.kind {
                StatusKind::Success => '\u{2713}',
                StatusKind::Failure => '\u{2717}',
                StatusKind::Unknown => '?',
            },
            _ => '\u{2713}',
        }
    } else {
        '\u{231b}'
    }
}

/// The mark shown before a log entry, as [`status_mark_of`] says.
pub fn status_mark(entry: &LogEntry) -> (r: char)
    ensures
        r == status_mark_of(*entry),
{
    if entry.end_time.is_some() {
        match &entry.details {
            LogDetails::Section { final_status: Some(s), .. } => match s.kind {
                StatusKind::Success => '\u{2713}',
                StatusKind::Failure => '\u{2717}',
                StatusKind::Unknown => '?',
            },
            _ => '\u{2713}',
        }
    } else {
        '\u{231b}'
    }
}

/// A tool call as shown in the log: the tool's name and its arguments, separated by spaces.
pub fn tool_call_text(tool_name: &String, arguments: &Vec<String>) -> (r: String)
    ensures
        r@ == joined(seq![tool_name@] + arguments@.map_values(|a: String| a@), " "@),
{
    let ghost av = arguments@.map_values(|a: String| a@);
    let mut out: Vec<char> = Vec::new();
    append_str(&mut out, tool_name.as_str());
    proof {
        assert(seq![tool_name@] + av.subrange(0, 0) =~= seq![tool_name@]);
    }
    let mut i: usize = 0;
    while i < arguments.len()
        invariant
            i <= arguments@.len(),
            av == arguments@.map_values(|a: String| a@),
            out@ == joined(seq![tool_name@] + av.subrange(0, i as int), " "@),
        decreases arguments.len() - i,
    {
        append_str(&mut out, " ");
        append_str(&mut out, arguments[i].as_str());
        proof {
            let next = seq![tool_name@] + av.subrange(0, i + 1);
            assert(next.drop_last() =~= seq![tool_name@] + av.subrange(0, i as int));
            assert(next.last() == arguments@[i as int]@);
        }
        i += 1;
    }
    assert(av.subrange(0, arguments@.len() as int) =~= av);
    string_from(&out)
}

/// How the progress of a section is shown after its name: ` (done/total)` for a section
/// counted in units (no count of finished units counts as none), nothing otherwise.
pub open spec fn units_text_of(total_units: Option<usize>, completed_units: Option<usize>) -> Seq<char> {
    match total_units {
        Some(t) => {
            let c: usize = match completed_units { Some(c) => c, None => 0 };
            " ("@ + decimal(c as nat) + "/"@ + decimal(t as nat) + ")"@
        },
        None => Seq::empty(),
    }
}

/// The progress of a section, as [`units_text_of`] says.
pub fn units_text(total_units: Option<usize>, completed_units: Option<usize>) -> (r: String)
    ensures
        r@ == units_text_of(total_units, completed_units),
{
    let mut out: Vec<char> = Vec::new();
    match total_units {
        Some(t) => {
            let c: usize = match completed_units { Some(c) => c, None => 0 };
            append_str(&mut out, " (");
            append_decimal(&mut out, c as u64);
            append_str(&mut out, "/");
            append_decimal(&mut out, t as u64);
            append_str(&mut out, ")");
        },
        None => {},
    }
    assert(out@ =~= units_text_of(total_units, completed_units));
    string_from(&out)
}

} // verus!
