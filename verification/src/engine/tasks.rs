use vstd::prelude::*;
use crate::engine::parameters::{ParameterDescription, ParameterType, ParameterValue};
use crate::engine::task_graph::{ExternalChange, ModifiedTaskDependencies, ModifiedTaskDependency, Modifications, TaskOutput};
use crate::text::{append_decimal, append_str, decimal, string_from};

verus! {

/// The first task of every repair-graph node.
#[derive(Clone, Copy, PartialEq, Eq, Debug)]
pub struct SetupTaskDescription {}

impl SetupTaskDescription {
    pub fn new() -> (r: Self)
        ensures
            r == (SetupTaskDescription {}),
    {
        SetupTaskDescription {}
    }
}

/// A task that checks the properties of the model.
#[derive(Clone, Copy, PartialEq, Eq, Debug)]
pub struct ModelCheckingTaskDescription {}

impl ModelCheckingTaskDescription {
    pub fn new() -> (r: Self)
        ensures
            r == (ModelCheckingTaskDescription {}),
    {
        ModelCheckingTaskDescription {}
    }
}

/// A task that sets up the repair engines.
#[derive(Clone, Copy, PartialEq, Eq, Debug)]
pub struct SetupRepairEnginesTaskDescription {}

impl SetupRepairEnginesTaskDescription {
    pub fn new() -> (r: Self)
        ensures
            r == (SetupRepairEnginesTaskDescription {}),
    {
        SetupRepairEnginesTaskDescription {}
    }
}

/// The task that carries out a [`SetupRepairEnginesTaskDescription`].
#[derive(Clone, Copy, PartialEq, Eq, Debug)]
pub struct SetupRepairEnginesTask {}

/// A task for trying out the workflow: it waits, may call the model checker, and waits again.
#[derive(Clone, Copy, PartialEq, Eq, Debug)]
pub struct DemoTaskDescription {
    pub delay_before: i64,
    pub delay_after: i64,
    pub call_prism: bool,
}

/// The task that carries out a [`DemoTaskDescription`].
#[derive(Clone, Copy, PartialEq, Eq, Debug)]
pub struct DemoTask {
    pub delay_before: i64,
    pub delay_after: i64,
    pub call_prism: bool,
}

/// What a demo task returns.
#[derive(Clone, Copy, PartialEq, Eq, Debug)]
pub struct DemoTaskOutput {
    pub was_even: bool,
}

/// The tasks a repair-graph node can run.
#[derive(Clone, Copy, PartialEq, Eq, Debug)]
pub enum TaskKind {
    Setup(SetupTaskDescription),
    ModelChecking(ModelCheckingTaskDescription),
    SetupRepairEngines(SetupRepairEnginesTaskDescription),
    Demo(DemoTaskDescription),
}

/// What the checker found for one property: a truth value, or a number as the checker
/// printed it.
pub enum CheckingResult {
    Bool(bool),
    Value(String),
}

/// Whether no property was found false.
pub open spec fn all_bools_satisfied(results: Seq<CheckingResult>) -> bool {
    forall|i: int| 0 <= i < results.len() ==> !(#[trigger] results[i] matches CheckingResult::Bool(false))
}

/// What the model-checking task adds once the properties are checked: it announces that the
/// repair is complete where no property was found false.
pub fn checking_modifications<M, P>(results: &Vec<CheckingResult>) -> (r: Modifications<TaskKind, M, P>)
    ensures
        r.new_tasks@.len() == 0,
        all_bools_satisfied(results@) ==> r.external_changes@.len() == 1 && r.external_changes@[0] is AnnounceCompletion,
        !all_bools_satisfied(results@) ==> r.external_changes@.len() == 0,
{
    let mut satisfied = true;
    let mut i: usize = 0;
    while i < results.len()
        invariant
            i <= results@.len(),
            satisfied == forall|j: int| 0 <= j < i ==> !(#[trigger] results@[j] matches CheckingResult::Bool(false)),
        decreases results.len() - i,
    {
        match &results[i] {
            CheckingResult::Bool(false) => satisfied = false,
            _ => {},
        }
        i += 1;
    }
    let mut modifications = Modifications::new();
    if satisfied {
        modifications.announce_completion();
    }
    modifications
}

impl TaskKind {
    /// The name of the task.
    pub fn name(&self) -> (r: String)
        ensures
            r@ == match self {
                TaskKind::Setup(_) => "SetupTask"@,
                TaskKind::ModelChecking(_) => "ModelCheckingTask"@,
                TaskKind::SetupRepairEngines(_) => "SetupRepairEnginesTask"@,
                TaskKind::Demo(_) => "DemoTask"@,
            },
    {
        match self {
            TaskKind::Setup(_) => "SetupTask".to_owned(),
            TaskKind::ModelChecking(_) => "ModelCheckingTask".to_owned(),
            TaskKind::SetupRepairEngines(_) => "SetupRepairEnginesTask".to_owned(),
            TaskKind::Demo(_) => "DemoTask".to_owned(),
        }
    }
}

/// What the setup task adds: a demo task that depends on it.
pub fn setup_modifications<M, P>() -> (r: Modifications<TaskKind, M, P>)
    ensures
        r.new_tasks@.len() == 1,
        r.new_tasks@[0].0 == TaskKind::Demo(DemoTaskDescription { delay_before: 1, delay_after: 2, call_prism: false }),
        r.new_tasks@[0].1.dependencies@ == seq![ModifiedTaskDependency::Parent],
        r.external_changes@.len() == 0,
{
    let mut modifications = Modifications::new();
    let dependencies = ModifiedTaskDependencies::new().on_self();
    modifications.create_task(TaskKind::Demo(DemoTaskDescription::new()), dependencies);
    assert(modifications.new_tasks@[0].1.dependencies@ =~= seq![ModifiedTaskDependency::Parent]);
    modifications
}

impl DemoTaskDescription {
    /// Wait one second, do not call the model checker, then wait two seconds.
    pub fn new() -> (r: Self)
        ensures
            r == (DemoTaskDescription { delay_before: 1, delay_after: 2, call_prism: false }),
    {
        DemoTaskDescription { delay_before: 1, delay_after: 2, call_prism: false }
    }

    /// The parameters: the delay before, whether to run the model checker, the delay after.
    pub fn parameter_descriptions(&self) -> (r: Vec<ParameterDescription>)
        ensures
            r@.len() == 3,
            r@[0].name@ == "Delay before"@ && r@[0].values == (ParameterType::Integer { min: Some(0), max: None }),
            r@[1].name@ == "Run PRISM"@ && r@[1].values is Boolean,
            r@[2].name@ == "Delay after"@ && r@[2].values == (ParameterType::Integer { min: Some(0), max: None }),
    {
        let mut r = Vec::new();
        r.push(ParameterDescription::new("Delay before".to_owned(), ParameterType::Integer { min: Some(0), max: None }));
        r.push(ParameterDescription::new("Run PRISM".to_owned(), ParameterType::Boolean));
        r.push(ParameterDescription::new("Delay after".to_owned(), ParameterType::Integer { min: Some(0), max: None }));
        r
    }

    /// The value of parameter `index`.
    pub fn parameter_value(&self, index: usize) -> (r: ParameterValue)
        requires
            index < 3,
        ensures
            index == 0 ==> r == ParameterValue::Integer(self.delay_before),
            index == 1 ==> r == ParameterValue::Boolean(self.call_prism),
            index == 2 ==> r == ParameterValue::Integer(self.delay_after),
    {
        if index == 0 {
            ParameterValue::Integer(self.delay_before)
        } else if index == 1 {
            ParameterValue::Boolean(self.call_prism)
        } else {
            ParameterValue::Integer(self.delay_after)
        }
    }

    /// Sets parameter `index`, whose value must be of its type.
    pub fn set_parameter_value(&mut self, index: usize, value: ParameterValue)
        requires
            index < 3,
            index == 1 ==> value is Boolean,
            index != 1 ==> value is Integer,
        ensures
            index == 0 ==> *final(self) == (DemoTaskDescription { delay_before: value->Integer_0, ..*old(self) }),
            index == 1 ==> *final(self) == (DemoTaskDescription { call_prism: value->Boolean_0, ..*old(self) }),
            index == 2 ==> *final(self) == (DemoTaskDescription { delay_after: value->Integer_0, ..*old(self) }),
    {
        if index == 0 {
            self.delay_before = value.int_value().unwrap();
        } else if index == 1 {
            self.call_prism = value.bool().unwrap();
        } else {
            self.delay_after = value.int_value().unwrap();
        }
    }

    /// The task that carries out this description.
    pub fn create(&self) -> (r: DemoTask)
        ensures
            r == (DemoTask { delay_before: self.delay_before, delay_after: self.delay_after, call_prism: self.call_prism }),
    {
        DemoTask { delay_before: self.delay_before, delay_after: self.delay_after, call_prism: self.call_prism }
    }
}

/// The summary of the demo task's parameters: `Wait <b> seconds` where there is a delay
/// before, then `Call prism` (after a comma where something precedes), then `Wait <a>
/// seconds` (`, then wait <a> seconds` after something) where there is a delay after; `Do
/// nothing` where there is nothing.
pub open spec fn demo_summary(delay_before: i64, call_prism: bool, delay_after: i64) -> Seq<char> {
    let first = if delay_before > 0 { "Wait "@ + decimal(delay_before as nat) + " seconds"@ } else { Seq::empty() };
    let second = if call_prism {
        if first.len() == 0 { "Call prism"@ } else { ", then call prism"@ }
    } else {
        Seq::empty()
    };
    let third = if delay_after > 0 {
        (if first.len() + second.len() == 0 { "Wait"@ } else { ", then wait"@ }) + " "@ + decimal(delay_after as nat) + " seconds"@
    } else {
        Seq::empty()
    };
    let all = first + second + third;
    if all.len() == 0 { "Do nothing"@ } else { all }
}

impl DemoTaskDescription {
    /// The summary of the parameters, as [`demo_summary`] says.
    pub fn parameter_summary(&self) -> (r: String)
        ensures
            r@ == demo_summary(self.delay_before, self.call_prism, self.delay_after),
    {
        proof {
            reveal_strlit("Wait ");
            reveal_strlit(" seconds");
            reveal_strlit("Call prism");
            reveal_strlit(", then call prism");
            reveal_strlit("Wait");
            reveal_strlit(", then wait");
            reveal_strlit(" ");
            reveal_strlit("Do nothing");
        }
        let mut out: Vec<char> = Vec::new();
        if self.delay_before > 0 {
            append_str(&mut out, "Wait ");
            append_decimal(&mut out, self.delay_before as u64);
            append_str(&mut out, " seconds");
        }
        let first_len = out.len();
        if self.call_prism {
            if out.len() == 0 {
                append_str(&mut out, "Call prism");
            } else {
                append_str(&mut out, ", then call prism");
            }
        }
        if self.delay_after > 0 {
            if out.len() == 0 {
                append_str(&mut out, "Wait");
            } else {
                append_str(&mut out, ", then wait");
            }
            append_str(&mut out, " ");
            append_decimal(&mut out, self.delay_after as u64);
            append_str(&mut out, " seconds");
        }
        if out.len() == 0 {
            append_str(&mut out, "Do nothing");
        }
        assert(out@ =~= demo_summary(self.delay_before, self.call_prism, self.delay_after));
        string_from(&out)
    }
}

/// The remainder of `a` divided by two, with the sign of `a`, as Rust's `%` gives it.
pub open spec fn remainder_of_two(a: i64) -> i64 {
    if a % 2 == 0 { 0i64 } else if a > 0 { 1i64 } else { -1i64 }
}

impl DemoTask {
    /// What a finished demo task returns: whether `delay_before + delay_after % 2` is zero
    /// (the remainder taking the sign of `delay_after`, the sum wrapping), and two new demo
    /// tasks that depend on it.
    pub fn finish<M, P>(&self) -> (r: TaskOutput<TaskKind, DemoTaskOutput, M, P>)
        ensures
            r.output.was_even == (vstd::wrapping::i64_specs::wrapping_add(self.delay_before, remainder_of_two(self.delay_after)) == 0),
            r.modifications.new_tasks@.len() == 2,
            forall|k: int| 0 <= k < 2 ==> (#[trigger] r.modifications.new_tasks@[k]).0
                == TaskKind::Demo(DemoTaskDescription { delay_before: 1, delay_after: 2, call_prism: false })
                && r.modifications.new_tasks@[k].1.dependencies@ == seq![ModifiedTaskDependency::Parent],
            r.modifications.external_changes@.len() == 0,
    {
        let mut modifications = Modifications::new();
        let mut i: usize = 0;
        while i < 2
            invariant
                i <= 2,
                modifications.new_tasks@.len() == i,
                modifications.external_changes@.len() == 0,
                forall|k: int| 0 <= k < i ==> (#[trigger] modifications.new_tasks@[k]).0
                    == TaskKind::Demo(DemoTaskDescription { delay_before: 1, delay_after: 2, call_prism: false })
                    && modifications.new_tasks@[k].1.dependencies@ == seq![ModifiedTaskDependency::Parent],
            decreases 2 - i,
        {
            let dependencies = ModifiedTaskDependencies::new().on_self();
            assert(dependencies.dependencies@ =~= seq![ModifiedTaskDependency::Parent]);
            modifications.create_task(TaskKind::Demo(DemoTaskDescription::new()), dependencies);
            i += 1;
        }
        let a = self.delay_after;
        let odd = if a >= 0 { (a as u64) % 2 == 1 } else { ((-(a + 1)) as u64) % 2 == 0 };
        let rem: i64 = if !odd { 0 } else if a > 0 { 1 } else { -1 };
        assert(rem == remainder_of_two(a));
        let was_even = self.delay_before.wrapping_add(rem) == 0;
        TaskOutput { output: DemoTaskOutput { was_even }, modifications }
    }
}

} // verus!
