use vstd::prelude::*;
use crate::pipeline::task_graph::Modifications;
use crate::prism::model::Model;
use crate::text::{append_decimal, append_str, decimal, string_from};

verus! {

/// Which module a synthesis task writes: a new one, or an existing one replaced.
#[derive(Clone, Copy, PartialEq, Eq, Debug)]
pub enum RepairModule {
    NewModule,
    ExistingModule { index: usize },
}

/// How a module choice is written: `new module`, or `replace module <index>`.
pub open spec fn module_text(m: RepairModule) -> Seq<char> {
    match m {
        RepairModule::NewModule => "new module"@,
        RepairModule::ExistingModule { index } => "replace module "@ + decimal(index as nat),
    }
}

impl RepairModule {
    /// The module choice as [`module_text`] writes it.
    pub fn to_text(&self) -> (r: String)
        ensures
            r@ == module_text(*self),
    {
        let mut out: Vec<char> = Vec::new();
        match self {
            RepairModule::NewModule => append_str(&mut out, "new module"),
            RepairModule::ExistingModule { index } => {
                append_str(&mut out, "replace module ");
                append_decimal(&mut out, *index as u64);
            },
        }
        assert(out@ =~= module_text(*self));
        string_from(&out)
    }
}

/// A task that synthesises a controller for one module choice.
#[derive(Clone, Copy, PartialEq, Eq, Debug)]
pub struct RepairTask {
    pub module: RepairModule,
}

/// A task that creates one synthesis task per repairable module and one for a new module.
#[derive(Clone, Copy, PartialEq, Eq, Debug)]
pub struct SynthesisSetupTask {}

/// A task that checks the properties of the model.
#[derive(Clone, Copy, PartialEq, Eq, Debug)]
pub struct ModelCheckingTask {}

impl ModelCheckingTask {
    pub fn new() -> (r: Self)
        ensures
            r == (ModelCheckingTask {}),
    {
        ModelCheckingTask {}
    }
}

/// A task that starts the repair engines.
#[derive(Clone, Copy, PartialEq, Eq, Debug)]
pub struct SetupRepairEnginesTask {}

impl SetupRepairEnginesTask {
    pub fn new() -> (r: Self)
        ensures
            r == (SetupRepairEnginesTask {}),
    {
        SetupRepairEnginesTask {}
    }
}

/// The first task of a model: it starts model checking and, after it, the repair engines.
#[derive(Clone, Copy, PartialEq, Eq, Debug)]
pub struct SetupTask {}

impl SetupTask {
    pub fn new() -> (r: Self)
        ensures
            r == (SetupTask {}),
    {
        SetupTask {}
    }
}

impl SynthesisSetupTask {
    pub fn new() -> (r: Self)
        ensures
            r == (SynthesisSetupTask {}),
    {
        SynthesisSetupTask {}
    }
}

/// The tasks of the pipeline.
#[derive(Clone, Copy, PartialEq, Eq, Debug)]
pub enum PipelineTask {
    Setup(SetupTask),
    ModelChecking(ModelCheckingTask),
    SetupRepairEngines(SetupRepairEnginesTask),
    SynthesisSetup(SynthesisSetupTask),
    Synthesis(RepairTask),
}

impl SetupTask {
    /// What the setup task (number `own_index`) adds: a model-checking task after it, and the
    /// repair engines after that.
    pub fn run<M, P>(&self, own_index: usize, modifications: &mut Modifications<PipelineTask, M, P>)
        requires
            old(modifications).new_tasks@.len() == 0,
            old(modifications).task_index_offset + 2 <= usize::MAX,
        ensures
            final(modifications).task_index_offset == old(modifications).task_index_offset,
            final(modifications).external_changes@ == old(modifications).external_changes@,
            final(modifications).new_tasks@.len() == 2,
            final(modifications).new_tasks@[0].0 == PipelineTask::ModelChecking(ModelCheckingTask {}),
            final(modifications).new_tasks@[0].1@ == seq![own_index],
            final(modifications).new_tasks@[1].0 == PipelineTask::SetupRepairEngines(SetupRepairEnginesTask {}),
            final(modifications).new_tasks@[1].1@ == seq![old(modifications).task_index_offset],
    {
        let mut deps = Vec::new();
        deps.push(own_index);
        let checking_task = modifications.create_task(PipelineTask::ModelChecking(ModelCheckingTask::new()), deps);
        let mut deps2 = Vec::new();
        deps2.push(checking_task);
        modifications.create_task(PipelineTask::SetupRepairEngines(SetupRepairEnginesTask::new()), deps2);
        assert(modifications.new_tasks@[0].1@ =~= seq![own_index]);
        assert(modifications.new_tasks@[1].1@ =~= seq![old(modifications).task_index_offset]);
    }
}

impl SetupRepairEnginesTask {
    /// What the repair-engines task (number `own_index`) adds: the synthesis setup after it.
    pub fn run<M, P>(&self, own_index: usize, modifications: &mut Modifications<PipelineTask, M, P>)
        requires
            old(modifications).task_index_offset + old(modifications).new_tasks@.len() + 1 <= usize::MAX,
        ensures
            final(modifications).task_index_offset == old(modifications).task_index_offset,
            final(modifications).external_changes@ == old(modifications).external_changes@,
            final(modifications).new_tasks@ == old(modifications).new_tasks@.push(
                (PipelineTask::SynthesisSetup(SynthesisSetupTask {}), final(modifications).new_tasks@.last().1)),
            final(modifications).new_tasks@.last().1@ == seq![own_index],
    {
        let mut deps = Vec::new();
        deps.push(own_index);
        modifications.create_task(PipelineTask::SynthesisSetup(SynthesisSetupTask::new()), deps);
        assert(modifications.new_tasks@.last().1@ =~= seq![own_index]);
    }
}

impl RepairTask {
    /// What a synthesis task adds once the game has been solved: a repair-graph node for the
    /// synthesised model, with the properties of the model it came from, where a controller
    /// was found; nothing where none was.
    pub fn record_outcome<D, P>(&self, synthesised: Option<Model>, properties: P, modifications: &mut Modifications<D, Model, P>)
        ensures
            final(modifications).task_index_offset == old(modifications).task_index_offset,
            final(modifications).new_tasks@ == old(modifications).new_tasks@,
            final(modifications).external_changes@ == match synthesised {
                Some(model) => old(modifications).external_changes@.push(
                    crate::engine::task_graph::ExternalChange::CreateRepair { model, properties }),
                None => old(modifications).external_changes@,
            },
    {
        if let Some(model) = synthesised {
            modifications.create_repair_graph_node(model, properties);
        }
    }
}

/// The synthesis tasks that the synthesis setup creates: one replacing each module with the
/// `repairable` flag, in module order, then one writing a new module.
pub open spec fn synthesis_tasks(m: Model) -> Seq<RepairModule>
    decreases m.modules@.len(),
{
    synthesis_prefix(m, m.modules@.len()).push(RepairModule::NewModule)
}

/// The synthesis tasks for the repairable modules among the first `count`.
pub open spec fn synthesis_prefix(m: Model, count: nat) -> Seq<RepairModule>
    decreases count,
{
    if count == 0 || count > m.modules@.len() {
        Seq::empty()
    } else {
        let before = synthesis_prefix(m, (count - 1) as nat);
        if m.modules@[count - 1].attributes.has_flag("repairable"@) {
            before.push(RepairModule::ExistingModule { index: (count - 1) as usize })
        } else {
            before
        }
    }
}

impl SynthesisSetupTask {
    /// What the synthesis setup (number `own_index`) adds, as [`synthesis_tasks`] says; each
    /// new task depends on it.
    pub fn run<M, P>(&self, model: &Model, own_index: usize, modifications: &mut Modifications<PipelineTask, M, P>)
        requires
            old(modifications).new_tasks@.len() == 0,
            old(modifications).task_index_offset + model.modules@.len() + 1 <= usize::MAX,
        ensures
            final(modifications).task_index_offset == old(modifications).task_index_offset,
            final(modifications).external_changes@ == old(modifications).external_changes@,
            final(modifications).new_tasks@.len() == synthesis_tasks(*model).len(),
            forall|k: int| 0 <= k < final(modifications).new_tasks@.len() ==>
                (#[trigger] final(modifications).new_tasks@[k]).0 == PipelineTask::Synthesis(RepairTask { module: synthesis_tasks(*model)[k] })
                && final(modifications).new_tasks@[k].1@ == seq![own_index],
    {
        let mut i: usize = 0;
        while i < model.modules.len()
            invariant
                i <= model.modules@.len(),
                modifications.task_index_offset == old(modifications).task_index_offset,
                modifications.external_changes@ == old(modifications).external_changes@,
                old(modifications).task_index_offset + model.modules@.len() + 1 <= usize::MAX,
                modifications.new_tasks@.len() == synthesis_prefix(*model, i as nat).len(),
                synthesis_prefix(*model, i as nat).len() <= i,
                forall|k: int| 0 <= k < modifications.new_tasks@.len() ==>
                    (#[trigger] modifications.new_tasks@[k]).0 == PipelineTask::Synthesis(RepairTask { module: synthesis_prefix(*model, i as nat)[k] })
                    && modifications.new_tasks@[k].1@ == seq![own_index],
            decreases model.modules.len() - i,
        {
            if model.modules[i].attributes.is_flag_set("repairable") {
                let mut deps = Vec::new();
                deps.push(own_index);
                assert(deps@ =~= seq![own_index]);
                modifications.create_task(PipelineTask::Synthesis(RepairTask { module: RepairModule::ExistingModule { index: i } }), deps);
            }
            proof { reveal_strlit("repairable"); }
            i += 1;
        }
        let mut deps = Vec::new();
        deps.push(own_index);
        assert(deps@ =~= seq![own_index]);
        modifications.create_task(PipelineTask::Synthesis(RepairTask { module: RepairModule::NewModule }), deps);
    }
}

} // verus!
