use vstd::prelude::*;
use crate::engine::task_graph::{
    dependencies_in_range, dependency_index, resolvable, ExternalChange, ModifiedTaskDependencies, ModifiedTaskDependency,
    TaskGraph, TaskGraphNode, TaskOutput, TaskStatus,
};

verus! {

/// The task of another repair-graph node that produced a repaired model.
#[derive(Clone, Copy, PartialEq, Eq, Debug)]
pub struct RepairGraphParent {
    pub model_index: usize,
    pub task_index: usize,
}

impl RepairGraphParent {
    pub fn new(model_index: usize, task_index: usize) -> (r: Self)
        ensures
            r.model_index == model_index,
            r.task_index == task_index,
    {
        RepairGraphParent { model_index, task_index }
    }
}

/// What waiting for the repair graph found.
#[derive(Clone, Copy, PartialEq, Eq, Debug)]
pub enum WaitResult {
    Completed,
    NoMoreTasks,
    MoreToDo,
}

/// What happened in a running repair.
#[derive(Clone, Copy, PartialEq, Eq, Debug)]
pub enum ProgressKind {
    TaskFinished,
    ToolCall,
    Tick,
}

/// A model under repair, with its properties, its tasks and the task it came from.
pub struct RepairGraphNode<M, P, D, O> {
    pub model: M,
    pub properties: P,
    pub tasks: TaskGraph<D, O>,
    pub parent: Option<RepairGraphParent>,
}

impl<M, P, D, O> RepairGraphNode<M, P, D, O> {
    /// A node whose only task is `setup`, ready to run.
    pub fn new(model: M, properties: P, parent: Option<RepairGraphParent>, setup: D) -> (r: Self)
        ensures
            r.model == model,
            r.properties == properties,
            r.parent == parent,
            r.tasks.tasks@.len() == 1,
            r.tasks.tasks@[0].description == setup,
            r.tasks.tasks@[0].dependencies@.len() == 0,
            r.tasks.tasks@[0].status is Ready,
    {
        let mut tasks = TaskGraph::new();
        tasks.add_task(setup, Vec::new());
        RepairGraphNode { model, properties, tasks, parent }
    }
}

/// The models under repair and their tasks.
pub struct RepairGraph<M, P, D, O> {
    pub nodes: Vec<RepairGraphNode<M, P, D, O>>,
}

/// The number of repaired models that a list of changes asks for.
pub open spec fn created_count<M, P>(changes: Seq<ExternalChange<M, P>>) -> nat
    decreases changes.len(),
{
    if changes.len() == 0 {
        0
    } else {
        created_count(changes.drop_last()) + if changes.last() is CreateRepair { 1nat } else { 0nat }
    }
}

/// Whether every dependency on a created task names one of the created tasks.
pub open spec fn created_within<D>(new_tasks: Seq<(D, ModifiedTaskDependencies)>) -> bool {
    forall|k: int, j: int| 0 <= k < new_tasks.len() && 0 <= j < new_tasks[k].1.dependencies@.len() ==>
        (#[trigger] new_tasks[k].1.dependencies@[j] matches ModifiedTaskDependency::NewTask { new_task_index }
            ==> new_task_index < new_tasks.len())
}

/// The models and properties of the repaired models that a list of changes asks for, in
/// order.
pub open spec fn created_repairs<M, P>(changes: Seq<ExternalChange<M, P>>) -> Seq<(M, P)>
    decreases changes.len(),
{
    if changes.len() == 0 {
        Seq::empty()
    } else {
        let rest = created_repairs(changes.drop_last());
        match changes.last() {
            ExternalChange::CreateRepair { model, properties } => rest.push((model, properties)),
            ExternalChange::AnnounceCompletion => rest,
        }
    }
}

impl<M, P, D, O> RepairGraph<M, P, D, O> {
    /// A graph with one node for the model to repair.
    pub fn with_initial_node(model: M, properties: P, setup: D) -> (r: Self)
        ensures
            r.nodes@.len() == 1,
            r.nodes@[0].model == model,
            r.nodes@[0].properties == properties,
            r.nodes@[0].parent is None,
            r.nodes@[0].tasks.tasks@.len() == 1,
            r.nodes@[0].tasks.tasks@[0].description == setup,
            r.nodes@[0].tasks.tasks@[0].status is Ready,
    {
        let mut nodes = Vec::new();
        nodes.push(RepairGraphNode::new(model, properties, None, setup));
        RepairGraph { nodes }
    }

    /// Marks a task as running since `start_time`.
    pub fn start_task(&mut self, model_index: usize, task_index: usize, start_time: u64)
        requires
            model_index < old(self).nodes@.len(),
            task_index < old(self).nodes@[model_index as int].tasks.tasks@.len(),
        ensures
            final(self).nodes@.len() == old(self).nodes@.len(),
            forall|m: int| 0 <= m < final(self).nodes@.len() && m != model_index ==> #[trigger] final(self).nodes@[m] == old(self).nodes@[m],
            final(self).nodes@[model_index as int].model == old(self).nodes@[model_index as int].model,
            final(self).nodes@[model_index as int].properties == old(self).nodes@[model_index as int].properties,
            final(self).nodes@[model_index as int].parent == old(self).nodes@[model_index as int].parent,
            final(self).nodes@[model_index as int].tasks.tasks@.len() == old(self).nodes@[model_index as int].tasks.tasks@.len(),
            forall|t: int| 0 <= t < final(self).nodes@[model_index as int].tasks.tasks@.len() && t != task_index
                ==> #[trigger] final(self).nodes@[model_index as int].tasks.tasks@[t] == old(self).nodes@[model_index as int].tasks.tasks@[t],
            final(self).nodes@[model_index as int].tasks.tasks@[task_index as int].description
                == old(self).nodes@[model_index as int].tasks.tasks@[task_index as int].description,
            final(self).nodes@[model_index as int].tasks.tasks@[task_index as int].dependencies
                == old(self).nodes@[model_index as int].tasks.tasks@[task_index as int].dependencies,
            final(self).nodes@[model_index as int].tasks.tasks@[task_index as int].status == (TaskStatus::<O>::Running { start_time }),
    {
        let mut node = self.nodes.remove(model_index);
        let mut task = node.tasks.tasks.remove(task_index);
        task.status = TaskStatus::Running { start_time };
        node.tasks.tasks.insert(task_index, task);
        self.nodes.insert(model_index, node);
    }

    /// Records that a running task has finished at time `now` with `result`: the task is
    /// done (for as long as it ran); the tasks it created are added to its node, after the
    /// existing ones, with their dependencies resolved against it; and each repaired model it
    /// asks for becomes a new node whose parent is the task and whose only task comes from
    /// `fresh_setup`.
    pub fn process_output<F: Fn() -> D>(
        &mut self,
        model_index: usize,
        task_index: usize,
        result: TaskOutput<D, O, M, P>,
        now: u64,
        fresh_setup: F,
    )
        requires
            model_index < old(self).nodes@.len(),
            task_index < old(self).nodes@[model_index as int].tasks.tasks@.len(),
            old(self).nodes@[model_index as int].tasks.tasks@[task_index as int].status is Running,
            forall|k: int| 0 <= k < result.modifications.new_tasks@.len() ==> resolvable(
                (#[trigger] result.modifications.new_tasks@[k]).1.dependencies@,
                old(self).nodes@[model_index as int].tasks.tasks@[task_index as int].dependencies@,
                old(self).nodes@[model_index as int].tasks.tasks@.len() as usize,
            ),
            old(self).nodes@[model_index as int].tasks.tasks@.len() + result.modifications.new_tasks@.len() <= usize::MAX,
            fresh_setup.requires(()),
        ensures
            ({
                let old_node = old(self).nodes@[model_index as int];
                let node = final(self).nodes@[model_index as int];
                let old_tasks = old_node.tasks.tasks@;
                let task = old_tasks[task_index as int];
                let new_tasks = result.modifications.new_tasks@;
                &&& node.model == old_node.model
                &&& node.properties == old_node.properties
                &&& node.parent == old_node.parent
                &&& node.tasks.tasks@.len() == old_tasks.len() + new_tasks.len()
                &&& forall|t: int| 0 <= t < old_tasks.len() && t != task_index ==> #[trigger] node.tasks.tasks@[t] == old_tasks[t]
                &&& node.tasks.tasks@[task_index as int].description == task.description
                &&& node.tasks.tasks@[task_index as int].dependencies == task.dependencies
                &&& node.tasks.tasks@[task_index as int].status == (TaskStatus::Done {
                        output: result.output,
                        elapsed: if now >= task.status->start_time { (now - task.status->start_time) as u64 } else { 0 },
                    })
                &&& forall|k: int| 0 <= k < new_tasks.len() ==> {
                        let added = #[trigger] node.tasks.tasks@[old_tasks.len() + k];
                        &&& added.description == new_tasks[k].0
                        &&& added.status is Ready
                        &&& added.dependencies@.len() == new_tasks[k].1.dependencies@.len()
                        &&& forall|j: int| 0 <= j < added.dependencies@.len() ==> #[trigger] added.dependencies@[j] as int
                            == dependency_index(new_tasks[k].1.dependencies@[j], task.dependencies@, task_index, old_tasks.len() as usize)
                    }
                &&& dependencies_in_range(old_tasks) && created_within(new_tasks) ==> dependencies_in_range(node.tasks.tasks@)
            }),
            final(self).nodes@.len() == old(self).nodes@.len() + created_count(result.modifications.external_changes@),
            forall|m: int| 0 <= m < old(self).nodes@.len() && m != model_index ==> #[trigger] final(self).nodes@[m] == old(self).nodes@[m],
            created_repairs(result.modifications.external_changes@).len() == created_count(result.modifications.external_changes@),
            forall|m: int| old(self).nodes@.len() <= m < final(self).nodes@.len() ==> {
                let node = #[trigger] final(self).nodes@[m];
                &&& (node.model, node.properties) == created_repairs(result.modifications.external_changes@)[m - old(self).nodes@.len()]
                &&& node.parent == Some(RepairGraphParent { model_index, task_index })
                &&& node.tasks.tasks@.len() == 1
                &&& node.tasks.tasks@[0].status is Ready
                &&& node.tasks.tasks@[0].dependencies@.len() == 0
                &&& call_ensures(fresh_setup, (), node.tasks.tasks@[0].description)
            },
    {
        let ghost old_nodes = self.nodes@;
        let mut node = self.nodes.remove(model_index);
        let ghost old_tasks = node.tasks.tasks@;
        let mut task = node.tasks.tasks.remove(task_index);
        let ghost old_task = task;
        let start = match task.status {
            TaskStatus::Running { start_time } => start_time,
            _ => {
                proof { assert(false); }
                0
            },
        };
        let elapsed = if now >= start { now - start } else { 0 };
        let TaskOutput { output, modifications } = result;
        task.status = TaskStatus::Done { output, elapsed };
        let parent_dependencies = clone_indices(&task.dependencies);
        node.tasks.tasks.insert(task_index, task);
        let first_new_task_index = node.tasks.tasks.len();
        let ghost mid_tasks = node.tasks.tasks@;
        let crate::engine::task_graph::Modifications { new_tasks, external_changes } = modifications;
        let ghost all_new = new_tasks@;
        let mut pending = new_tasks;
        let mut k: usize = 0;
        let count = pending.len();
        while k < count
            invariant
                count == all_new.len(),
                k <= count,
                model_index < old_nodes.len(),
                node.model == old_nodes[model_index as int].model,
                node.properties == old_nodes[model_index as int].properties,
                node.parent == old_nodes[model_index as int].parent,
                pending@ == all_new.subrange(k as int, count as int),
                forall|j: int| 0 <= j < all_new.len() ==> resolvable(
                    (#[trigger] all_new[j]).1.dependencies@, parent_dependencies@, first_new_task_index),
                first_new_task_index == mid_tasks.len(),
                node.tasks.tasks@.len() == first_new_task_index + k,
                forall|t: int| 0 <= t < first_new_task_index ==> #[trigger] node.tasks.tasks@[t] == mid_tasks[t],
                forall|j: int| 0 <= j < k ==> {
                    let added = #[trigger] node.tasks.tasks@[first_new_task_index + j];
                    &&& added.description == all_new[j].0
                    &&& added.status is Ready
                    &&& added.dependencies@.len() == all_new[j].1.dependencies@.len()
                    &&& forall|i: int| 0 <= i < added.dependencies@.len() ==> #[trigger] added.dependencies@[i] as int
                        == dependency_index(all_new[j].1.dependencies@[i], parent_dependencies@, task_index, first_new_task_index)
                },
            decreases count - k,
        {
            assert(pending@[0] == all_new[k as int]);
            let (description, dependencies) = pending.remove(0);
            assert(pending@ =~= all_new.subrange(k + 1, count as int));
            let indices = dependencies.as_indices(parent_dependencies.as_slice(), task_index, first_new_task_index);
            node.tasks.tasks.push(TaskGraphNode { description, dependencies: indices, status: TaskStatus::Ready });
            k += 1;
        }
        proof {
            if dependencies_in_range(old_tasks) && created_within(all_new) {
                let tasks = node.tasks.tasks@;
                assert(first_new_task_index == old_tasks.len());
                assert forall|i: int, k: int| 0 <= i < tasks.len() && 0 <= k < tasks[i].dependencies@.len()
                    implies #[trigger] tasks[i].dependencies@[k] < tasks.len() by {
                    if i < first_new_task_index {
                        assert(tasks[i] == mid_tasks[i]);
                        if i != task_index {
                            assert(mid_tasks[i] == old_tasks[i]);
                        }
                        assert(old_tasks[i].dependencies@[k] < old_tasks.len());
                    } else {
                        let j = i - first_new_task_index;
                        assert(first_new_task_index + j == i);
                        let added = tasks[first_new_task_index + j];
                        assert(added.dependencies@.len() == all_new[j].1.dependencies@.len());
                        let d = all_new[j].1.dependencies@[k];
                        assert(added.dependencies@[k] as int
                            == dependency_index(d, parent_dependencies@, task_index, first_new_task_index));
                        assert(tasks[i].dependencies@[k] as int
                            == dependency_index(d, parent_dependencies@, task_index, first_new_task_index));
                        match d {
                            ModifiedTaskDependency::ParentDependency { parent_dependency_index } => {
                                assert(resolvable(all_new[j].1.dependencies@, parent_dependencies@, first_new_task_index));
                                assert(parent_dependency_index < parent_dependencies@.len());
                                assert(old_tasks[task_index as int].dependencies@[parent_dependency_index as int] < old_tasks.len());
                            },
                            ModifiedTaskDependency::Parent => {},
                            ModifiedTaskDependency::NewTask { new_task_index } => {
                                assert(new_task_index < all_new.len());
                            },
                        }
                    }
                }
            }
        }
        self.nodes.insert(model_index, node);
        let ghost after_tasks = self.nodes@;
        let ghost all_changes = external_changes@;
        let mut changes = external_changes;
        let mut processed: usize = 0;
        let total = changes.len();
        while processed < total
            invariant
                total == all_changes.len(),
                processed <= total,
                changes@ == all_changes.subrange(processed as int, total as int),
                self.nodes@.len() == after_tasks.len() + created_count(all_changes.subrange(0, processed as int)),
                created_repairs(all_changes.subrange(0, processed as int)).len() == created_count(all_changes.subrange(0, processed as int)),
                after_tasks.len() == old_nodes.len(),
                forall|m: int| 0 <= m < after_tasks.len() ==> #[trigger] self.nodes@[m] == after_tasks[m],
                forall|m: int| after_tasks.len() <= m < self.nodes@.len() ==> {
                    let n = #[trigger] self.nodes@[m];
                    &&& (n.model, n.properties) == created_repairs(all_changes.subrange(0, processed as int))[m - after_tasks.len()]
                    &&& n.parent == Some(RepairGraphParent { model_index, task_index })
                    &&& n.tasks.tasks@.len() == 1
                    &&& n.tasks.tasks@[0].status is Ready
                    &&& n.tasks.tasks@[0].dependencies@.len() == 0
                    &&& call_ensures(fresh_setup, (), n.tasks.tasks@[0].description)
                },
                fresh_setup.requires(()),
            decreases total - processed,
        {
            assert(changes@[0] == all_changes[processed as int]);
            assert(all_changes.subrange(0, processed + 1).drop_last() =~= all_changes.subrange(0, processed as int));
            let change = changes.remove(0);
            assert(changes@ =~= all_changes.subrange(processed + 1, total as int));
            match change {
                ExternalChange::CreateRepair { model, properties } => {
                    let setup = fresh_setup();
                    let parent = RepairGraphParent::new(model_index, task_index);
                    self.nodes.push(RepairGraphNode::new(model, properties, Some(parent), setup));
                },
                ExternalChange::AnnounceCompletion => {},
            }
            processed += 1;
        }
        assert(all_changes.subrange(0, total as int) =~= all_changes);
    }
}

/// A copy of a list of indices.
pub fn clone_indices(v: &Vec<usize>) -> (r: Vec<usize>)
    ensures
        r@ == v@,
{
    let mut r: Vec<usize> = Vec::new();
    let mut i: usize = 0;
    while i < v.len()
        invariant
            i <= v@.len(),
            r@ == v@.subrange(0, i as int),
        decreases v.len() - i,
    {
        r.push(v[i]);
        assert(r@ =~= v@.subrange(0, i + 1));
        i += 1;
    }
    assert(r@ =~= v@);
    r
}

} // verus!
