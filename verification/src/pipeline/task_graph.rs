use vstd::prelude::*;
use crate::engine::task_graph::ExternalChange;

verus! {

/// The outputs of the tasks a task depends on, each with the index of its task.
pub struct DependencyOutputs<'a, O> {
    pub outputs: Vec<(usize, &'a O)>,
}

impl<'a, O> DependencyOutputs<'a, O> {
    pub fn new() -> (r: Self)
        ensures
            r.outputs@.len() == 0,
    {
        DependencyOutputs { outputs: Vec::new() }
    }

    /// The first output that `accepts` takes, with the index of its task.
    pub fn get<F: Fn(&O) -> bool>(&self, accepts: F) -> (r: Option<(usize, &'a O)>)
        requires
            forall|o: &O| accepts.requires((o,)),
        ensures
            r matches Some((i, o)) ==> exists|k: int| 0 <= k < self.outputs@.len()
                && self.outputs@[k] == (i, o) && accepts.ensures((o,), true)
                && forall|j: int| 0 <= j < k ==> accepts.ensures((self.outputs@[j].1,), false),
            r is None ==> forall|k: int| 0 <= k < self.outputs@.len() ==> accepts.ensures((self.outputs@[k].1,), false),
    {
        let mut k: usize = 0;
        while k < self.outputs.len()
            invariant
                k <= self.outputs@.len(),
                forall|o: &O| accepts.requires((o,)),
                forall|j: int| 0 <= j < k ==> accepts.ensures((self.outputs@[j].1,), false),
            decreases self.outputs.len() - k,
        {
            let (i, o) = self.outputs[k];
            if accepts(o) {
                return Some((i, o));
            }
            k += 1;
        }
        None
    }
}

/// What a task adds to its graph: new tasks, numbered from `task_index_offset` on, with the
/// indices of the tasks they depend on; and external changes.
pub struct Modifications<D, M, P> {
    pub task_index_offset: usize,
    pub new_tasks: Vec<(D, Vec<usize>)>,
    pub external_changes: Vec<ExternalChange<M, P>>,
}

impl<D, M, P> Modifications<D, M, P> {
    pub fn new(task_index_offset: usize) -> (r: Self)
        ensures
            r.task_index_offset == task_index_offset,
            r.new_tasks@.len() == 0,
            r.external_changes@.len() == 0,
    {
        Modifications { task_index_offset, new_tasks: Vec::new(), external_changes: Vec::new() }
    }

    /// Adds a task and returns the index it will have.
    pub fn create_task(&mut self, task: D, dependencies: Vec<usize>) -> (r: usize)
        requires
            old(self).task_index_offset + old(self).new_tasks@.len() <= usize::MAX,
        ensures
            r == old(self).task_index_offset + old(self).new_tasks@.len(),
            final(self).task_index_offset == old(self).task_index_offset,
            final(self).new_tasks@ == old(self).new_tasks@.push((task, dependencies)),
            final(self).external_changes@ == old(self).external_changes@,
    {
        let r = self.task_index_offset + self.new_tasks.len();
        self.new_tasks.push((task, dependencies));
        r
    }

    /// Asks for a repair-graph node for a repaired model.
    pub fn create_repair_graph_node(&mut self, model: M, properties: P)
        ensures
            final(self).task_index_offset == old(self).task_index_offset,
            final(self).new_tasks@ == old(self).new_tasks@,
            final(self).external_changes@ == old(self).external_changes@.push(ExternalChange::CreateRepair { model, properties }),
    {
        self.external_changes.push(ExternalChange::CreateRepair { model, properties });
    }

    /// Announces that the repair is complete.
    pub fn announce_completion(&mut self)
        ensures
            final(self).task_index_offset == old(self).task_index_offset,
            final(self).new_tasks@ == old(self).new_tasks@,
            final(self).external_changes@ == old(self).external_changes@.push(ExternalChange::AnnounceCompletion),
    {
        self.external_changes.push(ExternalChange::AnnounceCompletion);
    }
}

/// A task and the indices of the tasks it depends on.
pub struct TaskGraphNode<D> {
    pub task: D,
    pub depends_on: Vec<usize>,
}

/// The tasks of a model and the outputs of those that ran.
pub struct TaskGraph<D, O> {
    pub tasks: Vec<TaskGraphNode<D>>,
    pub outputs: Vec<Option<O>>,
}

/// Whether task `i` can run: it has not run and every task it depends on has.
pub open spec fn executable<D, O>(tasks: Seq<TaskGraphNode<D>>, outputs: Seq<Option<O>>, i: int) -> bool {
    &&& outputs[i] is None
    &&& forall|k: int| 0 <= k < tasks[i].depends_on@.len() ==> outputs[#[trigger] tasks[i].depends_on@[k] as int] is Some
}

impl<D, O> TaskGraph<D, O> {
    /// One output slot per task, and every dependency is a task.
    pub open spec fn wf(&self) -> bool {
        &&& self.outputs@.len() == self.tasks@.len()
        &&& forall|i: int, k: int| 0 <= i < self.tasks@.len() && 0 <= k < self.tasks@[i].depends_on@.len()
            ==> #[trigger] self.tasks@[i].depends_on@[k] < self.tasks@.len()
    }

    /// A graph whose only task is `setup`.
    pub fn new(setup: D) -> (r: Self)
        ensures
            r.wf(),
            r.tasks@.len() == 1,
            r.tasks@[0].task == setup,
            r.tasks@[0].depends_on@.len() == 0,
            r.outputs@[0] is None,
    {
        let mut tasks = Vec::new();
        tasks.push(TaskGraphNode { task: setup, depends_on: Vec::new() });
        let mut outputs = Vec::new();
        outputs.push(None);
        TaskGraph { tasks, outputs }
    }

    /// The first task that can run, if any.
    pub fn get_executable(&self) -> (r: Option<usize>)
        requires
            self.wf(),
        ensures
            r matches Some(i) ==> i < self.tasks@.len() && executable(self.tasks@, self.outputs@, i as int)
                && forall|j: int| 0 <= j < i ==> !executable(self.tasks@, self.outputs@, j),
            r is None ==> forall|j: int| 0 <= j < self.tasks@.len() ==> !executable(self.tasks@, self.outputs@, j),
    {
        let mut i: usize = 0;
        while i < self.tasks.len()
            invariant
                self.wf(),
                i <= self.tasks@.len(),
                forall|j: int| 0 <= j < i ==> !executable(self.tasks@, self.outputs@, j),
            decreases self.tasks.len() - i,
        {
            if self.outputs[i].is_none() {
                let deps = &self.tasks[i].depends_on;
                let mut ready = true;
                let mut k: usize = 0;
                while k < deps.len()
                    invariant
                        self.wf(),
                        i < self.tasks@.len(),
                        deps == &self.tasks@[i as int].depends_on,
                        k <= deps@.len(),
                        ready == forall|m: int| 0 <= m < k ==> self.outputs@[#[trigger] deps@[m] as int] is Some,
                    decreases deps.len() - k,
                {
                    let d = deps[k];
                    assert(d < self.tasks@.len());
                    if self.outputs[d].is_none() {
                        ready = false;
                    }
                    k += 1;
                }
                if ready {
                    return Some(i);
                }
            }
            i += 1;
        }
        None
    }

    /// The outputs of the tasks that task `index` depends on, in order; refused, naming the
    /// first one that has not run, where one has not.
    pub fn dependency_outputs(&self, index: usize) -> (r: Result<DependencyOutputs<'_, O>, usize>)
        requires
            self.wf(),
            index < self.tasks@.len(),
        ensures
            match r {
                Ok(d) => d.outputs@.len() == self.tasks@[index as int].depends_on@.len()
                    && forall|k: int| 0 <= k < d.outputs@.len() ==> {
                        let dep = #[trigger] self.tasks@[index as int].depends_on@[k];
                        &&& d.outputs@[k].0 == dep
                        &&& self.outputs@[dep as int] == Some(*d.outputs@[k].1)
                    },
                Err(dep) => exists|k: int| 0 <= k < self.tasks@[index as int].depends_on@.len()
                    && #[trigger] self.tasks@[index as int].depends_on@[k] == dep
                    && self.outputs@[dep as int] is None
                    && forall|j: int| 0 <= j < k ==> self.outputs@[self.tasks@[index as int].depends_on@[j] as int] is Some,
            },
    {
        let deps = &self.tasks[index].depends_on;
        let mut outputs: Vec<(usize, &O)> = Vec::new();
        let mut k: usize = 0;
        while k < deps.len()
            invariant
                self.wf(),
                index < self.tasks@.len(),
                deps == &self.tasks@[index as int].depends_on,
                k <= deps@.len(),
                outputs@.len() == k,
                forall|j: int| 0 <= j < k ==> {
                    let dep = #[trigger] deps@[j];
                    &&& outputs@[j].0 == dep
                    &&& self.outputs@[dep as int] == Some(*outputs@[j].1)
                },
            decreases deps.len() - k,
        {
            let d = deps[k];
            assert(d < self.tasks@.len());
            match &self.outputs[d] {
                Some(o) => outputs.push((d, o)),
                None => {
                    assert(deps@[k as int] == d);
                    return Err(d);
                },
            }
            k += 1;
        }
        Ok(DependencyOutputs { outputs })
    }

    /// Records the output of task `index`, which has not run, and appends the tasks it
    /// created; returns its external changes.
    pub fn record_execution<M, P>(&mut self, index: usize, output: O, modifications: Modifications<D, M, P>) -> (r: Vec<ExternalChange<M, P>>)
        requires
            old(self).wf(),
            index < old(self).tasks@.len(),
            modifications.task_index_offset == old(self).tasks@.len(),
            forall|k: int, m: int| 0 <= k < modifications.new_tasks@.len() && 0 <= m < modifications.new_tasks@[k].1@.len()
                ==> #[trigger] modifications.new_tasks@[k].1@[m] < old(self).tasks@.len() + modifications.new_tasks@.len(),
        ensures
            final(self).wf(),
            final(self).tasks@.len() == old(self).tasks@.len() + modifications.new_tasks@.len(),
            forall|i: int| 0 <= i < old(self).tasks@.len() ==> #[trigger] final(self).tasks@[i] == old(self).tasks@[i],
            forall|k: int| 0 <= k < modifications.new_tasks@.len() ==>
                #[trigger] final(self).tasks@[old(self).tasks@.len() + k] == (TaskGraphNode {
                    task: modifications.new_tasks@[k].0, depends_on: modifications.new_tasks@[k].1 }),
            final(self).outputs@ == old(self).outputs@.update(index as int, Some(output))
                + Seq::new(modifications.new_tasks@.len(), |k: int| None::<O>),
            r@ == modifications.external_changes@,
            !executable(final(self).tasks@, final(self).outputs@, index as int),
    {
        let ghost old_tasks = self.tasks@;
        let ghost old_outputs = self.outputs@;
        self.outputs.set(index, Some(output));
        let Modifications { task_index_offset, new_tasks, external_changes } = modifications;
        let ghost all_new = new_tasks@;
        let mut pending = new_tasks;
        let count = pending.len();
        let mut k: usize = 0;
        while k < count
            invariant
                count == all_new.len(),
                k <= count,
                pending@ == all_new.subrange(k as int, count as int),
                self.tasks@.len() == old_tasks.len() + k,
                self.outputs@.len() == old_tasks.len() + k,
                old_outputs.len() == old_tasks.len(),
                index < old_tasks.len(),
                forall|i: int| 0 <= i < old_tasks.len() ==> #[trigger] self.tasks@[i] == old_tasks[i],
                forall|j: int| 0 <= j < k ==> #[trigger] self.tasks@[old_tasks.len() + j] == (TaskGraphNode {
                    task: all_new[j].0, depends_on: all_new[j].1 }),
                self.outputs@ == old_outputs.update(index as int, Some(output)) + Seq::new(k as nat, |j: int| None::<O>),
            decreases count - k,
        {
            assert(pending@[0] == all_new[k as int]);
            let (task, depends_on) = pending.remove(0);
            assert(pending@ =~= all_new.subrange(k + 1, count as int));
            self.tasks.push(TaskGraphNode { task, depends_on });
            self.outputs.push(None);
            assert(self.outputs@ =~= old_outputs.update(index as int, Some(output)) + Seq::new((k + 1) as nat, |j: int| None::<O>));
            k += 1;
        }
        proof {
            assert forall|i: int, m: int| 0 <= i < self.tasks@.len() && 0 <= m < self.tasks@[i].depends_on@.len()
                implies #[trigger] self.tasks@[i].depends_on@[m] < self.tasks@.len() by {
                if i >= old_tasks.len() {
                    let j = i - old_tasks.len();
                    assert(self.tasks@[old_tasks.len() + j] == (TaskGraphNode::<D> { task: all_new[j].0, depends_on: all_new[j].1 }));
                    assert(all_new[j].1@[m] < old_tasks.len() + all_new.len());
                }
            }
        }
        external_changes
    }
}

} // verus!
