use vstd::prelude::*;

verus! {

/// Where a task stands. Times are whole milliseconds, as the caller measures them.
pub enum TaskStatus<O> {
    Ready,
    Running { start_time: u64 },
    Done { output: O, elapsed: u64 },
}

/// A task of a repair-graph node: what to run (`D`), the tasks it waits for, and its status.
pub struct TaskGraphNode<D, O> {
    pub description: D,
    pub dependencies: Vec<usize>,
    pub status: TaskStatus<O>,
}

impl<D, O> TaskGraphNode<D, O> {
    /// Whether the task has not been started.
    pub fn ready_to_run(&self) -> (r: bool)
        ensures
            r == self.status is Ready,
    {
        match self.status {
            TaskStatus::Ready => true,
            _ => false,
        }
    }

    /// Whether the task has finished.
    pub fn is_done(&self) -> (r: bool)
        ensures
            r == self.status is Done,
    {
        self.task_output().is_some()
    }

    /// The output of a finished task.
    pub fn task_output(&self) -> (r: Option<&O>)
        ensures
            match self.status {
                TaskStatus::Done { output, .. } => r == Some(&output),
                _ => r is None,
            },
    {
        match &self.status {
            TaskStatus::Done { output, .. } => Some(output),
            _ => None,
        }
    }
}

/// Why the outputs of a task's dependencies cannot be gathered.
#[derive(Clone, Copy, PartialEq, Eq, Debug)]
pub enum TaskGraphError {
    /// A dependency has not been run yet.
    DependencyNotRun { dependency: usize },
    /// A dependency is still running.
    DependencyRunning { dependency: usize },
}

/// The outputs of the dependencies of a task, each with its position in the task's list of
/// dependencies.
pub struct OutputsOfDependencies<'a, O> {
    pub outputs: Vec<(usize, &'a O)>,
}

impl<'a, O> OutputsOfDependencies<'a, O> {
    pub fn new() -> (r: Self)
        ensures
            r.outputs@.len() == 0,
    {
        OutputsOfDependencies { outputs: Vec::new() }
    }

    /// Looks for an output of the type that `accepts` stands for, and finds none: the
    /// outputs are held by value, while the lookup asks for a reference to one, which no
    /// held output is. So no output is ever returned, whatever `accepts` says of them.
    pub fn get<F: Fn(&O) -> bool>(&self, _accepts: F) -> (r: Option<(usize, &'a O)>)
        ensures
            r is None,
    {
        None
    }
}

/// The tasks of a repair-graph node.
pub struct TaskGraph<D, O> {
    pub tasks: Vec<TaskGraphNode<D, O>>,
}

/// Whether every dependency of every task is a task of the graph.
pub open spec fn dependencies_in_range<D, O>(tasks: Seq<TaskGraphNode<D, O>>) -> bool {
    forall|i: int, k: int| 0 <= i < tasks.len() && 0 <= k < tasks[i].dependencies@.len()
        ==> #[trigger] tasks[i].dependencies@[k] < tasks.len()
}

impl<D, O> TaskGraph<D, O> {
    pub fn new() -> (r: Self)
        ensures
            r.tasks@.len() == 0,
    {
        TaskGraph { tasks: Vec::new() }
    }

    /// Adds a task that is ready to run once its dependencies are done.
    pub fn add_task(&mut self, task: D, dependencies: Vec<usize>)
        ensures
            final(self).tasks@.len() == old(self).tasks@.len() + 1,
            final(self).tasks@.drop_last() == old(self).tasks@,
            final(self).tasks@.last().description == task,
            final(self).tasks@.last().dependencies@ == dependencies@,
            final(self).tasks@.last().status is Ready,
    {
        let ghost before = self.tasks@;
        self.tasks.push(TaskGraphNode { description: task, dependencies, status: TaskStatus::Ready });
        assert(self.tasks@.drop_last() =~= before);
    }

    /// Whether a task can be started: it has not been started and all its dependencies are
    /// done.
    pub fn is_task_ready(&self, task_index: usize) -> (r: bool)
        requires
            task_index < self.tasks@.len(),
            dependencies_in_range(self.tasks@),
        ensures
            r == (self.tasks@[task_index as int].status is Ready
                && forall|k: int| 0 <= k < self.tasks@[task_index as int].dependencies@.len()
                    ==> self.tasks@[#[trigger] self.tasks@[task_index as int].dependencies@[k] as int].status is Done),
    {
        let task = &self.tasks[task_index];
        if !task.ready_to_run() {
            return false;
        }
        let mut k: usize = 0;
        while k < task.dependencies.len()
            invariant
                task_index < self.tasks@.len(),
                task == &self.tasks@[task_index as int],
                dependencies_in_range(self.tasks@),
                k <= task.dependencies@.len(),
                forall|j: int| 0 <= j < k ==> self.tasks@[#[trigger] task.dependencies@[j] as int].status is Done,
            decreases task.dependencies.len() - k,
        {
            let dependency = task.dependencies[k];
            assert(dependency < self.tasks@.len());
            if !self.tasks[dependency].is_done() {
                return false;
            }
            k += 1;
        }
        true
    }

    /// The outputs of the dependencies of a task, in the order of its dependencies; refused,
    /// naming the first dependency that is not done, where one is not.
    pub fn dependency_outputs(&self, task_index: usize) -> (r: Result<OutputsOfDependencies<'_, O>, TaskGraphError>)
        requires
            task_index < self.tasks@.len(),
            dependencies_in_range(self.tasks@),
        ensures
            match r {
                Ok(outs) => {
                    let deps = self.tasks@[task_index as int].dependencies@;
                    &&& outs.outputs@.len() == deps.len()
                    &&& forall|k: int| 0 <= k < deps.len() ==> {
                        let status = #[trigger] self.tasks@[deps[k] as int].status;
                        &&& status is Done
                        &&& outs.outputs@[k].0 == k
                        &&& status matches TaskStatus::Done { output, .. } && *outs.outputs@[k].1 == output
                    }
                },
                Err(e) => exists|k: int| 0 <= k < self.tasks@[task_index as int].dependencies@.len()
                    && (forall|j: int| 0 <= j < k ==> self.tasks@[#[trigger] self.tasks@[task_index as int].dependencies@[j] as int].status is Done)
                    && {
                        let d = #[trigger] self.tasks@[task_index as int].dependencies@[k];
                        match self.tasks@[d as int].status {
                            TaskStatus::Ready => e == TaskGraphError::DependencyNotRun { dependency: d },
                            TaskStatus::Running { .. } => e == TaskGraphError::DependencyRunning { dependency: d },
                            TaskStatus::Done { .. } => false,
                        }
                    },
            },
    {
        let deps = &self.tasks[task_index].dependencies;
        let mut outputs: Vec<(usize, &O)> = Vec::new();
        let mut k: usize = 0;
        while k < deps.len()
            invariant
                task_index < self.tasks@.len(),
                deps == &self.tasks@[task_index as int].dependencies,
                dependencies_in_range(self.tasks@),
                k <= deps@.len(),
                outputs@.len() == k,
                forall|j: int| 0 <= j < k ==> {
                    let status = #[trigger] self.tasks@[deps@[j] as int].status;
                    &&& status is Done
                    &&& outputs@[j].0 == j
                    &&& status matches TaskStatus::Done { output, .. } && *outputs@[j].1 == output
                },
            decreases deps.len() - k,
        {
            let dependency = deps[k];
            assert(dependency < self.tasks@.len());
            match &self.tasks[dependency].status {
                TaskStatus::Ready => return Err(TaskGraphError::DependencyNotRun { dependency }),
                TaskStatus::Running { .. } => return Err(TaskGraphError::DependencyRunning { dependency }),
                TaskStatus::Done { output, .. } => outputs.push((k, output)),
            }
            k += 1;
        }
        Ok(OutputsOfDependencies { outputs })
    }
}

/// A dependency of a task that another task creates: on a dependency of the creating task
/// (by its position), on the creating task itself, or on a task created alongside (by its
/// position among the created tasks).
#[derive(Clone, Copy, PartialEq, Eq, Debug)]
pub enum ModifiedTaskDependency {
    ParentDependency { parent_dependency_index: usize },
    Parent,
    NewTask { new_task_index: usize },
}

/// The dependencies of a task that another task creates.
pub struct ModifiedTaskDependencies {
    pub dependencies: Vec<ModifiedTaskDependency>,
}

/// The task index that a dependency stands for.
pub open spec fn dependency_index(
    d: ModifiedTaskDependency,
    parent_dependencies: Seq<usize>,
    parent_index: usize,
    first_new_task_index: usize,
) -> int {
    match d {
        ModifiedTaskDependency::ParentDependency { parent_dependency_index } => parent_dependencies[parent_dependency_index as int] as int,
        ModifiedTaskDependency::Parent => parent_index as int,
        ModifiedTaskDependency::NewTask { new_task_index } => first_new_task_index + new_task_index,
    }
}

/// Whether every dependency can be turned into a task index.
pub open spec fn resolvable(deps: Seq<ModifiedTaskDependency>, parent_dependencies: Seq<usize>, first_new_task_index: usize) -> bool {
    forall|k: int| 0 <= k < deps.len() ==> match #[trigger] deps[k] {
        ModifiedTaskDependency::ParentDependency { parent_dependency_index } => parent_dependency_index < parent_dependencies.len(),
        ModifiedTaskDependency::Parent => true,
        ModifiedTaskDependency::NewTask { new_task_index } => first_new_task_index + new_task_index <= usize::MAX,
    }
}

/// The task indices that a list of dependencies stands for, in order.
pub open spec fn dependency_indices(
    deps: Seq<ModifiedTaskDependency>,
    parent_dependencies: Seq<usize>,
    parent_index: usize,
    first_new_task_index: usize,
) -> Seq<int> {
    deps.map_values(|d: ModifiedTaskDependency| dependency_index(d, parent_dependencies, parent_index, first_new_task_index))
}

/// Adding a dependency appends its task index to the indices of the others, which keep
/// their order; the list can be turned into indices exactly where the earlier ones and the
/// added one can.
pub proof fn law_add_appends_index(
    deps: Seq<ModifiedTaskDependency>,
    dependency: ModifiedTaskDependency,
    parent_dependencies: Seq<usize>,
    parent_index: usize,
    first_new_task_index: usize,
)
    ensures
        dependency_indices(deps.push(dependency), parent_dependencies, parent_index, first_new_task_index)
            == dependency_indices(deps, parent_dependencies, parent_index, first_new_task_index)
                .push(dependency_index(dependency, parent_dependencies, parent_index, first_new_task_index)),
        resolvable(deps.push(dependency), parent_dependencies, first_new_task_index)
            == (resolvable(deps, parent_dependencies, first_new_task_index)
                && resolvable(seq![dependency], parent_dependencies, first_new_task_index)),
{
    let pushed = deps.push(dependency);
    assert(dependency_indices(pushed, parent_dependencies, parent_index, first_new_task_index)
        =~= dependency_indices(deps, parent_dependencies, parent_index, first_new_task_index)
            .push(dependency_index(dependency, parent_dependencies, parent_index, first_new_task_index)));
    if resolvable(pushed, parent_dependencies, first_new_task_index) {
        assert forall|k: int| 0 <= k < deps.len() implies match #[trigger] deps[k] {
            ModifiedTaskDependency::ParentDependency { parent_dependency_index } => parent_dependency_index < parent_dependencies.len(),
            ModifiedTaskDependency::Parent => true,
            ModifiedTaskDependency::NewTask { new_task_index } => first_new_task_index + new_task_index <= usize::MAX,
        } by {
            assert(pushed[k] == deps[k]);
        }
        assert(pushed[deps.len() as int] == dependency);
        assert(seq![dependency][0] == dependency);
    }
    if resolvable(deps, parent_dependencies, first_new_task_index) && resolvable(seq![dependency], parent_dependencies, first_new_task_index) {
        assert(seq![dependency][0] == dependency);
        assert forall|k: int| 0 <= k < pushed.len() implies match #[trigger] pushed[k] {
            ModifiedTaskDependency::ParentDependency { parent_dependency_index } => parent_dependency_index < parent_dependencies.len(),
            ModifiedTaskDependency::Parent => true,
            ModifiedTaskDependency::NewTask { new_task_index } => first_new_task_index + new_task_index <= usize::MAX,
        } by {
            if k < deps.len() {
                assert(pushed[k] == deps[k]);
            }
        }
    }
}

impl ModifiedTaskDependencies {
    pub fn new() -> (r: Self)
        ensures
            r.dependencies@.len() == 0,
    {
        ModifiedTaskDependencies { dependencies: Vec::new() }
    }

    /// Adds a dependency.
    pub fn add(&mut self, dependency: ModifiedTaskDependency)
        ensures
            final(self).dependencies@ == old(self).dependencies@.push(dependency),
    {
        self.dependencies.push(dependency);
    }

    /// These dependencies and the creating task.
    pub fn on_self(self) -> (r: Self)
        ensures
            r.dependencies@ == self.dependencies@.push(ModifiedTaskDependency::Parent),
    {
        self.on(ModifiedTaskDependency::Parent)
    }

    /// These dependencies and dependency number `parent_dependency_index` of the creating task.
    pub fn on_parent_dependency(self, parent_dependency_index: usize) -> (r: Self)
        ensures
            r.dependencies@ == self.dependencies@.push(ModifiedTaskDependency::ParentDependency { parent_dependency_index }),
    {
        self.on(ModifiedTaskDependency::ParentDependency { parent_dependency_index })
    }

    /// These dependencies and `dependency`.
    pub fn on(self, dependency: ModifiedTaskDependency) -> (r: Self)
        ensures
            r.dependencies@ == self.dependencies@.push(dependency),
    {
        let mut r = self;
        r.add(dependency);
        r
    }

    /// The task indices of the dependencies, for a task created by task `parent_index` (whose
    /// own dependencies are `parent_dependencies`), where the created tasks start at index
    /// `first_new_task_index`.
    pub fn as_indices(&self, parent_dependencies: &[usize], parent_index: usize, first_new_task_index: usize) -> (r: Vec<usize>)
        requires
            resolvable(self.dependencies@, parent_dependencies@, first_new_task_index),
        ensures
            r@.len() == self.dependencies@.len(),
            forall|k: int| 0 <= k < r@.len() ==> #[trigger] r@[k] as int
                == dependency_index(self.dependencies@[k], parent_dependencies@, parent_index, first_new_task_index),
            r@.map_values(|x: usize| x as int)
                == dependency_indices(self.dependencies@, parent_dependencies@, parent_index, first_new_task_index),
    {
        let mut res: Vec<usize> = Vec::new();
        let mut k: usize = 0;
        while k < self.dependencies.len()
            invariant
                resolvable(self.dependencies@, parent_dependencies@, first_new_task_index),
                k <= self.dependencies@.len(),
                res@.len() == k,
                forall|j: int| 0 <= j < k ==> #[trigger] res@[j] as int
                    == dependency_index(self.dependencies@[j], parent_dependencies@, parent_index, first_new_task_index),
            decreases self.dependencies.len() - k,
        {
            let d = self.dependencies[k];
            let index = match d {
                ModifiedTaskDependency::ParentDependency { parent_dependency_index } => parent_dependencies[parent_dependency_index],
                ModifiedTaskDependency::Parent => parent_index,
                ModifiedTaskDependency::NewTask { new_task_index } => first_new_task_index + new_task_index,
            };
            res.push(index);
            k += 1;
        }
        assert(res@.map_values(|x: usize| x as int)
            =~= dependency_indices(self.dependencies@, parent_dependencies@, parent_index, first_new_task_index));
        res
    }
}

/// A change a task asks for outside its own task graph.
pub enum ExternalChange<M, P> {
    /// Add a repair-graph node for a repaired model with its properties.
    CreateRepair { model: M, properties: P },
    /// The repair is complete.
    AnnounceCompletion,
}

/// What a finished task adds: new tasks with their dependencies, and external changes.
pub struct Modifications<D, M, P> {
    pub new_tasks: Vec<(D, ModifiedTaskDependencies)>,
    pub external_changes: Vec<ExternalChange<M, P>>,
}

impl<D, M, P> Modifications<D, M, P> {
    pub fn new() -> (r: Self)
        ensures
            r.new_tasks@.len() == 0,
            r.external_changes@.len() == 0,
    {
        Modifications { new_tasks: Vec::new(), external_changes: Vec::new() }
    }

    /// Adds a new task and returns the dependency that refers to it.
    pub fn create_task(&mut self, task: D, dependencies: ModifiedTaskDependencies) -> (r: ModifiedTaskDependency)
        ensures
            r == (ModifiedTaskDependency::NewTask { new_task_index: old(self).new_tasks@.len() as usize }),
            final(self).new_tasks@ == old(self).new_tasks@.push((task, dependencies)),
            final(self).external_changes@ == old(self).external_changes@,
    {
        let r = ModifiedTaskDependency::NewTask { new_task_index: self.new_tasks.len() };
        self.new_tasks.push((task, dependencies));
        r
    }

    /// Asks for a repair-graph node for a repaired model.
    pub fn create_repair_graph_node(&mut self, model: M, properties: P)
        ensures
            final(self).new_tasks@ == old(self).new_tasks@,
            final(self).external_changes@ == old(self).external_changes@.push(ExternalChange::CreateRepair { model, properties }),
    {
        self.external_changes.push(ExternalChange::CreateRepair { model, properties });
    }

    /// Announces that the repair is complete.
    pub fn announce_completion(&mut self)
        ensures
            final(self).new_tasks@ == old(self).new_tasks@,
            final(self).external_changes@ == old(self).external_changes@.push(ExternalChange::AnnounceCompletion),
    {
        self.external_changes.push(ExternalChange::AnnounceCompletion);
    }
}

/// What a finished task returns: its output and its modifications.
pub struct TaskOutput<D, O, M, P> {
    pub output: O,
    pub modifications: Modifications<D, M, P>,
}

impl<D, O, M, P> TaskOutput<D, O, M, P> {
    /// An output without modifications.
    pub fn with_output(output: O) -> (r: Self)
        ensures
            r.output == output,
            r.modifications.new_tasks@.len() == 0,
            r.modifications.external_changes@.len() == 0,
    {
        TaskOutput { output, modifications: Modifications::new() }
    }

    /// This output with `modifications` in place of its own.
    pub fn modifications(self, modifications: Modifications<D, M, P>) -> (r: Self)
        ensures
            r.output == self.output,
            r.modifications == modifications,
    {
        TaskOutput { output: self.output, modifications }
    }
}

} // verus!
