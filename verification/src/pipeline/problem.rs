//! A repair problem worked through step by step: the models of the repair graph, each with
//! its tasks, and what the changes that a task announces do to it.
use vstd::prelude::*;
use crate::engine::task_graph::ExternalChange;
use crate::pipeline::preprocessing::{fixed_annotation, preprocess_model, visible_annotation, PreprocessError};
use crate::pipeline::task_graph::{executable, TaskGraph};
use crate::pipeline::tasks::{PipelineTask, SetupTask};
use crate::prism::model::{Model, ModelView};
use crate::text::{line_ranges, lines_of, str_chars, str_eq_string, string_of, trim_range, trimmed};

verus! {

/// A model of the repair graph, its properties and its tasks.
pub struct RepairGraphNode<P, O> {
    pub model: Model,
    pub properties: P,
    pub tasks: TaskGraph<PipelineTask, O>,
}

impl<P, O> RepairGraphNode<P, O> {
    /// A model whose only task is the setup task.
    pub fn new(model: Model, properties: P) -> (r: Self)
        ensures
            r.model == model,
            r.properties == properties,
            r.tasks.wf(),
            r.tasks.tasks@.len() == 1,
            r.tasks.tasks@[0].task == PipelineTask::Setup(SetupTask {}),
            r.tasks.tasks@[0].depends_on@.len() == 0,
            r.tasks.outputs@[0] is None,
    {
        RepairGraphNode { model, properties, tasks: TaskGraph::new(PipelineTask::Setup(SetupTask::new())) }
    }
}

/// What a step of the repair gives.
#[derive(Clone, Copy, PartialEq, Eq, Structural, Debug)]
pub enum StepResult {
    /// The task of model `node` announced that the repair is complete.
    Done { node: usize },
    /// A task ran; there may be more.
    MoreToDo,
    /// No task of the newest model can run.
    NoMoreTasks,
}

/// The models of the repair graph, the first being the model to repair.
pub struct RepairProblem<P, O> {
    pub nodes: Vec<RepairGraphNode<P, O>>,
}

/// A model to repair and its properties.
pub struct RepairProblemDescription<P> {
    pub model: Model,
    pub properties: P,
}

impl<P> RepairProblemDescription<P> {
    pub fn new(model: Model, properties: P) -> (r: Self)
        ensures
            r.model == model,
            r.properties == properties,
    {
        RepairProblemDescription { model, properties }
    }

    /// Completes the marks of the model (as [`preprocess_model`] says) and starts a repair
    /// graph with it. Returns also whether no module and whether no variable was marked.
    pub fn build<O>(self) -> (r: Result<(RepairProblem<P, O>, (bool, bool)), PreprocessError>)
        ensures
            match fixed_annotation(self.model@.modules) {
                Err(e) => r == Err::<(RepairProblem<P, O>, (bool, bool)), PreprocessError>(e),
                Ok((ms, all_repairable)) => match visible_annotation(self.model@.variables, ms) {
                    Err(e) => r == Err::<(RepairProblem<P, O>, (bool, bool)), PreprocessError>(e),
                    Ok((vs, all_visible)) => r matches Ok((problem, flags))
                        && flags == (all_repairable, all_visible)
                        && problem.nodes@.len() == 1
                        && problem.nodes@[0].model@ == (ModelView { variables: vs, modules: ms, ..self.model@ })
                        && problem.nodes@[0].properties == self.properties
                        && problem.nodes@[0].tasks.wf()
                        && problem.nodes@[0].tasks.tasks@.len() == 1
                        && problem.nodes@[0].tasks.tasks@[0].task == PipelineTask::Setup(SetupTask {})
                        && problem.nodes@[0].tasks.outputs@[0] is None,
                },
            },
    {
        let mut model = self.model;
        let flags = match preprocess_model(&mut model) {
            Ok(f) => f,
            Err(e) => return Err(e),
        };
        let mut nodes: Vec<RepairGraphNode<P, O>> = Vec::new();
        nodes.push(RepairGraphNode::new(model, self.properties));
        Ok((RepairProblem { nodes }, flags))
    }
}

/// The number of changes before the first announcement of completion.
pub open spec fn until_completion<M, P>(changes: Seq<ExternalChange<M, P>>) -> nat
    decreases changes.len(),
{
    if changes.len() == 0 {
        0
    } else if changes[0] is AnnounceCompletion {
        0
    } else {
        1 + until_completion(changes.drop_first())
    }
}

/// The models that the first `n` changes ask for, in order.
pub open spec fn created_models<M, P>(changes: Seq<ExternalChange<M, P>>, n: nat) -> Seq<(M, P)>
    decreases n,
{
    if n == 0 || n > changes.len() {
        Seq::empty()
    } else {
        let before = created_models(changes, (n - 1) as nat);
        match changes[n - 1] {
            ExternalChange::CreateRepair { model, properties } => before.push((model, properties)),
            ExternalChange::AnnounceCompletion => before,
        }
    }
}

proof fn lemma_until_completion<M, P>(changes: Seq<ExternalChange<M, P>>)
    ensures
        until_completion(changes) <= changes.len(),
        forall|k: int| 0 <= k < until_completion(changes) ==> !(#[trigger] changes[k] is AnnounceCompletion),
        until_completion(changes) < changes.len() ==> changes[until_completion(changes) as int] is AnnounceCompletion,
    decreases changes.len(),
{
    if changes.len() > 0 && !(changes[0] is AnnounceCompletion) {
        let rest = changes.drop_first();
        lemma_until_completion(rest);
        assert forall|k: int| 0 <= k < until_completion(changes) implies !(#[trigger] changes[k] is AnnounceCompletion) by {
            if k > 0 {
                assert(changes[k] == rest[k - 1]);
            }
        }
        if until_completion(changes) < changes.len() {
            assert(changes[until_completion(changes) as int] == rest[until_completion(rest) as int]);
        }
    }
}

impl<P, O> RepairProblem<P, O> {
    /// The task of the newest model that runs next: the first that can run.
    pub fn next_task(&self) -> (r: Option<usize>)
        requires
            self.nodes@.len() > 0,
            self.nodes@.last().tasks.wf(),
        ensures
            r matches Some(i) ==> i < self.nodes@.last().tasks.tasks@.len()
                && executable(self.nodes@.last().tasks.tasks@, self.nodes@.last().tasks.outputs@, i as int)
                && forall|j: int| 0 <= j < i ==> !executable(self.nodes@.last().tasks.tasks@, self.nodes@.last().tasks.outputs@, j),
            r is None ==> forall|j: int| 0 <= j < self.nodes@.last().tasks.tasks@.len()
                ==> !executable(self.nodes@.last().tasks.tasks@, self.nodes@.last().tasks.outputs@, j),
    {
        let last = self.nodes.len() - 1;
        self.nodes[last].tasks.get_executable()
    }

    /// Applies the changes that a task of model `node` announced, in order: each requested
    /// model is added with only its setup task, until the first announcement of completion,
    /// which ends the step with `Done`; without one the step gives `MoreToDo`.
    pub fn apply_changes(&mut self, node: usize, changes: Vec<ExternalChange<Model, P>>) -> (r: StepResult)
        ensures
            ({
                let n = until_completion(changes@);
                let added = created_models(changes@, n);
                &&& final(self).nodes@.len() == old(self).nodes@.len() + added.len()
                &&& forall|k: int| 0 <= k < old(self).nodes@.len() ==> #[trigger] final(self).nodes@[k] == old(self).nodes@[k]
                &&& forall|k: int| 0 <= k < added.len() ==> {
                    let fresh = #[trigger] final(self).nodes@[old(self).nodes@.len() + k];
                    &&& fresh.model == added[k].0
                    &&& fresh.properties == added[k].1
                    &&& fresh.tasks.wf()
                    &&& fresh.tasks.tasks@.len() == 1
                    &&& fresh.tasks.tasks@[0].task == PipelineTask::Setup(SetupTask {})
                    &&& fresh.tasks.outputs@[0] is None
                }
                &&& r == if n < changes@.len() { StepResult::Done { node } } else { StepResult::MoreToDo }
            }),
    {
        proof { lemma_until_completion(changes@); }
        let ghost all = changes@;
        let total = changes.len();
        let ghost start = self.nodes@;
        let mut rest = changes;
        let mut i: usize = 0;
        assert(rest@ =~= all.subrange(0, all.len() as int));
        while rest.len() > 0
            invariant
                i + rest@.len() == all.len(),
                all.len() == total,
                all == changes@,
                start == old(self).nodes@,
                rest@ =~= all.subrange(i as int, all.len() as int),
                i <= until_completion(all),
                forall|k: int| 0 <= k < until_completion(all) ==> !(#[trigger] all[k] is AnnounceCompletion),
                until_completion(all) <= all.len(),
                until_completion(all) < all.len() ==> all[until_completion(all) as int] is AnnounceCompletion,
                self.nodes@.len() == start.len() + created_models(all, i as nat).len(),
                forall|k: int| 0 <= k < start.len() ==> #[trigger] self.nodes@[k] == start[k],
                forall|k: int| 0 <= k < created_models(all, i as nat).len() ==> {
                    let fresh = #[trigger] self.nodes@[start.len() + k];
                    &&& fresh.model == created_models(all, i as nat)[k].0
                    &&& fresh.properties == created_models(all, i as nat)[k].1
                    &&& fresh.tasks.wf()
                    &&& fresh.tasks.tasks@.len() == 1
                    &&& fresh.tasks.tasks@[0].task == PipelineTask::Setup(SetupTask {})
                    &&& fresh.tasks.outputs@[0] is None
                },
            decreases rest.len(),
        {
            let change = rest.remove(0);
            assert(change == all[i as int]);
            match change {
                ExternalChange::CreateRepair { model, properties } => {
                    assert((i as nat) < until_completion(all));
                    self.nodes.push(RepairGraphNode::new(model, properties));
                },
                ExternalChange::AnnounceCompletion => {
                    assert(i as nat == until_completion(all)) by {
                        if (i as nat) < until_completion(all) {
                            assert(!(all[i as int] is AnnounceCompletion));
                        }
                    }
                    return StepResult::Done { node };
                },
            }
            assert(rest@ =~= all.subrange(i + 1, all.len() as int));
            i += 1;
        }
        StepResult::MoreToDo
    }
}

/// The properties of a properties file: its lines, trimmed, leaving out the empty ones.
pub open spec fn property_lines(text: Seq<char>) -> Seq<Seq<char>> {
    lines_of(trimmed(text)).map_values(|l: Seq<char>| trimmed(l)).filter(|l: Seq<char>| l.len() > 0)
}

/// The properties of a properties file, as [`property_lines`] says.
pub fn properties_of_source(source: &str) -> (r: Vec<String>)
    ensures
        r@.map_values(|s: String| s@) == property_lines(source@),
{
    let chars = str_chars(source);
    let (a, b) = trim_range(&chars, 0, chars.len());
    assert(chars@.subrange(0, chars@.len() as int) =~= chars@);
    let ranges = line_ranges(&chars, a, b);
    let ghost lines = lines_of(trimmed(source@));
    let ghost f = |l: Seq<char>| trimmed(l);
    let ghost keep = |l: Seq<char>| l.len() > 0;
    let mut out: Vec<String> = Vec::new();
    let mut k: usize = 0;
    while k < ranges.len()
        invariant
            k <= ranges@.len(),
            ranges@.len() == lines.len(),
            b <= chars@.len(),
            lines == lines_of(trimmed(source@)),
            f == (|l: Seq<char>| trimmed(l)),
            keep == (|l: Seq<char>| l.len() > 0),
            forall|j: int| 0 <= j < ranges@.len() ==> a <= (#[trigger] ranges@[j]).0 <= ranges@[j].1 <= b
                && chars@.subrange(ranges@[j].0 as int, ranges@[j].1 as int) == lines[j],
            out@.map_values(|s: String| s@) == lines.subrange(0, k as int).map_values(f).filter(keep),
        decreases ranges.len() - k,
    {
        let (x, y) = ranges[k];
        let (p, q) = trim_range(&chars, x, y);
        let ghost before = out@.map_values(|s: String| s@);
        proof {
            let mapped = lines.subrange(0, k + 1).map_values(f);
            assert(mapped.drop_last() =~= lines.subrange(0, k as int).map_values(f));
            assert(mapped.last() == trimmed(lines[k as int]));
            lines.subrange(0, k as int).map_values(f).lemma_filter_push(trimmed(lines[k as int]), keep);
            assert(lines.subrange(0, k as int).map_values(f).push(trimmed(lines[k as int])) =~= mapped);
        }
        if q > p {
            out.push(string_of(&chars, p, q));
            assert(out@.map_values(|s: String| s@) =~= before.push(trimmed(lines[k as int])));
        }
        k += 1;
    }
    assert(lines.subrange(0, lines.len() as int) =~= lines);
    out
}

/// Whether `s` ends with `suffix`.
pub open spec fn ends_with(s: Seq<char>, suffix: Seq<char>) -> bool {
    s.len() >= suffix.len() && s.subrange(s.len() - suffix.len(), s.len() as int) == suffix
}

/// The files among the first `n` names of a directory that hold the model and the
/// properties: a file is taken as the model where it is `model.prism`, or ends in `.prism`
/// while no model was taken yet; as the properties where it is `model.props`, or ends in
/// `.props` while no model was taken yet. A later choice replaces an earlier one.
pub open spec fn chosen_files(names: Seq<Seq<char>>, n: nat) -> (Option<int>, Option<int>)
    decreases n,
{
    if n == 0 || n > names.len() {
        (None, None)
    } else {
        let (model, props) = chosen_files(names, (n - 1) as nat);
        let name = names[n - 1];
        let model2 = if name == "model.prism"@ || (model is None && ends_with(name, ".prism"@)) { Some(n - 1) } else { model };
        let props2 = if name == "model.props"@ || (model2 is None && ends_with(name, ".props"@)) { Some(n - 1) } else { props };
        (model2, props2)
    }
}

fn text_ends_with(s: &String, suffix: &str) -> (r: bool)
    ensures
        r == ends_with(s@, suffix@),
{
    let a = str_chars(s.as_str());
    let b = str_chars(suffix);
    if a.len() < b.len() {
        return false;
    }
    let start = a.len() - b.len();
    let mut k: usize = 0;
    while k < b.len()
        invariant
            start + b@.len() == a@.len(),
            start + b.len() == a.len(),
            a@ == s@,
            b@ == suffix@,
            k <= b@.len(),
            forall|j: int| 0 <= j < k ==> a@[start + j] == b@[j],
        decreases b.len() - k,
    {
        if a[start + k] != b[k] {
            assert(a@.subrange(start as int, a@.len() as int)[k as int] != b@[k as int]);
            return false;
        }
        k += 1;
    }
    assert(a@.subrange(start as int, a@.len() as int) =~= b@);
    true
}

/// The indices of the model file and of the properties file among the names of a
/// directory, as [`chosen_files`] says.
pub fn model_and_property_files(names: &Vec<String>) -> (r: (Option<usize>, Option<usize>))
    ensures
        ({
            let (m, p) = chosen_files(names@.map_values(|s: String| s@), names@.len());
            &&& (r.0 matches Some(i) ==> m == Some(i as int))
            &&& (r.0 is None ==> m is None)
            &&& (r.1 matches Some(i) ==> p == Some(i as int))
            &&& (r.1 is None ==> p is None)
        }),
{
    let ghost nv = names@.map_values(|s: String| s@);
    let mut model: Option<usize> = None;
    let mut props: Option<usize> = None;
    let mut i: usize = 0;
    while i < names.len()
        invariant
            i <= names@.len(),
            nv == names@.map_values(|s: String| s@),
            ({
                let (m, p) = chosen_files(nv, i as nat);
                &&& (model matches Some(k) ==> m == Some(k as int))
                &&& (model is None ==> m is None)
                &&& (props matches Some(k) ==> p == Some(k as int))
                &&& (props is None ==> p is None)
            }),
        decreases names.len() - i,
    {
        let name = &names[i];
        assert(name@ == nv[i as int]);
        if str_eq_string("model.prism", name) || (model.is_none() && text_ends_with(name, ".prism")) {
            model = Some(i);
        }
        if str_eq_string("model.props", name) || (model.is_none() && text_ends_with(name, ".props")) {
            props = Some(i);
        }
        i += 1;
    }
    (model, props)
}

} // verus!
