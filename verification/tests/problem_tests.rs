use model_repair::engine::checking::properties_source;
use model_repair::engine::task_graph::ExternalChange;
use model_repair::pipeline::problem::{properties_of_source, RepairGraphNode, RepairProblem, RepairProblemDescription, StepResult};
use model_repair::pipeline::task_graph::Modifications;
use model_repair::pipeline::tasks::{PipelineTask, RepairModule, RepairTask, SetupTask};
use model_repair::prism::expression::Span;
use model_repair::prism::model::{Model, VariableManager};

fn empty_model() -> Model {
    Model {
        variable_manager: VariableManager { variables: Vec::new() },
        modules: Vec::new(),
        formulas: Vec::new(),
        labels: Vec::new(),
        span: Span::new(0, 0),
    }
}

#[test]
fn property_lines_are_trimmed_and_kept_when_not_empty() {
    assert_eq!(properties_of_source("  P>=1 [F a]  \n\n \t\nPmax=? [G b]\n"), vec!["P>=1 [F a]", "Pmax=? [G b]"]);
    assert!(properties_of_source(" \n ").is_empty());
}

#[test]
fn properties_file_ends_with_a_separator() {
    assert_eq!(properties_source(&vec!["a".to_string(), "b".to_string()]), "a;\nb;\n");
    assert_eq!(properties_source(&Vec::new()), "");
}

#[test]
fn building_a_problem_starts_with_the_setup_task() {
    let d = RepairProblemDescription::new(empty_model(), 7u32);
    let (p, flags): (RepairProblem<u32, ()>, (bool, bool)) = d.build().ok().unwrap();
    assert_eq!(flags, (false, false));
    assert_eq!(p.nodes.len(), 1);
    assert_eq!(p.nodes[0].properties, 7);
    assert_eq!(p.nodes[0].tasks.tasks[0].task, PipelineTask::Setup(SetupTask::new()));
    assert_eq!(p.next_task(), Some(0));
}

#[test]
fn changes_add_models_until_completion() {
    let mut p: RepairProblem<u32, ()> = RepairProblem { nodes: vec![RepairGraphNode::new(empty_model(), 1)] };
    let r = p.apply_changes(0, vec![
        ExternalChange::CreateRepair { model: empty_model(), properties: 2 },
        ExternalChange::CreateRepair { model: empty_model(), properties: 3 },
    ]);
    assert_eq!(r, StepResult::MoreToDo);
    assert_eq!(p.nodes.len(), 3);
    assert_eq!(p.nodes[2].properties, 3);
    let r = p.apply_changes(2, vec![
        ExternalChange::CreateRepair { model: empty_model(), properties: 4 },
        ExternalChange::AnnounceCompletion,
        ExternalChange::CreateRepair { model: empty_model(), properties: 5 },
    ]);
    assert_eq!(r, StepResult::Done { node: 2 });
    assert_eq!(p.nodes.len(), 4);
    assert_eq!(p.nodes[3].properties, 4);
}

#[test]
fn a_synthesised_controller_becomes_a_new_node() {
    let task = RepairTask { module: RepairModule::NewModule };
    let mut found: Modifications<PipelineTask, Model, u8> = Modifications::new(3);
    task.record_outcome(Some(empty_model()), 7, &mut found);
    assert!(found.new_tasks.is_empty());
    assert_eq!(found.external_changes.len(), 1);
    assert!(matches!(&found.external_changes[0], ExternalChange::CreateRepair { properties: 7, model } if model.modules.is_empty()));
    let mut lost: Modifications<PipelineTask, Model, u8> = Modifications::new(3);
    task.record_outcome(None, 7, &mut lost);
    assert!(lost.external_changes.is_empty());
}
