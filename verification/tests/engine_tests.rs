use model_repair::engine::repair_graph::{RepairGraph, RepairGraphParent};
use model_repair::engine::task_graph::{
    Modifications, ModifiedTaskDependencies, ModifiedTaskDependency, TaskGraph, TaskGraphError, TaskOutput, TaskStatus,
};
use model_repair::engine::tasks::DemoTaskDescription;
use model_repair::gui::views::{status_mark, tool_call_text, units_text};
use model_repair::engine::tool_runner::{
    ChangedDetails, LogDetails, LogError, LogUpdate, MainToolRunner, StartedDetails, StatusKind,
};

#[test]
fn tasks_are_ready_once_their_dependencies_are_done() {
    let mut g: TaskGraph<&str, u32> = TaskGraph::new();
    g.add_task("setup", vec![]);
    g.add_task("check", vec![0]);
    assert!(g.is_task_ready(0));
    assert!(!g.is_task_ready(1));
    assert_eq!(g.dependency_outputs(1).err(), Some(TaskGraphError::DependencyNotRun { dependency: 0 }));
    g.tasks[0].status = TaskStatus::Running { start_time: 3 };
    assert_eq!(g.dependency_outputs(1).err(), Some(TaskGraphError::DependencyRunning { dependency: 0 }));
    g.tasks[0].status = TaskStatus::Done { output: 42, elapsed: 5 };
    assert!(g.is_task_ready(1));
    let outs = g.dependency_outputs(1).ok().unwrap();
    assert_eq!(outs.outputs.len(), 1);
    assert_eq!(*outs.outputs[0].1, 42);
}

#[test]
fn created_dependencies_resolve_to_task_indices() {
    let deps = ModifiedTaskDependencies::new()
        .on_self()
        .on_parent_dependency(1)
        .on(ModifiedTaskDependency::NewTask { new_task_index: 2 });
    assert_eq!(deps.as_indices(&[4, 7], 9, 20), vec![9, 7, 22]);
}

#[test]
fn log_entries_follow_their_updates() {
    let mut runner = MainToolRunner::new();
    let mut handle = runner.get_tool_runner(0, 2);
    let id = handle.next_update_id();
    assert_eq!(id, (0, 0));
    let started = LogUpdate::Started {
        task_id: (0, 2),
        update_id: id,
        details: StartedDetails::ToolCall { tool_name: "prism".to_string(), arguments: vec!["a".to_string()] },
    };
    assert_eq!(runner.process_update(started, 100), Ok(()));
    assert_eq!(runner.entries_for_task((0, 2)), vec![(0, 0)]);
    let done = LogUpdate::Changed { update_id: id, details: ChangedDetails::FinishedToolCall { output: "ok".to_string() } };
    assert_eq!(runner.process_update(done, 250), Ok(()));
    let entry = runner.entry(id);
    assert_eq!(entry.start_time, 100);
    assert_eq!(entry.end_time, Some(250));
    assert!(matches!(&entry.details, LogDetails::ToolCall { output: Some(o), .. } if o == "ok"));
    let wrong = LogUpdate::Changed { update_id: id, details: ChangedDetails::SetUnitsFinished { units_finished: 1 } };
    assert_eq!(runner.process_update(wrong, 300), Err(LogError::WrongKind));
    let unknown = LogUpdate::Changed { update_id: (5, 5), details: ChangedDetails::SetUnitsFinished { units_finished: 1 } };
    assert_eq!(runner.process_update(unknown, 300), Err(LogError::UnknownEntry));
    assert!(runner.entries_for_task((1, 1)).is_empty());
}

#[test]
fn sections_and_tool_calls_are_logged_through_their_handles() {
    let mut runner = MainToolRunner::new();
    let mut handle = runner.get_tool_runner(1, 0);
    let (section, started) = handle.start_section_with_units("check".to_string(), 4);
    assert_eq!(section.log_id, (0, 0));
    assert!(section.counted);
    assert_eq!(runner.process_update(started, 10), Ok(()));
    assert_eq!(runner.process_update(section.set_unit_count(3), 20), Ok(()));
    assert!(matches!(
        &runner.entry((0, 0)).details,
        LogDetails::Section { total_units: Some(4), completed_units: Some(3), final_status: None, .. }
    ));
    assert_eq!(runner.process_update(section.finish_failure_with_text("no".to_string()), 30), Ok(()));
    let entry = runner.entry((0, 0));
    assert_eq!(entry.end_time, Some(30));
    assert!(matches!(
        &entry.details,
        LogDetails::Section { final_status: Some(s), .. } if s.kind == StatusKind::Failure && s.details.as_deref() == Some("no")
    ));

    let (plain, started) = handle.start_section("write".to_string());
    assert_eq!(plain.log_id, (0, 1));
    assert!(!plain.counted);
    assert_eq!(runner.process_update(started, 40), Ok(()));
    assert_eq!(runner.process_update(plain.finish_success(), 50), Ok(()));
    assert!(matches!(
        &runner.entry((0, 1)).details,
        LogDetails::Section { final_status: Some(s), total_units: None, .. } if s.kind == StatusKind::Success && s.details.is_none()
    ));

    let (call, started) = handle.start_tool_call("prism".to_string(), vec!["m.prism".to_string()]);
    assert_eq!(call.log_id, (0, 2));
    assert_eq!(runner.process_update(started, 60), Ok(()));
    assert_eq!(runner.process_update(call.finish("out".to_string()), 70), Ok(()));
    assert!(matches!(&runner.entry((0, 2)).details, LogDetails::ToolCall { output: Some(o), .. } if o == "out"));
    assert_eq!(runner.entries_for_task((1, 0)), vec![(0, 0), (0, 1), (0, 2)]);
}

#[test]
fn temporary_files_are_numbered() {
    let mut runner = MainToolRunner::new();
    let _ = runner.get_tool_runner(0, 0);
    let mut handle = runner.get_tool_runner(3, 4);
    assert_eq!(handle.id, 1);
    assert_eq!(handle.temp_file("prism"), ("temp/task_3_4".to_string(), "0.prism".to_string()));
    assert_eq!(handle.temp_file(".props"), ("temp/task_3_4".to_string(), "1.props".to_string()));
}

#[test]
fn demo_task_summaries() {
    let d = DemoTaskDescription { delay_before: 2, delay_after: 3, call_prism: true };
    assert_eq!(d.parameter_summary(), "Wait 2 seconds, then call prism, then wait 3 seconds");
    let d = DemoTaskDescription { delay_before: 0, delay_after: 0, call_prism: false };
    assert_eq!(d.parameter_summary(), "Do nothing");
    let d = DemoTaskDescription { delay_before: 0, delay_after: 4, call_prism: false };
    assert_eq!(d.parameter_summary(), "Wait 4 seconds");
}

#[test]
fn finished_task_adds_its_tasks_and_repaired_models() {
    let mut graph: RepairGraph<u8, u8, u8, u8> = RepairGraph::with_initial_node(10, 20, 0);
    graph.start_task(0, 0, 100);
    let mut changes: Modifications<u8, u8, u8> = Modifications::new();
    let first = changes.create_task(1, ModifiedTaskDependencies::new().on_self());
    changes.create_task(2, ModifiedTaskDependencies::new().on(first));
    changes.create_repair_graph_node(11, 21);
    changes.announce_completion();
    changes.create_repair_graph_node(12, 22);
    graph.process_output(0, 0, TaskOutput::with_output(7).modifications(changes), 160, || 9);

    let node = &graph.nodes[0];
    assert_eq!(node.tasks.tasks.len(), 3);
    assert!(matches!(node.tasks.tasks[0].status, TaskStatus::Done { output: 7, elapsed: 60 }));
    assert_eq!(node.tasks.tasks[1].description, 1);
    assert_eq!(node.tasks.tasks[1].dependencies, vec![0]);
    assert!(matches!(node.tasks.tasks[1].status, TaskStatus::Ready));
    assert_eq!(node.tasks.tasks[2].dependencies, vec![1]);
    assert!(!node.tasks.is_task_ready(2));
    assert!(node.tasks.is_task_ready(1));

    assert_eq!(graph.nodes.len(), 3);
    assert_eq!((graph.nodes[1].model, graph.nodes[1].properties), (11, 21));
    assert_eq!((graph.nodes[2].model, graph.nodes[2].properties), (12, 22));
    assert_eq!(graph.nodes[2].parent, Some(RepairGraphParent::new(0, 0)));
    assert_eq!(graph.nodes[2].tasks.tasks[0].description, 9);
}

#[test]
fn dependency_lookup_finds_no_output() {
    let mut g: TaskGraph<&str, u32> = TaskGraph::new();
    g.add_task("setup", vec![]);
    g.add_task("next", vec![0]);
    g.tasks[0].status = TaskStatus::Done { output: 7, elapsed: 0 };
    let outputs = g.dependency_outputs(1).ok().unwrap();
    assert_eq!(outputs.outputs.len(), 1);
    assert!(outputs.get(|_: &u32| true).is_none());
}

#[test]
fn log_entries_show_their_mark_call_and_progress() {
    let mut runner = MainToolRunner::new();
    let mut handle = runner.get_tool_runner(0, 0);
    let (call, started) = handle.start_tool_call("prism".to_string(), vec!["a.prism".to_string(), "b.props".to_string()]);
    runner.process_update(started, 0).unwrap();
    assert_eq!(status_mark(runner.entry(call.log_id)), '\u{231b}');
    runner.process_update(call.finish("ok".to_string()), 5).unwrap();
    assert_eq!(status_mark(runner.entry(call.log_id)), '\u{2713}');
    let (section, started) = handle.start_section_with_units("solve".to_string(), 4);
    runner.process_update(started, 6).unwrap();
    runner.process_update(section.finish_failure(), 7).unwrap();
    assert_eq!(status_mark(runner.entry(section.log_id)), '\u{2717}');
    let (other, started) = handle.start_section("write".to_string());
    runner.process_update(started, 8).unwrap();
    runner.process_update(other.finish_unknown(), 9).unwrap();
    assert_eq!(status_mark(runner.entry(other.log_id)), '?');

    assert_eq!(tool_call_text(&"prism".to_string(), &vec!["a.prism".to_string(), "b.props".to_string()]), "prism a.prism b.props");
    assert_eq!(tool_call_text(&"prism".to_string(), &vec![]), "prism");
    assert_eq!(units_text(Some(4), Some(3)), " (3/4)");
    assert_eq!(units_text(Some(4), None), " (0/4)");
    assert_eq!(units_text(None, Some(1)), "");
}

#[test]
fn adding_a_dependency_appends_its_index() {
    let mut deps = ModifiedTaskDependencies::new();
    deps.add(ModifiedTaskDependency::Parent);
    deps.add(ModifiedTaskDependency::ParentDependency { parent_dependency_index: 1 });
    let before = deps.as_indices(&[4, 6], 2, 10);
    assert_eq!(before, vec![2, 6]);
    deps.add(ModifiedTaskDependency::NewTask { new_task_index: 3 });
    let after = deps.as_indices(&[4, 6], 2, 10);
    assert_eq!(after, vec![2, 6, 13]);
}
