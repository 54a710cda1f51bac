use model_repair::engine::repair_graph::{RepairGraph, RepairGraphNode, RepairGraphParent};
use model_repair::gui::layout::RepairGraphLayout;
use model_repair::gui::tabs::{SplitAxis, SplitKind, TabView};
use model_repair::gui::window::{format_duration, format_elapsed, InternalWindowMessage, SectionKind, WindowState};

#[test]
fn closing_a_tab_moves_the_selection_left() {
    let mut t: TabView<&str> = TabView::new();
    t.push_tab("a");
    t.push_tab("b");
    t.push_tab("c");
    assert_eq!(t.selected, 2);
    assert!(!t.close_tab(1));
    assert_eq!(t.tabs, vec!["a", "c"]);
    assert_eq!(t.selected, 1);
    t.select(0);
    assert!(!t.close_tab(1));
    assert_eq!(t.selected, 0);
    assert!(t.close_tab(0));
    assert_eq!(t.selected, 0);
}

#[test]
fn dragging_a_tab_away_and_back_restores_the_list() {
    let mut t: TabView<u32> = TabView::new();
    for x in [10, 20, 30] {
        t.push_tab(x);
    }
    let taken = t.take_tab(1);
    assert_eq!(taken, 20);
    assert_eq!(t.selected, 1);
    t.insert_tab(1, taken);
    assert_eq!(t.tabs, vec![10, 20, 30]);
    assert_eq!(t.selected, 1);
    let first = t.take_tab(0);
    assert_eq!(first, 10);
    assert_eq!(t.selected, 1);
}

#[test]
fn split_kinds() {
    assert_eq!(SplitKind::Top.axis(), Some(SplitAxis::Horizontal));
    assert_eq!(SplitKind::Right.axis(), Some(SplitAxis::Vertical));
    assert_eq!(SplitKind::Center.axis(), None);
    assert!(SplitKind::Left.new_pane_first());
    assert!(!SplitKind::Bottom.new_pane_first());
}

#[test]
fn durations_are_written_by_unit() {
    assert_eq!(format_elapsed(5), "5s");
    assert_eq!(format_elapsed(3 * 3600 + 7), "3h 7s");
    assert_eq!(format_elapsed(90061), "1d 1h 1m 1s");
    assert_eq!(format_duration(5), "5s ");
    assert_eq!(format_duration(86400 + 5), "1d 0h 0m 5s ");
    assert_eq!(format_duration(61), "1m 1s ");
}

#[test]
fn window_sections_switch() {
    let mut w = WindowState::with_expanded_sections(3);
    assert!(w.is_expanded(&SectionKind::togglable(), 1));
    w.update(InternalWindowMessage::SwitchSection { index: 1 });
    assert!(!w.is_expanded(&SectionKind::togglable(), 1));
    assert!(w.is_expanded(&SectionKind::forced_open(), 1));
    assert!(!w.is_expanded(&SectionKind::forced_close(), 0));
    assert_eq!(w.toggle_symbol(0), '\u{25bc}');
    assert_eq!(w.toggle_symbol(1), '\u{25c0}');
}

#[test]
fn layout_places_every_model_and_task() {
    let mut graph: RepairGraph<(), (), u8, ()> = RepairGraph::with_initial_node((), (), 0);
    graph.nodes[0].tasks.add_task(1, vec![0]);
    graph.nodes.push(RepairGraphNode::new((), (), Some(RepairGraphParent::new(0, 1)), 0));
    let mut layout = RepairGraphLayout::new(4);
    layout.update_for_graph(&graph);
    let m0 = layout.model_position(0).unwrap();
    assert_eq!((m0.row, m0.column), (0, 2));
    let t0 = layout.task_position(0, 0).unwrap();
    assert_eq!((t0.row, t0.column), (1, 2));
    let t1 = layout.task_position(0, 1).unwrap();
    assert_eq!((t1.row, t1.column), (2, 2));
    let m1 = layout.model_position(1).unwrap();
    assert_eq!((m1.row, m1.column), (3, 2));
    let t10 = layout.task_position(1, 0).unwrap();
    assert_eq!((t10.row, t10.column), (4, 2));
    layout.update_for_graph(&graph);
    assert_eq!(layout.rows.len(), 5);
}

#[test]
fn layout_moves_left_then_right_around_taken_cells() {
    let mut graph: RepairGraph<(), (), u8, ()> = RepairGraph::with_initial_node((), (), 0);
    graph.nodes[0].tasks.add_task(1, vec![0]);
    graph.nodes[0].tasks.add_task(2, vec![0]);
    graph.nodes[0].tasks.add_task(3, vec![0]);
    let mut layout = RepairGraphLayout::new(4);
    layout.update_for_graph(&graph);
    let at = |t: usize| {
        let p = layout.task_position(0, t).unwrap();
        (p.row, p.column)
    };
    assert_eq!(at(1), (2, 2));
    assert_eq!(at(2), (2, 1));
    assert_eq!(at(3), (2, 3));
}
