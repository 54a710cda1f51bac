use vstd::prelude::*;
use crate::engine::repair_graph::{RepairGraph, RepairGraphNode, RepairGraphParent};
use crate::gui::window::WindowState;

verus! {

/// A cell of the layout grid.
#[derive(Clone, Copy, PartialEq, Eq, Debug)]
pub struct LayoutGridPosition {
    pub column: usize,
    pub row: usize,
}

/// What stands in an occupied cell: a model (the task is `None`) or one of its tasks, with the
/// state of its window.
pub struct LayoutEntry {
    pub node_index: (usize, Option<usize>),
    pub window_state: WindowState,
}

/// A row of the layout grid.
pub struct LayoutRow {
    pub entries: Vec<Option<LayoutEntry>>,
}

/// Where a model and each of its tasks stand.
pub struct ModelLayoutInfo {
    pub model_position: LayoutGridPosition,
    pub task_positions: Vec<LayoutGridPosition>,
}

/// The grid on which the repair graph is drawn.
pub struct RepairGraphLayout {
    pub rows: Vec<LayoutRow>,
    pub node_to_position: Vec<ModelLayoutInfo>,
    pub slots_per_row: usize,
}

/// Whether cell `c` of a row is free.
pub open spec fn free_at<T>(row: Seq<Option<T>>, c: int) -> bool {
    0 <= c < row.len() && row[c] is None
}

/// The column chosen in a row for a node that should stand near `start`, trying the first
/// `deltas` distances: at each distance first the column to the left, then the one to the
/// right; the first free one is taken.
pub open spec fn first_free<T>(row: Seq<Option<T>>, start: int, slots: int, deltas: nat) -> Option<int>
    decreases deltas,
{
    if deltas == 0 {
        None
    } else {
        let d = deltas - 1;
        match first_free(row, start, slots, d as nat) {
            Some(c) => Some(c),
            None => if 0 <= start - d < slots && free_at(row, start - d) {
                Some(start - d)
            } else if 0 <= start + d < slots && free_at(row, start + d) {
                Some(start + d)
            } else {
                None
            },
        }
    }
}

/// The column chosen in a row, trying every distance up to the width of the row.
pub open spec fn chosen_column<T>(row: Seq<Option<T>>, start: int, slots: int) -> Option<int> {
    first_free(row, start, slots, slots as nat)
}

proof fn lemma_first_free_stays<T>(row: Seq<Option<T>>, start: int, slots: int, d: nat, e: nat)
    requires
        d <= e,
        first_free(row, start, slots, d) is Some,
    ensures
        first_free(row, start, slots, e) == first_free(row, start, slots, d),
    decreases e - d,
{
    if d < e {
        lemma_first_free_stays(row, start, slots, d, (e - 1) as nat);
    }
}

/// An empty row of `slots` cells.
pub open spec fn empty_row<T>(slots: nat) -> Seq<Option<T>> {
    Seq::new(slots, |i: int| None)
}

/// The cells of each row.
pub open spec fn row_entries(rows: Seq<LayoutRow>) -> Seq<Seq<Option<LayoutEntry>>> {
    rows.map_values(|r: LayoutRow| r.entries@)
}

/// The cells of row `r`, an empty row where the grid has none yet.
pub open spec fn row_at<T>(rows: Seq<Seq<Option<T>>>, r: int, slots: nat) -> Seq<Option<T>> {
    if r < rows.len() { rows[r] } else { empty_row(slots) }
}

/// The number of models and tasks among the first `n` models of a repair graph.
pub open spec fn graph_size<M, P, D, O>(nodes: Seq<RepairGraphNode<M, P, D, O>>, n: nat) -> nat
    decreases n,
{
    if n == 0 || n > nodes.len() {
        0
    } else {
        graph_size(nodes, (n - 1) as nat) + 1 + nodes[n - 1].tasks.tasks@.len()
    }
}

proof fn lemma_graph_size_grows<M, P, D, O>(nodes: Seq<RepairGraphNode<M, P, D, O>>, i: nat, n: nat)
    requires
        i <= n <= nodes.len(),
    ensures
        graph_size(nodes, i) <= graph_size(nodes, n),
    decreases n - i,
{
    if i < n {
        lemma_graph_size_grows(nodes, i, (n - 1) as nat);
    }
}

/// Whether a position lies on a grid with `rows` rows of `slots` cells.
pub open spec fn on_grid(p: LayoutGridPosition, rows: nat, slots: nat) -> bool {
    p.row < rows && p.column < slots
}

/// The node that stands in each cell of a row, with the sections of its window.
pub open spec fn row_nodes(row: Seq<Option<LayoutEntry>>) -> Seq<Option<((usize, Option<usize>), Seq<bool>)>> {
    row.map_values(|c: Option<LayoutEntry>| match c {
        Some(e) => Some((e.node_index, e.window_state.collapsed@)),
        None => None::<((usize, Option<usize>), Seq<bool>)>,
    })
}

/// The sections of the window of a newly placed node: sixteen, all expanded.
pub open spec fn fresh_sections() -> Seq<bool> {
    Seq::new(16, |i: int| true)
}

/// A layout seen as the nodes in its cells, row by row, each with the sections of its window,
/// and the position of each model with the positions of its tasks.
pub ghost struct LayoutView {
    pub cells: Seq<Seq<Option<((usize, Option<usize>), Seq<bool>)>>>,
    pub models: Seq<(LayoutGridPosition, Seq<LayoutGridPosition>)>,
}

impl View for RepairGraphLayout {
    type V = LayoutView;

    open spec fn view(&self) -> LayoutView {
        LayoutView {
            cells: self.rows@.map_values(|r: LayoutRow| row_nodes(r.entries@)),
            models: self.node_to_position@.map_values(|m: ModelLayoutInfo| (m.model_position, m.task_positions@)),
        }
    }
}

/// The first row at or after `r` that has a column for a node near `column`, or the row after
/// the last where none has.
pub open spec fn placement_row<T>(cells: Seq<Seq<Option<T>>>, r: int, column: int, slots: int) -> int
    decreases cells.len() - r,
{
    if r >= cells.len() {
        r
    } else if chosen_column(cells[r], column, slots) is Some {
        r
    } else {
        placement_row(cells, r + 1, column, slots)
    }
}

/// The layout after a node is placed near row `start_row` and column `start_column`: in the
/// first row from there with a free cell near the column (a new row where none has), recorded
/// as the model's position or after the positions of its tasks; its window gets
/// [`fresh_sections`], and every other cell keeps its node and window.
pub open spec fn placed(v: LayoutView, start_row: int, start_column: int, node: (usize, Option<usize>), slots: nat) -> LayoutView {
    let r = placement_row(v.cells, start_row, start_column, slots as int);
    let row = row_at(v.cells, r, slots);
    let c = match chosen_column(row, start_column, slots as int) {
        Some(c) => c,
        None => 0,
    };
    let new_row = row.update(c, Some((node, fresh_sections())));
    let position = LayoutGridPosition { column: c as usize, row: r as usize };
    LayoutView {
        cells: if r < v.cells.len() { v.cells.update(r, new_row) } else { v.cells.push(new_row) },
        models: match node.1 {
            Some(_) => v.models.update(node.0 as int, (v.models[node.0 as int].0, v.models[node.0 as int].1.push(position))),
            None => v.models.push((position, Seq::empty())),
        },
    }
}

/// Where a new model starts looking for a cell: below the task that produced it where that
/// task has a position, else in the middle of the first row.
pub open spec fn model_start(v: LayoutView, parent: Option<RepairGraphParent>, middle: int) -> (int, int) {
    match parent {
        Some(p) => if p.model_index < v.models.len() && p.task_index < v.models[p.model_index as int].1.len() {
            let position = v.models[p.model_index as int].1[p.task_index as int];
            (position.row + 1, position.column as int)
        } else {
            (0, middle)
        },
        None => (0, middle),
    }
}

/// Where a new task of model `m` starts looking for a cell: below its first dependency where
/// that has a position, else below its model where that has one, else in the middle of the
/// first row.
pub open spec fn task_start(v: LayoutView, m: int, dependencies: Seq<usize>, middle: int) -> (int, int) {
    if dependencies.len() > 0 && 0 <= m < v.models.len() && dependencies[0] < v.models[m].1.len() {
        let position = v.models[m].1[dependencies[0] as int];
        (position.row + 1, position.column as int)
    } else if 0 <= m < v.models.len() {
        (v.models[m].0.row + 1, v.models[m].0.column as int)
    } else {
        (0, middle)
    }
}

/// The layout after the first `t` tasks of model `m` that have no position yet are placed, in
/// order.
pub open spec fn with_tasks<M, P, D, O>(v: LayoutView, node: RepairGraphNode<M, P, D, O>, m: int, t: nat, slots: nat) -> LayoutView
    decreases t,
{
    if t == 0 {
        v
    } else {
        let w = with_tasks(v, node, m, (t - 1) as nat, slots);
        let k = t - 1;
        if 0 <= m < w.models.len() && w.models[m].1.len() <= k {
            let start = task_start(w, m, node.tasks.tasks@[k].dependencies@, (slots / 2) as int);
            placed(w, start.0, start.1, (m as usize, Some(k as usize)), slots)
        } else {
            w
        }
    }
}

/// The layout after the first `n` models of a graph that have no position yet are placed,
/// each followed by its tasks that have none.
pub open spec fn with_models<M, P, D, O>(v: LayoutView, nodes: Seq<RepairGraphNode<M, P, D, O>>, n: nat, slots: nat) -> LayoutView
    decreases n,
{
    if n == 0 || n > nodes.len() {
        v
    } else {
        let w = with_models(v, nodes, (n - 1) as nat, slots);
        let i = n - 1;
        let with_model = if w.models.len() <= i {
            let start = model_start(w, nodes[i].parent, (slots / 2) as int);
            placed(w, start.0, start.1, (i as usize, None), slots)
        } else {
            w
        };
        with_tasks(with_model, nodes[i], i, nodes[i].tasks.tasks@.len(), slots)
    }
}

proof fn lemma_first_free_nodes(row: Seq<Option<LayoutEntry>>, start: int, slots: int, d: nat)
    ensures
        first_free(row_nodes(row), start, slots, d) == first_free(row, start, slots, d),
    decreases d,
{
    if d > 0 {
        lemma_first_free_nodes(row, start, slots, (d - 1) as nat);
        let x = start - (d - 1);
        let y = start + (d - 1);
        if 0 <= x < row.len() {
            assert(row_nodes(row)[x] is None <==> row[x] is None);
        }
        if 0 <= y < row.len() {
            assert(row_nodes(row)[y] is None <==> row[y] is None);
        }
    }
}

proof fn lemma_first_free_in_range<T>(row: Seq<Option<T>>, start: int, slots: int, d: nat)
    requires
        first_free(row, start, slots, d) is Some,
    ensures
        0 <= first_free(row, start, slots, d)->0 < slots,
        free_at(row, first_free(row, start, slots, d)->0),
    decreases d,
{
    if d > 0 && first_free(row, start, slots, (d - 1) as nat) is Some {
        lemma_first_free_in_range(row, start, slots, (d - 1) as nat);
    }
}

proof fn lemma_placement_row<T>(cells: Seq<Seq<Option<T>>>, r: int, found: int, column: int, slots: int)
    requires
        r <= found <= cells.len(),
        forall|x: int| r <= x < found ==> chosen_column(#[trigger] cells[x], column, slots) is None,
        found < cells.len() ==> chosen_column(cells[found], column, slots) is Some,
    ensures
        placement_row(cells, r, column, slots) == found,
    decreases found - r,
{
    if r < found {
        lemma_placement_row(cells, r + 1, found, column, slots);
    }
}

impl RepairGraphLayout {
    /// Every row has one cell per slot, and every recorded position lies on the grid.
    pub open spec fn wf(&self) -> bool {
        &&& self.slots_per_row > 0
        &&& self.rows@.len() < usize::MAX
        &&& forall|r: int| 0 <= r < self.rows@.len() ==> (#[trigger] self.rows@[r]).entries@.len() == self.slots_per_row
        &&& forall|m: int| 0 <= m < self.node_to_position@.len() ==> {
            let info = #[trigger] self.node_to_position@[m];
            &&& on_grid(info.model_position, self.rows@.len(), self.slots_per_row as nat)
            &&& forall|t: int| 0 <= t < info.task_positions@.len()
                ==> on_grid(#[trigger] info.task_positions@[t], self.rows@.len(), self.slots_per_row as nat)
        }
    }

    /// An empty grid with `slots_per_row` cells per row.
    pub fn new(slots_per_row: usize) -> (r: Self)
        requires
            slots_per_row > 0,
        ensures
            r.wf(),
            r.rows@.len() == 0,
            r.node_to_position@.len() == 0,
            r.slots_per_row == slots_per_row,
    {
        RepairGraphLayout { rows: Vec::new(), node_to_position: Vec::new(), slots_per_row }
    }

    fn empty_layout_row(slots: usize) -> (r: LayoutRow)
        ensures
            r.entries@ == empty_row::<LayoutEntry>(slots as nat),
    {
        let mut entries: Vec<Option<LayoutEntry>> = Vec::new();
        let mut i: usize = 0;
        while i < slots
            invariant
                i <= slots,
                entries@ == empty_row::<LayoutEntry>(i as nat),
            decreases slots - i,
        {
            entries.push(None);
            assert(entries@ =~= empty_row::<LayoutEntry>((i + 1) as nat));
            i += 1;
        }
        LayoutRow { entries }
    }

    /// The column chosen in row `row`, as [`chosen_column`] says.
    fn free_in_row(&self, row: usize, start_column: usize) -> (r: Option<usize>)
        requires
            self.wf(),
            row < self.rows@.len(),
        ensures
            match chosen_column(self.rows@[row as int].entries@, start_column as int, self.slots_per_row as int) {
                Some(c) => r == Some(c as usize) && 0 <= c < self.slots_per_row,
                None => r is None,
            },
    {
        let slots = self.slots_per_row;
        let entries = &self.rows[row].entries;
        let ghost cells = entries@;
        let mut delta: usize = 0;
        while delta < slots
            invariant
                entries@ == cells,
                row < self.rows@.len(),
                cells == self.rows@[row as int].entries@,
                slots == self.slots_per_row,
                cells.len() == slots,
                delta <= slots,
                first_free(cells, start_column as int, slots as int, delta as nat) is None,
            decreases slots - delta,
        {
            if delta <= start_column && start_column - delta < slots && entries[start_column - delta].is_none() {
                let c = start_column - delta;
                proof {
                    assert(first_free(cells, start_column as int, slots as int, (delta + 1) as nat) == Some(c as int));
                    lemma_first_free_stays(cells, start_column as int, slots as int, (delta + 1) as nat, slots as nat);
                }
                return Some(c);
            }
            if start_column < slots && delta < slots - start_column && entries[start_column + delta].is_none() {
                let c = start_column + delta;
                proof {
                    assert(first_free(cells, start_column as int, slots as int, (delta + 1) as nat) == Some(c as int));
                    lemma_first_free_stays(cells, start_column as int, slots as int, (delta + 1) as nat, slots as nat);
                }
                return Some(c);
            }
            delta += 1;
        }
        None
    }

    /// What [`create_position`](Self::create_position) states of a layout, seen as [`placed`].
    proof fn lemma_placed(
        before: RepairGraphLayout,
        after: RepairGraphLayout,
        start_row: usize,
        start_column: usize,
        node_index: (usize, Option<usize>),
        r: (usize, usize),
    )
        requires
            before.wf(),
            start_column < before.slots_per_row,
            start_row <= r.0 <= before.rows@.len(),
            forall|x: int| start_row <= x < r.0 ==> x < before.rows@.len()
                && chosen_column(row_entries(before.rows@)[x], start_column as int, before.slots_per_row as int) is None,
            chosen_column(row_at(row_entries(before.rows@), r.0 as int, before.slots_per_row as nat),
                start_column as int, before.slots_per_row as int) == Some(r.1 as int),
            after.rows@.len() == if r.0 < before.rows@.len() { before.rows@.len() as int } else { r.0 + 1 },
            forall|x: int| 0 <= x < after.rows@.len() && x != r.0 ==>
                #[trigger] row_entries(after.rows@)[x] == row_at(row_entries(before.rows@), x, before.slots_per_row as nat),
            ({
                let cells = row_entries(after.rows@)[r.0 as int];
                let prior = row_at(row_entries(before.rows@), r.0 as int, before.slots_per_row as nat);
                &&& cells.len() == prior.len()
                &&& forall|c: int| 0 <= c < cells.len() && c != r.1 ==> #[trigger] cells[c] == prior[c]
                &&& cells[r.1 as int] matches Some(e) && e.node_index == node_index
                    && e.window_state.collapsed@ == Seq::new(16, |i: int| true)
            }),
            match node_index.1 {
                Some(t) => {
                    &&& node_index.0 < before.node_to_position@.len()
                    &&& after.node_to_position@.len() == before.node_to_position@.len()
                    &&& forall|m: int| 0 <= m < after.node_to_position@.len() && m != node_index.0
                        ==> #[trigger] after.node_to_position@[m] == before.node_to_position@[m]
                    &&& after.node_to_position@[node_index.0 as int].model_position
                        == before.node_to_position@[node_index.0 as int].model_position
                    &&& after.node_to_position@[node_index.0 as int].task_positions@
                        == before.node_to_position@[node_index.0 as int].task_positions@.push(LayoutGridPosition { column: r.1, row: r.0 })
                },
                None => {
                    &&& after.node_to_position@.len() == before.node_to_position@.len() + 1
                    &&& forall|m: int| 0 <= m < before.node_to_position@.len()
                        ==> #[trigger] after.node_to_position@[m] == before.node_to_position@[m]
                    &&& after.node_to_position@.last().model_position == (LayoutGridPosition { column: r.1, row: r.0 })
                    &&& after.node_to_position@.last().task_positions@.len() == 0
                },
            },
        ensures
            after@ == placed(before@, start_row as int, start_column as int, node_index, before.slots_per_row as nat),
            placement_row(before@.cells, start_row as int, start_column as int, before.slots_per_row as int) == r.0,
    {
        let slots = before.slots_per_row;
        let v = before@;
        let old_entries = row_entries(before.rows@);
        assert forall|x: int| start_row <= x < r.0 implies
            chosen_column(#[trigger] v.cells[x], start_column as int, slots as int) is None by {
            assert(v.cells[x] == row_nodes(old_entries[x]));
            lemma_first_free_nodes(old_entries[x], start_column as int, slots as int, slots as nat);
        }
        let prior = row_at(old_entries, r.0 as int, slots as nat);
        if r.0 < before.rows@.len() {
            assert(v.cells[r.0 as int] == row_nodes(prior));
        } else {
            assert(row_nodes(prior) =~= empty_row::<((usize, Option<usize>), Seq<bool>)>(slots as nat));
        }
        assert(row_at(v.cells, r.0 as int, slots as nat) == row_nodes(prior));
        lemma_first_free_nodes(prior, start_column as int, slots as int, slots as nat);
        lemma_placement_row(v.cells, start_row as int, r.0 as int, start_column as int, slots as int);
        let w = placed(v, start_row as int, start_column as int, node_index, slots as nat);
        let new_row = row_nodes(prior).update(r.1 as int, Some((node_index, fresh_sections())));
        lemma_first_free_in_range(prior, start_column as int, slots as int, slots as nat);
        let after_row = row_entries(after.rows@)[r.0 as int];
        assert forall|k: int| 0 <= k < after_row.len() implies #[trigger] row_nodes(after_row)[k] == new_row[k] by {
            if k != r.1 {
                assert(after_row[k] == prior[k]);
            }
        }
        assert(row_nodes(after_row) =~= new_row);
        assert forall|x: int| 0 <= x < after@.cells.len() implies #[trigger] after@.cells[x] == w.cells[x] by {
            if x != r.0 {
                assert(after@.cells[x] == row_nodes(row_entries(after.rows@)[x]));
                assert(x < before.rows@.len());
                assert(v.cells[x] == row_nodes(old_entries[x]));
            } else {
                assert(after@.cells[x] == row_nodes(row_entries(after.rows@)[x]));
            }
        }
        assert(after@.cells =~= w.cells);
        let position = LayoutGridPosition { column: r.1, row: r.0 };
        match node_index.1 {
            Some(t) => {
                assert forall|m: int| 0 <= m < after@.models.len() implies #[trigger] after@.models[m] == w.models[m] by {
                    if m == node_index.0 {
                        assert(after@.models[m] == (after.node_to_position@[m].model_position, after.node_to_position@[m].task_positions@));
                    } else {
                        assert(after.node_to_position@[m] == before.node_to_position@[m]);
                    }
                }
                assert(after@.models =~= w.models);
            },
            None => {
                assert forall|m: int| 0 <= m < after@.models.len() implies #[trigger] after@.models[m] == w.models[m] by {
                    if m < before.node_to_position@.len() {
                        assert(after.node_to_position@[m] == before.node_to_position@[m]);
                    } else {
                        assert(after.node_to_position@[m].task_positions@ =~= Seq::<LayoutGridPosition>::empty());
                    }
                }
                assert(after@.models =~= w.models);
            },
        }
    }

    /// Puts a node in the first row at or after `start_row` that has a free cell near
    /// `start_column` (as [`chosen_column`] says; rows are added as needed), and records its
    /// position: a model (`node_index.1` is `None`) after the known models, a task after the
    /// known tasks of its model. Returns the row and the column.
    pub fn create_position(&mut self, start_row: usize, start_column: usize, node_index: (usize, Option<usize>)) -> (r: (usize, usize))
        requires
            old(self).wf(),
            start_column < old(self).slots_per_row,
            start_row <= old(self).rows@.len(),
            old(self).rows@.len() + 1 < usize::MAX,
            match node_index.1 {
                Some(t) => node_index.0 < old(self).node_to_position@.len()
                    && old(self).node_to_position@[node_index.0 as int].task_positions@.len() == t,
                None => old(self).node_to_position@.len() == node_index.0,
            },
        ensures
            final(self).wf(),
            final(self).slots_per_row == old(self).slots_per_row,
            start_row <= r.0 <= old(self).rows@.len(),
            forall|x: int| start_row <= x < r.0 ==> x < old(self).rows@.len()
                && chosen_column(row_entries(old(self).rows@)[x], start_column as int, old(self).slots_per_row as int) is None,
            chosen_column(row_at(row_entries(old(self).rows@), r.0 as int, old(self).slots_per_row as nat),
                start_column as int, old(self).slots_per_row as int) == Some(r.1 as int),
            final(self).rows@.len() == if r.0 < old(self).rows@.len() { old(self).rows@.len() as int } else { r.0 + 1 },
            forall|x: int| 0 <= x < final(self).rows@.len() && x != r.0 ==>
                #[trigger] row_entries(final(self).rows@)[x] == row_at(row_entries(old(self).rows@), x, old(self).slots_per_row as nat),
            ({
                let cells = row_entries(final(self).rows@)[r.0 as int];
                let before = row_at(row_entries(old(self).rows@), r.0 as int, old(self).slots_per_row as nat);
                &&& cells.len() == before.len()
                &&& forall|c: int| 0 <= c < cells.len() && c != r.1 ==> #[trigger] cells[c] == before[c]
                &&& cells[r.1 as int] matches Some(e) && e.node_index == node_index
                    && e.window_state.collapsed@ == Seq::new(16, |i: int| true)
            }),
            match node_index.1 {
                Some(t) => {
                    &&& final(self).node_to_position@.len() == old(self).node_to_position@.len()
                    &&& forall|m: int| 0 <= m < final(self).node_to_position@.len() && m != node_index.0
                        ==> #[trigger] final(self).node_to_position@[m] == old(self).node_to_position@[m]
                    &&& final(self).node_to_position@[node_index.0 as int].model_position
                        == old(self).node_to_position@[node_index.0 as int].model_position
                    &&& final(self).node_to_position@[node_index.0 as int].task_positions@
                        == old(self).node_to_position@[node_index.0 as int].task_positions@.push(LayoutGridPosition { column: r.1, row: r.0 })
                },
                None => {
                    &&& final(self).node_to_position@.len() == old(self).node_to_position@.len() + 1
                    &&& forall|m: int| 0 <= m < old(self).node_to_position@.len()
                        ==> #[trigger] final(self).node_to_position@[m] == old(self).node_to_position@[m]
                    &&& final(self).node_to_position@.last().model_position == (LayoutGridPosition { column: r.1, row: r.0 })
                    &&& final(self).node_to_position@.last().task_positions@.len() == 0
                },
            },
    {
        let ghost old_rows = row_entries(self.rows@);
        let ghost old_len = self.rows@.len();
        let slots = self.slots_per_row;
        let mut row = start_row;
        loop
            invariant
                self.wf(),
                self.slots_per_row == slots,
                slots == old(self).slots_per_row,
                self.node_to_position == old(self).node_to_position,
                start_row <= row <= old_len,
                old_len == old(self).rows@.len(),
                old_rows == row_entries(old(self).rows@),
                old_len + 1 < usize::MAX,
                start_column < slots,
                self.rows@.len() == old_len,
                row_entries(self.rows@) == old_rows,
                forall|x: int| start_row <= x < row ==> x < old_len
                    && chosen_column(old_rows[x], start_column as int, slots as int) is None,
                match node_index.1 {
                    Some(t) => node_index.0 < old(self).node_to_position@.len()
                        && old(self).node_to_position@[node_index.0 as int].task_positions@.len() == t,
                    None => old(self).node_to_position@.len() == node_index.0,
                },
            decreases old_len - row,
        {
            if row == self.rows.len() {
                let fresh = Self::empty_layout_row(slots);
                self.rows.push(fresh);
                proof {
                    let cells = empty_row::<LayoutEntry>(slots as nat);
                    assert(row_entries(self.rows@) =~= old_rows.push(cells));
                    assert(first_free(cells, start_column as int, slots as int, 0) is None);
                    assert(free_at(cells, start_column as int));
                    assert(first_free(cells, start_column as int, slots as int, 1) == Some(start_column as int));
                    lemma_first_free_stays(cells, start_column as int, slots as int, 1, slots as nat);
                    assert(row_at(old_rows, row as int, slots as nat) == cells);
                }
                let c = self.place(row, start_column, node_index);
                return (row, c);
            }
            assert(row_entries(self.rows@)[row as int] == self.rows@[row as int].entries@);
            match self.free_in_row(row, start_column) {
                Some(c) => {
                    proof { assert(row_at(old_rows, row as int, slots as nat) == old_rows[row as int]); }
                    self.place_at(row, c, node_index);
                    return (row, c);
                },
                None => {},
            }
            row += 1;
        }
    }

    /// Places the node in the fresh last row at `start_column`.
    fn place(&mut self, row: usize, start_column: usize, node_index: (usize, Option<usize>)) -> (c: usize)
        requires
            row + 1 == old(self).rows@.len(),
            start_column < old(self).slots_per_row,
            old(self).slots_per_row > 0,
            old(self).rows@.len() < usize::MAX,
            forall|r: int| 0 <= r < old(self).rows@.len() ==> (#[trigger] old(self).rows@[r]).entries@.len() == old(self).slots_per_row,
            forall|m: int| 0 <= m < old(self).node_to_position@.len() ==> {
                let info = #[trigger] old(self).node_to_position@[m];
                &&& on_grid(info.model_position, row as nat, old(self).slots_per_row as nat)
                &&& forall|t: int| 0 <= t < info.task_positions@.len()
                    ==> on_grid(#[trigger] info.task_positions@[t], row as nat, old(self).slots_per_row as nat)
            },
            match node_index.1 {
                Some(t) => node_index.0 < old(self).node_to_position@.len()
                    && old(self).node_to_position@[node_index.0 as int].task_positions@.len() == t,
                None => old(self).node_to_position@.len() == node_index.0,
            },
        ensures
            c == start_column,
            final(self).wf(),
            final(self).slots_per_row == old(self).slots_per_row,
            final(self).rows@.len() == old(self).rows@.len(),
            forall|x: int| 0 <= x < final(self).rows@.len() && x != row ==>
                #[trigger] row_entries(final(self).rows@)[x] == row_entries(old(self).rows@)[x],
            ({
                let cells = row_entries(final(self).rows@)[row as int];
                let before = row_entries(old(self).rows@)[row as int];
                &&& cells.len() == before.len()
                &&& forall|k: int| 0 <= k < cells.len() && k != c ==> #[trigger] cells[k] == before[k]
                &&& cells[c as int] matches Some(e) && e.node_index == node_index
                    && e.window_state.collapsed@ == Seq::new(16, |i: int| true)
            }),
            match node_index.1 {
                Some(t) => {
                    &&& final(self).node_to_position@.len() == old(self).node_to_position@.len()
                    &&& forall|m: int| 0 <= m < final(self).node_to_position@.len() && m != node_index.0
                        ==> #[trigger] final(self).node_to_position@[m] == old(self).node_to_position@[m]
                    &&& final(self).node_to_position@[node_index.0 as int].model_position
                        == old(self).node_to_position@[node_index.0 as int].model_position
                    &&& final(self).node_to_position@[node_index.0 as int].task_positions@
                        == old(self).node_to_position@[node_index.0 as int].task_positions@.push(LayoutGridPosition { column: c, row })
                },
                None => {
                    &&& final(self).node_to_position@.len() == old(self).node_to_position@.len() + 1
                    &&& forall|m: int| 0 <= m < old(self).node_to_position@.len()
                        ==> #[trigger] final(self).node_to_position@[m] == old(self).node_to_position@[m]
                    &&& final(self).node_to_position@.last().model_position == (LayoutGridPosition { column: c, row })
                    &&& final(self).node_to_position@.last().task_positions@.len() == 0
                },
            },
    {
        self.place_at(row, start_column, node_index);
        start_column
    }

    /// Writes the node into cell (`row`, `column`) and records its position.
    fn place_at(&mut self, row: usize, column: usize, node_index: (usize, Option<usize>))
        requires
            row < old(self).rows@.len(),
            column < old(self).slots_per_row,
            old(self).slots_per_row > 0,
            old(self).rows@.len() < usize::MAX,
            forall|r: int| 0 <= r < old(self).rows@.len() ==> (#[trigger] old(self).rows@[r]).entries@.len() == old(self).slots_per_row,
            forall|m: int| 0 <= m < old(self).node_to_position@.len() ==> {
                let info = #[trigger] old(self).node_to_position@[m];
                &&& on_grid(info.model_position, old(self).rows@.len(), old(self).slots_per_row as nat)
                &&& forall|t: int| 0 <= t < info.task_positions@.len()
                    ==> on_grid(#[trigger] info.task_positions@[t], old(self).rows@.len(), old(self).slots_per_row as nat)
            },
            match node_index.1 {
                Some(t) => node_index.0 < old(self).node_to_position@.len()
                    && old(self).node_to_position@[node_index.0 as int].task_positions@.len() == t,
                None => old(self).node_to_position@.len() == node_index.0,
            },
        ensures
            final(self).wf(),
            final(self).slots_per_row == old(self).slots_per_row,
            final(self).rows@.len() == old(self).rows@.len(),
            forall|x: int| 0 <= x < final(self).rows@.len() && x != row ==>
                #[trigger] row_entries(final(self).rows@)[x] == row_entries(old(self).rows@)[x],
            ({
                let cells = row_entries(final(self).rows@)[row as int];
                let before = row_entries(old(self).rows@)[row as int];
                &&& cells.len() == before.len()
                &&& forall|k: int| 0 <= k < cells.len() && k != column ==> #[trigger] cells[k] == before[k]
                &&& cells[column as int] matches Some(e) && e.node_index == node_index
                    && e.window_state.collapsed@ == Seq::new(16, |i: int| true)
            }),
            match node_index.1 {
                Some(t) => {
                    &&& final(self).node_to_position@.len() == old(self).node_to_position@.len()
                    &&& forall|m: int| 0 <= m < final(self).node_to_position@.len() && m != node_index.0
                        ==> #[trigger] final(self).node_to_position@[m] == old(self).node_to_position@[m]
                    &&& final(self).node_to_position@[node_index.0 as int].model_position
                        == old(self).node_to_position@[node_index.0 as int].model_position
                    &&& final(self).node_to_position@[node_index.0 as int].task_positions@
                        == old(self).node_to_position@[node_index.0 as int].task_positions@.push(LayoutGridPosition { column, row })
                },
                None => {
                    &&& final(self).node_to_position@.len() == old(self).node_to_position@.len() + 1
                    &&& forall|m: int| 0 <= m < old(self).node_to_position@.len()
                        ==> #[trigger] final(self).node_to_position@[m] == old(self).node_to_position@[m]
                    &&& final(self).node_to_position@.last().model_position == (LayoutGridPosition { column, row })
                    &&& final(self).node_to_position@.last().task_positions@.len() == 0
                },
            },
    {
        let ghost old_rows = self.rows@;
        let mut target = self.rows.remove(row);
        let entry = LayoutEntry { node_index, window_state: WindowState::with_expanded_sections(16) };
        target.entries.set(column, Some(entry));
        self.rows.insert(row, target);
        proof {
            assert forall|x: int| 0 <= x < self.rows@.len() && x != row implies
                #[trigger] row_entries(self.rows@)[x] == row_entries(old_rows)[x] by {
                assert(self.rows@[x] == old_rows[x]);
            }
            assert forall|r: int| 0 <= r < self.rows@.len() implies (#[trigger] self.rows@[r]).entries@.len() == self.slots_per_row by {
                if r != row {
                    assert(self.rows@[r] == old_rows[r]);
                }
            }
        }
        let position = LayoutGridPosition { column, row };
        let ghost old_infos = self.node_to_position@;
        match node_index.1 {
            Some(_) => {
                let mut info = self.node_to_position.remove(node_index.0);
                info.task_positions.push(position);
                self.node_to_position.insert(node_index.0, info);
                proof {
                    assert forall|m: int| 0 <= m < self.node_to_position@.len() && m != node_index.0
                        implies #[trigger] self.node_to_position@[m] == old_infos[m] by {}
                }
            },
            None => {
                self.node_to_position.push(ModelLayoutInfo { model_position: position, task_positions: Vec::new() });
            },
        }
        proof {
            assert forall|m: int| 0 <= m < self.node_to_position@.len() implies {
                let info = #[trigger] self.node_to_position@[m];
                &&& on_grid(info.model_position, self.rows@.len(), self.slots_per_row as nat)
                &&& forall|t: int| 0 <= t < info.task_positions@.len()
                    ==> on_grid(#[trigger] info.task_positions@[t], self.rows@.len(), self.slots_per_row as nat)
            } by {
                if m < old_infos.len() && m != node_index.0 {
                    assert(self.node_to_position@[m] == old_infos[m]);
                }
                if m < old_infos.len() && m == node_index.0 {
                    let info = self.node_to_position@[m];
                    assert forall|t: int| 0 <= t < info.task_positions@.len()
                        implies on_grid(#[trigger] info.task_positions@[t], self.rows@.len(), self.slots_per_row as nat) by {
                        if t < old_infos[m].task_positions@.len() {
                            assert(info.task_positions@[t] == old_infos[m].task_positions@[t]);
                        }
                    }
                }
            }
        }
    }

    /// The position of a model, if it has one.
    pub fn model_position(&self, model: usize) -> (r: Option<&LayoutGridPosition>)
        ensures
            model < self.node_to_position@.len() ==> r == Some(&self.node_to_position@[model as int].model_position),
            model >= self.node_to_position@.len() ==> r is None,
    {
        if model < self.node_to_position.len() { Some(&self.node_to_position[model].model_position) } else { None }
    }

    /// The position of a task of a model, if it has one.
    pub fn task_position(&self, model: usize, task: usize) -> (r: Option<&LayoutGridPosition>)
        ensures
            model < self.node_to_position@.len() && task < self.node_to_position@[model as int].task_positions@.len()
                ==> r == Some(&self.node_to_position@[model as int].task_positions@[task as int]),
            !(model < self.node_to_position@.len() && task < self.node_to_position@[model as int].task_positions@.len())
                ==> r is None,
    {
        if model < self.node_to_position.len() && task < self.node_to_position[model].task_positions.len() {
            Some(&self.node_to_position[model].task_positions[task])
        } else {
            None
        }
    }

    /// The position of a model (`task` is `None`) or of one of its tasks.
    pub fn position(&self, model: usize, task: Option<usize>) -> (r: Option<&LayoutGridPosition>)
        ensures
            match task {
                Some(t) => model < self.node_to_position@.len() && t < self.node_to_position@[model as int].task_positions@.len()
                    ==> r == Some(&self.node_to_position@[model as int].task_positions@[t as int]),
                None => model < self.node_to_position@.len() ==> r == Some(&self.node_to_position@[model as int].model_position),
            },
            match task {
                Some(t) => !(model < self.node_to_position@.len() && t < self.node_to_position@[model as int].task_positions@.len()) ==> r is None,
                None => model >= self.node_to_position@.len() ==> r is None,
            },
    {
        match task {
            Some(t) => self.task_position(model, t),
            None => self.model_position(model),
        }
    }

    /// Gives a position to every model of the graph and every task of each model that has none
    /// yet, as [`with_models`] says: models in order, each followed by its tasks in order; a
    /// model starts searching below the task that produced it, a task below its first
    /// dependency or else below its model, and otherwise in the middle of the first row. Each
    /// placed node's window gets sixteen expanded sections; known positions, and the windows of
    /// the nodes already placed, stay.
    pub fn update_for_graph<M, P, D, O>(&mut self, graph: &RepairGraph<M, P, D, O>)
        requires
            old(self).wf(),
            old(self).rows@.len() + graph_size(graph.nodes@, graph.nodes@.len()) + 1 < usize::MAX,
        ensures
            final(self).wf(),
            final(self).slots_per_row == old(self).slots_per_row,
            final(self)@ == with_models(old(self)@, graph.nodes@, graph.nodes@.len(), old(self).slots_per_row as nat),
            final(self).node_to_position@.len() >= graph.nodes@.len(),
            final(self).node_to_position@.len() >= old(self).node_to_position@.len(),
            forall|m: int| 0 <= m < graph.nodes@.len() ==> (#[trigger] final(self).node_to_position@[m]).task_positions@.len()
                >= graph.nodes@[m].tasks.tasks@.len(),
            forall|m: int| 0 <= m < old(self).node_to_position@.len() ==>
                (#[trigger] final(self).node_to_position@[m]).model_position == old(self).node_to_position@[m].model_position
                && old(self).node_to_position@[m].task_positions@.len() <= final(self).node_to_position@[m].task_positions@.len()
                && forall|t: int| 0 <= t < old(self).node_to_position@[m].task_positions@.len() ==>
                    #[trigger] final(self).node_to_position@[m].task_positions@[t] == old(self).node_to_position@[m].task_positions@[t],
    {
        let ghost old_len = self.rows@.len();
        let ghost total = graph_size(graph.nodes@, graph.nodes@.len());
        let slots = self.slots_per_row;
        let middle = slots / 2;
        let mut i: usize = 0;
        while i < graph.nodes.len()
            invariant
                self.wf(),
                self.slots_per_row == slots,
                slots == old(self).slots_per_row,
                middle < slots,
                middle == slots / 2,
                i <= graph.nodes@.len(),
                self@ == with_models(old(self)@, graph.nodes@, i as nat, slots as nat),
                total == graph_size(graph.nodes@, graph.nodes@.len()),
                old_len + total + 1 < usize::MAX,
                old_len == old(self).rows@.len(),
                self.rows@.len() <= old_len + graph_size(graph.nodes@, i as nat),
                graph_size(graph.nodes@, i as nat) <= total,
                self.node_to_position@.len() >= i,
                self.node_to_position@.len() >= old(self).node_to_position@.len(),
                forall|m: int| 0 <= m < i ==> (#[trigger] self.node_to_position@[m]).task_positions@.len()
                    >= graph.nodes@[m].tasks.tasks@.len(),
                forall|m: int| 0 <= m < old(self).node_to_position@.len() ==>
                    (#[trigger] self.node_to_position@[m]).model_position == old(self).node_to_position@[m].model_position
                    && old(self).node_to_position@[m].task_positions@.len() <= self.node_to_position@[m].task_positions@.len()
                    && forall|t: int| 0 <= t < old(self).node_to_position@[m].task_positions@.len() ==>
                        #[trigger] self.node_to_position@[m].task_positions@[t] == old(self).node_to_position@[m].task_positions@[t],
            decreases graph.nodes.len() - i,
        {
            proof { lemma_graph_size_grows(graph.nodes@, (i + 1) as nat, graph.nodes@.len()); }
            let node = &graph.nodes[i];
            let ghost before_model = self@;
            if self.node_to_position.len() <= i {
                let start = match &node.parent {
                    Some(p) => match self.task_position(p.model_index, p.task_index) {
                        Some(pos) => (pos.row + 1, pos.column),
                        None => (0, middle),
                    },
                    None => (0, middle),
                };
                proof {
                    self.lemma_positions_on_grid();
                    let expected = model_start(before_model, node.parent, middle as int);
                    match node.parent {
                        Some(p) => {
                            if p.model_index < before_model.models.len() && p.task_index < before_model.models[p.model_index as int].1.len() {
                                assert(before_model.models[p.model_index as int].1
                                    == self.node_to_position@[p.model_index as int].task_positions@);
                            }
                        },
                        None => {},
                    }
                    assert(start.0 as int == expected.0 && start.1 as int == expected.1);
                }
                let ghost before = *self;
                let r = self.create_position(start.0, start.1, (i, None));
                proof { Self::lemma_placed(before, *self, start.0, start.1, (i, None), r); }
            }
            let ghost with_model = self@;
            proof {
                assert(with_model == (if before_model.models.len() <= i {
                    let st = model_start(before_model, graph.nodes@[i as int].parent, (slots / 2) as int);
                    placed(before_model, st.0, st.1, (i, None), slots as nat)
                } else {
                    before_model
                }));
            }
            let ghost rows_mid = self.rows@.len();
            let n_tasks = node.tasks.tasks.len();
            let mut t: usize = 0;
            while t < n_tasks
                invariant
                    self.wf(),
                    self.slots_per_row == slots,
                    middle < slots,
                middle == slots / 2,
                    i < graph.nodes@.len(),
                    n_tasks == graph.nodes@[i as int].tasks.tasks@.len(),
                    node == &graph.nodes@[i as int],
                    t <= n_tasks,
                    self@ == with_tasks(with_model, *node, i as int, t as nat, slots as nat),
                    with_model.models.len() > i,
                    old_len + total + 1 < usize::MAX,
                    self.rows@.len() <= old_len + graph_size(graph.nodes@, i as nat) + 1 + t,
                    graph_size(graph.nodes@, (i + 1) as nat) <= total,
                    graph_size(graph.nodes@, (i + 1) as nat) == graph_size(graph.nodes@, i as nat) + 1 + n_tasks,
                    self.node_to_position@.len() >= i + 1,
                    self.node_to_position@.len() >= old(self).node_to_position@.len(),
                    self.node_to_position@[i as int].task_positions@.len() >= t,
                    forall|m: int| 0 <= m < i ==> (#[trigger] self.node_to_position@[m]).task_positions@.len()
                        >= graph.nodes@[m].tasks.tasks@.len(),
                    forall|m: int| 0 <= m < old(self).node_to_position@.len() ==>
                        (#[trigger] self.node_to_position@[m]).model_position == old(self).node_to_position@[m].model_position
                        && old(self).node_to_position@[m].task_positions@.len() <= self.node_to_position@[m].task_positions@.len()
                        && forall|k: int| 0 <= k < old(self).node_to_position@[m].task_positions@.len() ==>
                            #[trigger] self.node_to_position@[m].task_positions@[k] == old(self).node_to_position@[m].task_positions@[k],
                decreases n_tasks - t,
            {
                if self.node_to_position[i].task_positions.len() <= t {
                    let task = &node.tasks.tasks[t];
                    let from_dependency = if task.dependencies.len() > 0 {
                        match self.task_position(i, task.dependencies[0]) {
                            Some(pos) => Some((pos.row + 1, pos.column)),
                            None => None,
                        }
                    } else {
                        None
                    };
                    let start = match from_dependency {
                        Some(st) => st,
                        None => match self.model_position(i) {
                            Some(pos) => (pos.row + 1, pos.column),
                            None => (0, middle),
                        },
                    };
                    proof { self.lemma_positions_on_grid(); }
                    let ghost before = *self;
                    let r = self.create_position(start.0, start.1, (i, Some(t)));
                    proof { Self::lemma_placed(before, *self, start.0, start.1, (i, Some(t)), r); }
                }
                t += 1;
            }
            i += 1;
        }
    }

    /// Every recorded position lies on the grid.
    proof fn lemma_positions_on_grid(&self)
        requires
            self.wf(),
        ensures
            forall|m: int| 0 <= m < self.node_to_position@.len() ==>
                (#[trigger] self.node_to_position@[m]).model_position.row < self.rows@.len()
                && self.node_to_position@[m].model_position.column < self.slots_per_row,
            forall|m: int, t: int| 0 <= m < self.node_to_position@.len() && 0 <= t < self.node_to_position@[m].task_positions@.len() ==>
                (#[trigger] self.node_to_position@[m].task_positions@[t]).row < self.rows@.len()
                && self.node_to_position@[m].task_positions@[t].column < self.slots_per_row,
    {
        assert forall|m: int, t: int| 0 <= m < self.node_to_position@.len() && 0 <= t < self.node_to_position@[m].task_positions@.len() implies
            (#[trigger] self.node_to_position@[m].task_positions@[t]).row < self.rows@.len()
            && self.node_to_position@[m].task_positions@[t].column < self.slots_per_row by {
            let info = self.node_to_position@[m];
            assert(on_grid(info.task_positions@[t], self.rows@.len(), self.slots_per_row as nat));
        }
    }
}

} // verus!
