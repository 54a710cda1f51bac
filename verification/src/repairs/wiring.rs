use vstd::prelude::*;
use crate::context::guards::{applicable, bounds_of, constrains, constraints_of, guard_constraints, tighten, GuardConstraints};
use crate::context::permissible_bounds::PermissibleBounds;
use crate::context::variable_ranges::VariableRanges;
use crate::prism::expression::{ExprView, VariableReference};
use crate::prism::model::{
    Assignment, AssignmentView, Command, CommandView, Model, ModelView, Module, ModuleView, Update, UpdateView,
    VariableInfo, VariableView,
};
use crate::repairs::error::RepairError;
use crate::repairs::repair_expression::{calls_repair, law_repair_free_expression_unchanged, repaired, Repairer};
use crate::repairs::types::{CollectionView, RepairCollection};

verus! {

/// The permissible bounds of variable `i`; nothing is known of a variable out of range.
pub open spec fn bound_at(ranges: Seq<PermissibleBounds>, i: int) -> PermissibleBounds {
    if 0 <= i < ranges.len() { ranges[i] } else { PermissibleBounds::Unknown }
}

/// Whether the guard bounds variable `v` while `v` has no known integer range.
pub open spec fn unusable_bound(guard: ExprView, ranges: Seq<PermissibleBounds>, v: usize) -> bool {
    let cs = guard_constraints(guard);
    constrains(cs, v) && !applicable(ranges, v, bounds_of(constraints_of(cs, v)))
}

/// The variable ranges under a guard: each variable that the guard compares with integer
/// literals gets its range narrowed to those bounds. Refused, naming the smallest such
/// variable, where the guard bounds a variable that has no known integer range.
pub open spec fn guard_ranges(guard: ExprView, ranges: Seq<PermissibleBounds>) -> Result<Seq<PermissibleBounds>, RepairError> {
    let cs = guard_constraints(guard);
    if exists|v: usize| unusable_bound(guard, ranges, v) {
        let v = choose|v: usize| unusable_bound(guard, ranges, v) && forall|w: usize| unusable_bound(guard, ranges, w) ==> v <= w;
        Err(RepairError::VariableWithoutIntegerBounds { variable: VariableReference { index: v } })
    } else {
        Ok(Seq::new(ranges.len(), |i: int|
            if constrains(cs, i as usize) { tighten(ranges[i], bounds_of(constraints_of(cs, i as usize))) } else { ranges[i] }))
    }
}

/// The assignments of an update after repair: each value with the permissible bounds of its
/// target variable, read under the ranges `narrowed`.
pub open spec fn assignments_repaired(
    assignments: Seq<AssignmentView>,
    ranges: Seq<PermissibleBounds>,
    narrowed: Seq<PermissibleBounds>,
    c: CollectionView,
) -> Result<(Seq<AssignmentView>, CollectionView), RepairError>
    decreases assignments.len(),
{
    if assignments.len() == 0 {
        Ok((Seq::empty(), c))
    } else {
        match assignments_repaired(assignments.drop_last(), ranges, narrowed, c) {
            Err(e) => Err(e),
            Ok((done, c1)) => {
                let a = assignments.last();
                match repaired(a.value, bound_at(ranges, a.target.index as int), narrowed, c1) {
                    Err(e) => Err(e),
                    Ok((v, c2)) => Ok((done.push(AssignmentView { value: v, ..a }), c2)),
                }
            },
        }
    }
}

/// An update after repair: the probability with unknown bounds, then the assignments.
pub open spec fn update_repaired(
    u: UpdateView,
    ranges: Seq<PermissibleBounds>,
    narrowed: Seq<PermissibleBounds>,
    c: CollectionView,
) -> Result<(UpdateView, CollectionView), RepairError> {
    match repaired(u.probability, PermissibleBounds::Unknown, narrowed, c) {
        Err(e) => Err(e),
        Ok((p, c1)) => match assignments_repaired(u.assignments, ranges, narrowed, c1) {
            Err(e) => Err(e),
            Ok((a, c2)) => Ok((UpdateView { probability: p, assignments: a, ..u }, c2)),
        },
    }
}

/// The updates of a command after repair, from first to last.
pub open spec fn updates_repaired(
    updates: Seq<UpdateView>,
    ranges: Seq<PermissibleBounds>,
    narrowed: Seq<PermissibleBounds>,
    c: CollectionView,
) -> Result<(Seq<UpdateView>, CollectionView), RepairError>
    decreases updates.len(),
{
    if updates.len() == 0 {
        Ok((Seq::empty(), c))
    } else {
        match updates_repaired(updates.drop_last(), ranges, narrowed, c) {
            Err(e) => Err(e),
            Ok((done, c1)) => match update_repaired(updates.last(), ranges, narrowed, c1) {
                Err(e) => Err(e),
                Ok((u, c2)) => Ok((done.push(u), c2)),
            },
        }
    }
}

/// A command after repair: the guard with unknown bounds; then the updates, read under the
/// ranges that the repaired guard narrows.
pub open spec fn command_repaired(cmd: CommandView, ranges: Seq<PermissibleBounds>, c: CollectionView)
    -> Result<(CommandView, CollectionView), RepairError>
{
    match repaired(cmd.guard, PermissibleBounds::Unknown, ranges, c) {
        Err(e) => Err(e),
        Ok((g, c1)) => match guard_ranges(g, ranges) {
            Err(e) => Err(e),
            Ok(narrowed) => match updates_repaired(cmd.updates, ranges, narrowed, c1) {
                Err(e) => Err(e),
                Ok((us, c2)) => Ok((CommandView { guard: g, updates: us, ..cmd }, c2)),
            },
        },
    }
}

/// The commands of a module after repair, from first to last.
pub open spec fn commands_repaired(cmds: Seq<CommandView>, ranges: Seq<PermissibleBounds>, c: CollectionView)
    -> Result<(Seq<CommandView>, CollectionView), RepairError>
    decreases cmds.len(),
{
    if cmds.len() == 0 {
        Ok((Seq::empty(), c))
    } else {
        match commands_repaired(cmds.drop_last(), ranges, c) {
            Err(e) => Err(e),
            Ok((done, c1)) => match command_repaired(cmds.last(), ranges, c1) {
                Err(e) => Err(e),
                Ok((x, c2)) => Ok((done.push(x), c2)),
            },
        }
    }
}

/// The modules after repair, from first to last.
pub open spec fn modules_repaired(ms: Seq<ModuleView>, ranges: Seq<PermissibleBounds>, c: CollectionView)
    -> Result<(Seq<ModuleView>, CollectionView), RepairError>
    decreases ms.len(),
{
    if ms.len() == 0 {
        Ok((Seq::empty(), c))
    } else {
        match modules_repaired(ms.drop_last(), ranges, c) {
            Err(e) => Err(e),
            Ok((done, c1)) => {
                let m = ms.last();
                match commands_repaired(m.commands, ranges, c1) {
                    Err(e) => Err(e),
                    Ok((cmds, c2)) => Ok((done.push(ModuleView { commands: cmds, ..m }), c2)),
                }
            },
        }
    }
}

/// The variable declarations after repair: each initial value with the bounds of its
/// variable, from first to last.
pub open spec fn variables_repaired(vs: Seq<VariableView>, ranges: Seq<PermissibleBounds>, c: CollectionView)
    -> Result<(Seq<VariableView>, CollectionView), RepairError>
    decreases vs.len(),
{
    if vs.len() == 0 {
        Ok((Seq::empty(), c))
    } else {
        match variables_repaired(vs.drop_last(), ranges, c) {
            Err(e) => Err(e),
            Ok((done, c1)) => {
                let v = vs.last();
                match v.initial_value {
                    None => Ok((done.push(v), c1)),
                    Some(init) => match repaired(init, bound_at(ranges, vs.len() - 1), ranges, c1) {
                        Err(e) => Err(e),
                        Ok((x, c2)) => Ok((done.push(VariableView { initial_value: Some(x), ..v }), c2)),
                    },
                }
            },
        }
    }
}

/// A model with all its `repair(...)` calls replaced, and the repairs recorded: first the
/// initial values of the variables, then the commands of each module.
pub open spec fn wired(m: ModelView, ranges: Seq<PermissibleBounds>, c: CollectionView)
    -> Result<(ModelView, CollectionView), RepairError>
{
    match variables_repaired(m.variables, ranges, c) {
        Err(e) => Err(e),
        Ok((vs, c1)) => match modules_repaired(m.modules, ranges, c1) {
            Err(e) => Err(e),
            Ok((ms, c2)) => Ok((ModelView { variables: vs, modules: ms, ..m }, c2)),
        },
    }
}

/// Every assignment of the model targets a variable below `count`.
pub open spec fn targets_below(m: ModelView, count: nat) -> bool {
    forall|i: int, j: int, k: int, l: int|
        0 <= i < m.modules.len() && 0 <= j < m.modules[i].commands.len()
            && 0 <= k < m.modules[i].commands[j].updates.len()
            && 0 <= l < m.modules[i].commands[j].updates[k].assignments.len()
            ==> #[trigger] m.modules[i].commands[j].updates[k].assignments[l].target.index < count
}

/// An empty collection for a model with `count` variables.
pub open spec fn empty_collection(count: nat) -> CollectionView {
    CollectionView { first_variable_index: count as usize, repair_variables: Seq::empty(), repairs: Seq::empty(), names: Seq::empty() }
}

/// Whether no expression of an update calls `repair`.
pub open spec fn update_repair_free(u: UpdateView) -> bool {
    &&& !calls_repair(u.probability)
    &&& forall|i: int| 0 <= i < u.assignments.len() ==> !calls_repair(#[trigger] u.assignments[i].value)
}

/// Whether no expression of a command calls `repair`.
pub open spec fn command_repair_free(cmd: CommandView) -> bool {
    &&& !calls_repair(cmd.guard)
    &&& forall|i: int| 0 <= i < cmd.updates.len() ==> update_repair_free(#[trigger] cmd.updates[i])
}

/// Whether no expression of a module calls `repair`.
pub open spec fn module_repair_free(m: ModuleView) -> bool {
    forall|i: int| 0 <= i < m.commands.len() ==> command_repair_free(#[trigger] m.commands[i])
}

/// Whether no initial value of a variable calls `repair`.
pub open spec fn variable_repair_free(v: VariableView) -> bool {
    v.initial_value matches Some(x) ==> !calls_repair(x)
}

/// Whether no expression of a model calls `repair`.
pub open spec fn model_repair_free(m: ModelView) -> bool {
    &&& forall|i: int| 0 <= i < m.variables.len() ==> variable_repair_free(#[trigger] m.variables[i])
    &&& forall|i: int| 0 <= i < m.modules.len() ==> module_repair_free(#[trigger] m.modules[i])
}

proof fn lemma_free_assignments(s: Seq<AssignmentView>, ranges: Seq<PermissibleBounds>, narrowed: Seq<PermissibleBounds>, c: CollectionView)
    requires
        forall|i: int| 0 <= i < s.len() ==> !calls_repair(#[trigger] s[i].value),
    ensures
        assignments_repaired(s, ranges, narrowed, c) matches Ok((s2, c2)) ==> s2 == s && c2 == c,
    decreases s.len(),
{
    if s.len() > 0 {
        let rest = s.drop_last();
        assert forall|i: int| 0 <= i < rest.len() implies !calls_repair(#[trigger] rest[i].value) by {
            assert(rest[i] == s[i]);
        }
        lemma_free_assignments(rest, ranges, narrowed, c);
        let a = s.last();
        assert(!calls_repair(s[s.len() - 1].value));
        law_repair_free_expression_unchanged(a.value, bound_at(ranges, a.target.index as int), narrowed, c);
        if let Ok((done, c1)) = assignments_repaired(rest, ranges, narrowed, c) {
            assert(done.push(AssignmentView { value: a.value, ..a }) =~= s);
        }
    }
}

proof fn lemma_free_updates(s: Seq<UpdateView>, ranges: Seq<PermissibleBounds>, narrowed: Seq<PermissibleBounds>, c: CollectionView)
    requires
        forall|i: int| 0 <= i < s.len() ==> update_repair_free(#[trigger] s[i]),
    ensures
        updates_repaired(s, ranges, narrowed, c) matches Ok((s2, c2)) ==> s2 == s && c2 == c,
    decreases s.len(),
{
    if s.len() > 0 {
        let rest = s.drop_last();
        assert forall|i: int| 0 <= i < rest.len() implies update_repair_free(#[trigger] rest[i]) by {
            assert(rest[i] == s[i]);
        }
        lemma_free_updates(rest, ranges, narrowed, c);
        let u = s.last();
        assert(update_repair_free(s[s.len() - 1]));
        law_repair_free_expression_unchanged(u.probability, PermissibleBounds::Unknown, narrowed, c);
        lemma_free_assignments(u.assignments, ranges, narrowed, c);
        if let Ok((done, c1)) = updates_repaired(rest, ranges, narrowed, c) {
            assert(done.push(UpdateView { probability: u.probability, assignments: u.assignments, ..u }) =~= s);
        }
    }
}

proof fn lemma_free_commands(s: Seq<CommandView>, ranges: Seq<PermissibleBounds>, c: CollectionView)
    requires
        forall|i: int| 0 <= i < s.len() ==> command_repair_free(#[trigger] s[i]),
    ensures
        commands_repaired(s, ranges, c) matches Ok((s2, c2)) ==> s2 == s && c2 == c,
    decreases s.len(),
{
    if s.len() > 0 {
        let rest = s.drop_last();
        assert forall|i: int| 0 <= i < rest.len() implies command_repair_free(#[trigger] rest[i]) by {
            assert(rest[i] == s[i]);
        }
        lemma_free_commands(rest, ranges, c);
        let cmd = s.last();
        assert(command_repair_free(s[s.len() - 1]));
        law_repair_free_expression_unchanged(cmd.guard, PermissibleBounds::Unknown, ranges, c);
        if let Ok(narrowed) = guard_ranges(cmd.guard, ranges) {
            lemma_free_updates(cmd.updates, ranges, narrowed, c);
        }
        if let Ok((done, c1)) = commands_repaired(rest, ranges, c) {
            assert(done.push(CommandView { guard: cmd.guard, updates: cmd.updates, ..cmd }) =~= s);
        }
    }
}

proof fn lemma_free_modules(s: Seq<ModuleView>, ranges: Seq<PermissibleBounds>, c: CollectionView)
    requires
        forall|i: int| 0 <= i < s.len() ==> module_repair_free(#[trigger] s[i]),
    ensures
        modules_repaired(s, ranges, c) matches Ok((s2, c2)) ==> s2 == s && c2 == c,
    decreases s.len(),
{
    if s.len() > 0 {
        let rest = s.drop_last();
        assert forall|i: int| 0 <= i < rest.len() implies module_repair_free(#[trigger] rest[i]) by {
            assert(rest[i] == s[i]);
        }
        lemma_free_modules(rest, ranges, c);
        let m = s.last();
        assert(module_repair_free(s[s.len() - 1]));
        lemma_free_commands(m.commands, ranges, c);
        if let Ok((done, c1)) = modules_repaired(rest, ranges, c) {
            assert(done.push(ModuleView { commands: m.commands, ..m }) =~= s);
        }
    }
}

proof fn lemma_free_variables(s: Seq<VariableView>, ranges: Seq<PermissibleBounds>, c: CollectionView)
    requires
        forall|i: int| 0 <= i < s.len() ==> variable_repair_free(#[trigger] s[i]),
    ensures
        variables_repaired(s, ranges, c) matches Ok((s2, c2)) ==> s2 == s && c2 == c,
    decreases s.len(),
{
    if s.len() > 0 {
        let rest = s.drop_last();
        assert forall|i: int| 0 <= i < rest.len() implies variable_repair_free(#[trigger] rest[i]) by {
            assert(rest[i] == s[i]);
        }
        lemma_free_variables(rest, ranges, c);
        let v = s.last();
        assert(variable_repair_free(s[s.len() - 1]));
        if let Some(init) = v.initial_value {
            law_repair_free_expression_unchanged(init, bound_at(ranges, s.len() - 1), ranges, c);
        }
        if let Ok((done, c1)) = variables_repaired(rest, ranges, c) {
            assert(done.push(v) =~= s);
            assert(done.push(VariableView { initial_value: v.initial_value, ..v }) =~= s);
        }
    }
}

/// Wiring up a model that calls `repair` nowhere leaves the model as it is and records no
/// repair, where it succeeds.
pub proof fn law_repair_free_model_unchanged(m: ModelView, ranges: Seq<PermissibleBounds>, c: CollectionView)
    requires
        model_repair_free(m),
    ensures
        wired(m, ranges, c) matches Ok((m2, c2)) ==> m2 == m && c2 == c,
{
    lemma_free_variables(m.variables, ranges, c);
    lemma_free_modules(m.modules, ranges, c);
}

proof fn lemma_assignments_repaired_err(s: Seq<AssignmentView>, ranges: Seq<PermissibleBounds>, narrowed: Seq<PermissibleBounds>, c: CollectionView, n: int)
    requires
        0 <= n <= s.len(),
        assignments_repaired(s.subrange(0, n), ranges, narrowed, c) is Err,
    ensures
        assignments_repaired(s, ranges, narrowed, c) == assignments_repaired(s.subrange(0, n), ranges, narrowed, c),
    decreases s.len() - n,
{
    if n < s.len() {
        assert(s.subrange(0, n + 1).drop_last() =~= s.subrange(0, n));
        lemma_assignments_repaired_err(s, ranges, narrowed, c, n + 1);
    } else {
        assert(s.subrange(0, n) =~= s);
    }
}

proof fn lemma_updates_repaired_err(s: Seq<UpdateView>, ranges: Seq<PermissibleBounds>, narrowed: Seq<PermissibleBounds>, c: CollectionView, n: int)
    requires
        0 <= n <= s.len(),
        updates_repaired(s.subrange(0, n), ranges, narrowed, c) is Err,
    ensures
        updates_repaired(s, ranges, narrowed, c) == updates_repaired(s.subrange(0, n), ranges, narrowed, c),
    decreases s.len() - n,
{
    if n < s.len() {
        assert(s.subrange(0, n + 1).drop_last() =~= s.subrange(0, n));
        lemma_updates_repaired_err(s, ranges, narrowed, c, n + 1);
    } else {
        assert(s.subrange(0, n) =~= s);
    }
}

proof fn lemma_commands_repaired_err(s: Seq<CommandView>, ranges: Seq<PermissibleBounds>, c: CollectionView, n: int)
    requires
        0 <= n <= s.len(),
        commands_repaired(s.subrange(0, n), ranges, c) is Err,
    ensures
        commands_repaired(s, ranges, c) == commands_repaired(s.subrange(0, n), ranges, c),
    decreases s.len() - n,
{
    if n < s.len() {
        assert(s.subrange(0, n + 1).drop_last() =~= s.subrange(0, n));
        lemma_commands_repaired_err(s, ranges, c, n + 1);
    } else {
        assert(s.subrange(0, n) =~= s);
    }
}

proof fn lemma_modules_repaired_err(s: Seq<ModuleView>, ranges: Seq<PermissibleBounds>, c: CollectionView, n: int)
    requires
        0 <= n <= s.len(),
        modules_repaired(s.subrange(0, n), ranges, c) is Err,
    ensures
        modules_repaired(s, ranges, c) == modules_repaired(s.subrange(0, n), ranges, c),
    decreases s.len() - n,
{
    if n < s.len() {
        assert(s.subrange(0, n + 1).drop_last() =~= s.subrange(0, n));
        lemma_modules_repaired_err(s, ranges, c, n + 1);
    } else {
        assert(s.subrange(0, n) =~= s);
    }
}

proof fn lemma_variables_repaired_err(s: Seq<VariableView>, ranges: Seq<PermissibleBounds>, c: CollectionView, n: int)
    requires
        0 <= n <= s.len(),
        variables_repaired(s.subrange(0, n), ranges, c) is Err,
    ensures
        variables_repaired(s, ranges, c) == variables_repaired(s.subrange(0, n), ranges, c),
    decreases s.len() - n,
{
    if n < s.len() {
        assert(s.subrange(0, n + 1).drop_last() =~= s.subrange(0, n));
        lemma_variables_repaired_err(s, ranges, c, n + 1);
    } else {
        assert(s.subrange(0, n) =~= s);
    }
}

/// The views of a list of assignments.
pub open spec fn assignment_views(s: Seq<Assignment>) -> Seq<AssignmentView> {
    s.map_values(|a: Assignment| a@)
}

/// The views of a list of updates.
pub open spec fn update_views(s: Seq<Update>) -> Seq<UpdateView> {
    s.map_values(|u: Update| u@)
}

/// The views of a list of commands.
pub open spec fn command_views(s: Seq<Command>) -> Seq<CommandView> {
    s.map_values(|c: Command| c@)
}

/// The views of a list of modules.
pub open spec fn module_views(s: Seq<Module>) -> Seq<ModuleView> {
    s.map_values(|m: Module| m@)
}

/// The views of a list of variable declarations.
pub open spec fn variable_views(s: Seq<VariableInfo>) -> Seq<VariableView> {
    s.map_values(|v: VariableInfo| v@)
}

fn bound_at_index(ranges: &VariableRanges, i: usize) -> (b: PermissibleBounds)
    ensures
        b == bound_at(ranges.bounds@, i as int),
{
    if i < ranges.bounds.len() { ranges.bounds[i] } else { PermissibleBounds::Unknown }
}

fn repair_assignment(repairer: &Repairer, assignment: &mut Assignment, ranges: &VariableRanges, repairs: &mut RepairCollection)
    -> (r: Result<(), RepairError>)
    requires
        old(repairs)@.wf(),
    ensures
        match repaired(old(assignment)@.value, bound_at(ranges.bounds@, old(assignment)@.target.index as int), repairer.variable_ranges.bounds@, old(repairs)@) {
            Ok((v, c)) => r is Ok && final(assignment)@ == (AssignmentView { value: v, ..old(assignment)@ }) && final(repairs)@ == c && c.wf(),
            Err(e) => r == Err::<(), RepairError>(e),
        },
{
    let bounds = bound_at_index(ranges, assignment.target.index);
    repairer.repair_expression(&mut assignment.value, bounds, repairs)
}

fn repair_assignments(
    assignments: &mut Vec<Assignment>,
    ranges: &VariableRanges,
    narrowed: &VariableRanges,
    repairs: &mut RepairCollection,
) -> (r: Result<(), RepairError>)
    requires
        old(repairs)@.wf(),
    ensures
        match assignments_repaired(assignment_views(old(assignments)@), ranges.bounds@, narrowed.bounds@, old(repairs)@) {
            Ok((a, c)) => r is Ok && assignment_views(final(assignments)@) == a && final(repairs)@ == c && c.wf(),
            Err(e) => r == Err::<(), RepairError>(e),
        },
{
    let ghost orig = assignment_views(assignments@);
    let ghost c0 = repairs@;
    let repairer = Repairer::new(narrowed);
    let n = assignments.len();
    let mut i: usize = 0;
    assert(orig.subrange(0, 0) =~= Seq::<AssignmentView>::empty());
    while i < n
        invariant
            n == orig.len(),
            orig == assignment_views(old(assignments)@),
            c0 == old(repairs)@,
            repairer.variable_ranges == narrowed,
            i <= n,
            assignments@.len() == n,
            repairs@.wf(),
            forall|j: int| i <= j < n ==> #[trigger] assignments@[j]@ == orig[j],
            assignments_repaired(orig.subrange(0, i as int), ranges.bounds@, narrowed.bounds@, c0)
                == Ok::<(Seq<AssignmentView>, CollectionView), RepairError>((assignment_views(assignments@).subrange(0, i as int), repairs@)),
        decreases n - i,
    {
        let ghost before = assignments@;
        let ghost before_c = repairs@;
        assert(orig.subrange(0, i + 1).drop_last() =~= orig.subrange(0, i as int));
        let res = repair_assignment(&repairer, &mut assignments[i], ranges, repairs);
        match res {
            Ok(()) => {},
            Err(e) => {
                proof {
                    lemma_assignments_repaired_err(orig, ranges.bounds@, narrowed.bounds@, c0, i as int + 1);
                }
                return Err(e);
            },
        }
        proof {
            assert(assignment_views(assignments@).subrange(0, i + 1) =~= assignment_views(before).subrange(0, i as int).push(assignments@[i as int]@));
        }
        i += 1;
    }
    assert(orig.subrange(0, n as int) =~= orig);
    assert(assignment_views(assignments@).subrange(0, n as int) =~= assignment_views(assignments@));
    Ok(())
}

fn repair_update(update: &mut Update, ranges: &VariableRanges, narrowed: &VariableRanges, repairs: &mut RepairCollection)
    -> (r: Result<(), RepairError>)
    requires
        old(repairs)@.wf(),
    ensures
        match update_repaired(old(update)@, ranges.bounds@, narrowed.bounds@, old(repairs)@) {
            Ok((u, c)) => r is Ok && final(update)@ == u && final(repairs)@ == c && c.wf(),
            Err(e) => r == Err::<(), RepairError>(e),
        },
{
    let repairer = Repairer::new(narrowed);
    repairer.repair_expression(&mut update.probability, PermissibleBounds::Unknown, repairs)?;
    repair_assignments(&mut update.assignments, ranges, narrowed, repairs)
}

fn repair_updates(updates: &mut Vec<Update>, ranges: &VariableRanges, narrowed: &VariableRanges, repairs: &mut RepairCollection)
    -> (r: Result<(), RepairError>)
    requires
        old(repairs)@.wf(),
    ensures
        match updates_repaired(update_views(old(updates)@), ranges.bounds@, narrowed.bounds@, old(repairs)@) {
            Ok((u, c)) => r is Ok && update_views(final(updates)@) == u && final(repairs)@ == c && c.wf(),
            Err(e) => r == Err::<(), RepairError>(e),
        },
{
    let ghost orig = update_views(updates@);
    let ghost c0 = repairs@;
    let n = updates.len();
    let mut i: usize = 0;
    assert(orig.subrange(0, 0) =~= Seq::<UpdateView>::empty());
    while i < n
        invariant
            n == orig.len(),
            orig == update_views(old(updates)@),
            c0 == old(repairs)@,
            i <= n,
            updates@.len() == n,
            repairs@.wf(),
            forall|j: int| i <= j < n ==> #[trigger] updates@[j]@ == orig[j],
            updates_repaired(orig.subrange(0, i as int), ranges.bounds@, narrowed.bounds@, c0)
                == Ok::<(Seq<UpdateView>, CollectionView), RepairError>((update_views(updates@).subrange(0, i as int), repairs@)),
        decreases n - i,
    {
        let ghost before = updates@;
        let ghost before_c = repairs@;
        assert(orig.subrange(0, i + 1).drop_last() =~= orig.subrange(0, i as int));
        let res = repair_update(&mut updates[i], ranges, narrowed, repairs);
        match res {
            Ok(()) => {},
            Err(e) => {
                proof {
                    assert(update_repaired(orig[i as int], ranges.bounds@, narrowed.bounds@, before_c) == Err::<(UpdateView, CollectionView), RepairError>(e));
                    lemma_updates_repaired_err(orig, ranges.bounds@, narrowed.bounds@, c0, i as int + 1);
                }
                return Err(e);
            },
        }
        proof {
            assert(update_views(updates@).subrange(0, i + 1) =~= update_views(before).subrange(0, i as int).push(updates@[i as int]@));
        }
        i += 1;
    }
    assert(orig.subrange(0, n as int) =~= orig);
    assert(update_views(updates@).subrange(0, n as int) =~= update_views(updates@));
    Ok(())
}

fn repair_command(command: &mut Command, ranges: &VariableRanges, repairs: &mut RepairCollection) -> (r: Result<(), RepairError>)
    requires
        old(repairs)@.wf(),
    ensures
        match command_repaired(old(command)@, ranges.bounds@, old(repairs)@) {
            Ok((x, c)) => r is Ok && final(command)@ == x && final(repairs)@ == c && c.wf(),
            Err(e) => r == Err::<(), RepairError>(e),
        },
{
    let repairer = Repairer::new(ranges);
    repairer.repair_expression(&mut command.guard, PermissibleBounds::Unknown, repairs)?;
    let narrowed = narrowed_ranges(&command.guard, ranges)?;
    repair_updates(&mut command.updates, ranges, &narrowed, repairs)
}

fn repair_commands(commands: &mut Vec<Command>, ranges: &VariableRanges, repairs: &mut RepairCollection) -> (r: Result<(), RepairError>)
    requires
        old(repairs)@.wf(),
    ensures
        match commands_repaired(command_views(old(commands)@), ranges.bounds@, old(repairs)@) {
            Ok((x, c)) => r is Ok && command_views(final(commands)@) == x && final(repairs)@ == c && c.wf(),
            Err(e) => r == Err::<(), RepairError>(e),
        },
{
    let ghost orig = command_views(commands@);
    let ghost c0 = repairs@;
    let n = commands.len();
    let mut i: usize = 0;
    assert(orig.subrange(0, 0) =~= Seq::<CommandView>::empty());
    while i < n
        invariant
            n == orig.len(),
            orig == command_views(old(commands)@),
            c0 == old(repairs)@,
            i <= n,
            commands@.len() == n,
            repairs@.wf(),
            forall|j: int| i <= j < n ==> #[trigger] commands@[j]@ == orig[j],
            commands_repaired(orig.subrange(0, i as int), ranges.bounds@, c0)
                == Ok::<(Seq<CommandView>, CollectionView), RepairError>((command_views(commands@).subrange(0, i as int), repairs@)),
        decreases n - i,
    {
        let ghost before = commands@;
        let ghost before_c = repairs@;
        assert(orig.subrange(0, i + 1).drop_last() =~= orig.subrange(0, i as int));
        let res = repair_command(&mut commands[i], ranges, repairs);
        match res {
            Ok(()) => {},
            Err(e) => {
                proof {
                    assert(command_repaired(orig[i as int], ranges.bounds@, before_c) == Err::<(CommandView, CollectionView), RepairError>(e));
                    lemma_commands_repaired_err(orig, ranges.bounds@, c0, i as int + 1);
                }
                return Err(e);
            },
        }
        proof {
            assert(command_views(commands@).subrange(0, i + 1) =~= command_views(before).subrange(0, i as int).push(commands@[i as int]@));
        }
        i += 1;
    }
    assert(orig.subrange(0, n as int) =~= orig);
    assert(command_views(commands@).subrange(0, n as int) =~= command_views(commands@));
    Ok(())
}

fn repair_module(module: &mut Module, ranges: &VariableRanges, repairs: &mut RepairCollection) -> (r: Result<(), RepairError>)
    requires
        old(repairs)@.wf(),
    ensures
        match commands_repaired(old(module)@.commands, ranges.bounds@, old(repairs)@) {
            Ok((x, c)) => r is Ok && final(module)@ == (ModuleView { commands: x, ..old(module)@ }) && final(repairs)@ == c && c.wf(),
            Err(e) => r == Err::<(), RepairError>(e),
        },
{
    repair_commands(&mut module.commands, ranges, repairs)
}

fn repair_modules(modules: &mut Vec<Module>, ranges: &VariableRanges, repairs: &mut RepairCollection) -> (r: Result<(), RepairError>)
    requires
        old(repairs)@.wf(),
    ensures
        match modules_repaired(module_views(old(modules)@), ranges.bounds@, old(repairs)@) {
            Ok((x, c)) => r is Ok && module_views(final(modules)@) == x && final(repairs)@ == c && c.wf(),
            Err(e) => r == Err::<(), RepairError>(e),
        },
{
    let ghost orig = module_views(modules@);
    let ghost c0 = repairs@;
    let n = modules.len();
    let mut i: usize = 0;
    assert(orig.subrange(0, 0) =~= Seq::<ModuleView>::empty());
    while i < n
        invariant
            n == orig.len(),
            orig == module_views(old(modules)@),
            c0 == old(repairs)@,
            i <= n,
            modules@.len() == n,
            repairs@.wf(),
            forall|j: int| i <= j < n ==> #[trigger] modules@[j]@ == orig[j],
            modules_repaired(orig.subrange(0, i as int), ranges.bounds@, c0)
                == Ok::<(Seq<ModuleView>, CollectionView), RepairError>((module_views(modules@).subrange(0, i as int), repairs@)),
        decreases n - i,
    {
        let ghost before = modules@;
        let ghost before_c = repairs@;
        assert(orig.subrange(0, i + 1).drop_last() =~= orig.subrange(0, i as int));
        let res = repair_module(&mut modules[i], ranges, repairs);
        match res {
            Ok(()) => {},
            Err(e) => {
                proof {
                    lemma_modules_repaired_err(orig, ranges.bounds@, c0, i as int + 1);
                }
                return Err(e);
            },
        }
        proof {
            assert(module_views(modules@).subrange(0, i + 1) =~= module_views(before).subrange(0, i as int).push(modules@[i as int]@));
        }
        i += 1;
    }
    assert(orig.subrange(0, n as int) =~= orig);
    assert(module_views(modules@).subrange(0, n as int) =~= module_views(modules@));
    Ok(())
}

fn repair_variable(repairer: &Repairer, variable: &mut VariableInfo, bounds: PermissibleBounds, repairs: &mut RepairCollection)
    -> (r: Result<(), RepairError>)
    requires
        old(repairs)@.wf(),
    ensures
        match old(variable)@.initial_value {
            None => r is Ok && final(variable)@ == old(variable)@ && final(repairs)@ == old(repairs)@,
            Some(init) => match repaired(init, bounds, repairer.variable_ranges.bounds@, old(repairs)@) {
                Ok((x, c)) => r is Ok && final(variable)@ == (VariableView { initial_value: Some(x), ..old(variable)@ })
                    && final(repairs)@ == c && c.wf(),
                Err(e) => r == Err::<(), RepairError>(e),
            },
        },
{
    match &mut variable.initial_value {
        Some(initial_value) => repairer.repair_expression(initial_value, bounds, repairs),
        None => Ok(()),
    }
}

fn repair_variables(variables: &mut Vec<VariableInfo>, ranges: &VariableRanges, repairs: &mut RepairCollection) -> (r: Result<(), RepairError>)
    requires
        old(repairs)@.wf(),
    ensures
        match variables_repaired(variable_views(old(variables)@), ranges.bounds@, old(repairs)@) {
            Ok((x, c)) => r is Ok && variable_views(final(variables)@) == x && final(repairs)@ == c && c.wf(),
            Err(e) => r == Err::<(), RepairError>(e),
        },
{
    let ghost orig = variable_views(variables@);
    let ghost c0 = repairs@;
    let repairer = Repairer::new(ranges);
    let n = variables.len();
    let mut i: usize = 0;
    assert(orig.subrange(0, 0) =~= Seq::<VariableView>::empty());
    while i < n
        invariant
            n == orig.len(),
            orig == variable_views(old(variables)@),
            c0 == old(repairs)@,
            repairer.variable_ranges == ranges,
            i <= n,
            variables@.len() == n,
            repairs@.wf(),
            forall|j: int| i <= j < n ==> #[trigger] variables@[j]@ == orig[j],
            variables_repaired(orig.subrange(0, i as int), ranges.bounds@, c0)
                == Ok::<(Seq<VariableView>, CollectionView), RepairError>((variable_views(variables@).subrange(0, i as int), repairs@)),
        decreases n - i,
    {
        let ghost before = variables@;
        let ghost before_c = repairs@;
        assert(orig.subrange(0, i + 1).drop_last() =~= orig.subrange(0, i as int));
        assert(orig.subrange(0, i + 1).len() - 1 == i);
        let bounds = bound_at_index(ranges, i);
        let res = repair_variable(&repairer, &mut variables[i], bounds, repairs);
        match res {
            Ok(()) => {},
            Err(e) => {
                proof {
                    lemma_variables_repaired_err(orig, ranges.bounds@, c0, i as int + 1);
                }
                return Err(e);
            },
        }
        proof {
            assert(variable_views(variables@).subrange(0, i + 1) =~= variable_views(before).subrange(0, i as int).push(variables@[i as int]@));
        }
        i += 1;
    }
    assert(orig.subrange(0, n as int) =~= orig);
    assert(variable_views(variables@).subrange(0, n as int) =~= variable_views(variables@));
    Ok(())
}

/// Replaces every `repair(...)` call of the model by repair variables and records the
/// repairs, as [`wired`] says: first in the initial values of the variables (with the
/// declared bounds of each), then in each command (the guard first, then the updates,
/// under the ranges that the guard narrows).
pub fn wire_up_repairs(model: &mut Model, variable_ranges: &VariableRanges) -> (r: Result<RepairCollection, RepairError>)
    requires
        variable_ranges.bounds@.len() == old(model)@.variables.len(),
        targets_below(old(model)@, old(model)@.variables.len()),
    ensures
        match wired(old(model)@, variable_ranges.bounds@, empty_collection(old(model)@.variables.len())) {
            Ok((m, c)) => r matches Ok(x) && final(model)@ == m && x@ == c,
            Err(e) => r matches Err(x) && x == e,
        },
{
    let mut repairs = RepairCollection::new(model.variable_manager.variables.len());
    proof {
        let e = empty_collection(old(model)@.variables.len());
        assert(repairs@.repair_variables =~= e.repair_variables);
        assert(repairs@.repairs =~= e.repairs);
        assert(repairs@.names =~= e.names);
    }
    repair_variables(&mut model.variable_manager.variables, variable_ranges, &mut repairs)?;
    repair_modules(&mut model.modules, variable_ranges, &mut repairs)?;
    Ok(repairs)
}

/// Whether every assignment of the model targets one of its variables.
pub fn assignment_targets_valid(model: &Model) -> (b: bool)
    ensures
        b == targets_below(model@, model@.variables.len()),
{
    let count = model.variable_manager.variables.len();
    let mut i: usize = 0;
    while i < model.modules.len()
        invariant
            count == model@.variables.len(),
            i <= model.modules@.len(),
            forall|i2: int, j: int, k: int, l: int|
                0 <= i2 < i && 0 <= j < model@.modules[i2].commands.len()
                    && 0 <= k < model@.modules[i2].commands[j].updates.len()
                    && 0 <= l < model@.modules[i2].commands[j].updates[k].assignments.len()
                    ==> #[trigger] model@.modules[i2].commands[j].updates[k].assignments[l].target.index < count,
        decreases model.modules.len() - i,
    {
        let commands = &model.modules[i].commands;
        let mut j: usize = 0;
        while j < commands.len()
            invariant
                count == model@.variables.len(),
                i < model.modules@.len(),
                commands@ == model.modules@[i as int].commands@,
                j <= commands@.len(),
                forall|i2: int, j2: int, k: int, l: int|
                    0 <= i2 < i && 0 <= j2 < model@.modules[i2].commands.len()
                        && 0 <= k < model@.modules[i2].commands[j2].updates.len()
                        && 0 <= l < model@.modules[i2].commands[j2].updates[k].assignments.len()
                        ==> #[trigger] model@.modules[i2].commands[j2].updates[k].assignments[l].target.index < count,
                forall|j2: int, k: int, l: int|
                    0 <= j2 < j && 0 <= k < model@.modules[i as int].commands[j2].updates.len()
                        && 0 <= l < model@.modules[i as int].commands[j2].updates[k].assignments.len()
                        ==> #[trigger] model@.modules[i as int].commands[j2].updates[k].assignments[l].target.index < count,
            decreases commands.len() - j,
        {
            let updates = &commands[j].updates;
            let mut k: usize = 0;
            while k < updates.len()
                invariant
                    count == model@.variables.len(),
                    i < model.modules@.len(),
                    j < commands@.len(),
                    commands@ == model.modules@[i as int].commands@,
                    updates@ == commands@[j as int].updates@,
                    k <= updates@.len(),
                    forall|i2: int, j2: int, k2: int, l: int|
                        0 <= i2 < i && 0 <= j2 < model@.modules[i2].commands.len()
                            && 0 <= k2 < model@.modules[i2].commands[j2].updates.len()
                            && 0 <= l < model@.modules[i2].commands[j2].updates[k2].assignments.len()
                            ==> #[trigger] model@.modules[i2].commands[j2].updates[k2].assignments[l].target.index < count,
                    forall|j2: int, k2: int, l: int|
                        0 <= j2 < j && 0 <= k2 < model@.modules[i as int].commands[j2].updates.len()
                            && 0 <= l < model@.modules[i as int].commands[j2].updates[k2].assignments.len()
                            ==> #[trigger] model@.modules[i as int].commands[j2].updates[k2].assignments[l].target.index < count,
                    forall|k2: int, l: int|
                        0 <= k2 < k && 0 <= l < model@.modules[i as int].commands[j as int].updates[k2].assignments.len()
                            ==> #[trigger] model@.modules[i as int].commands[j as int].updates[k2].assignments[l].target.index < count,
                decreases updates.len() - k,
            {
                let assignments = &updates[k].assignments;
                let mut l: usize = 0;
                while l < assignments.len()
                    invariant
                        count == model@.variables.len(),
                        i < model.modules@.len(),
                        j < commands@.len(),
                        k < updates@.len(),
                        commands@ == model.modules@[i as int].commands@,
                        updates@ == commands@[j as int].updates@,
                        assignments@ == updates@[k as int].assignments@,
                        l <= assignments@.len(),
                        forall|l2: int| 0 <= l2 < l
                            ==> #[trigger] model@.modules[i as int].commands[j as int].updates[k as int].assignments[l2].target.index < count,
                    decreases assignments.len() - l,
                {
                    if assignments[l].target.index >= count {
                        proof {
                            let m = model@;
                            assert(m.modules[i as int] == model.modules@[i as int]@);
                            assert(m.modules[i as int].commands[j as int] == commands@[j as int]@);
                            assert(m.modules[i as int].commands[j as int].updates[k as int] == updates@[k as int]@);
                            assert(m.modules[i as int].commands[j as int].updates[k as int].assignments[l as int] == assignments@[l as int]@);
                            assert(m.modules[i as int].commands[j as int].updates[k as int].assignments[l as int].target.index >= count);
                            assert(!targets_below(m, m.variables.len()));
                        }
                        return false;
                    }
                    l += 1;
                }
                k += 1;
            }
            j += 1;
        }
        i += 1;
    }
    true
}

/// The ranges under a guard, as [`guard_ranges`] says.
fn narrowed_ranges(guard: &crate::prism::expression::Expression, ranges: &VariableRanges) -> (r: Result<VariableRanges, RepairError>)
    ensures
        match guard_ranges(guard@, ranges.bounds@) {
            Ok(b) => r matches Ok(x) && x.bounds@ == b,
            Err(e) => r == Err::<VariableRanges, RepairError>(e),
        },
{
    let constraints = GuardConstraints::from_expression(guard);
    let ghost cs = guard_constraints(guard@);
    let ghost orig = ranges.bounds@;
    let ghost entries = constraints.variables@;
    let r = constraints.apply_to_variable_ranges(ranges);
    proof {
        assert forall|v: usize| unusable_bound(guard@, orig, v) implies
            exists|k: int| 0 <= k < entries.len() && entries[k].0 == v && !#[trigger] applicable(orig, entries[k].0, entries[k].1) by {
            let k = choose|k: int| 0 <= k < entries.len() && #[trigger] entries[k].0 == v;
            assert(entries[k].1 == bounds_of(constraints_of(cs, entries[k].0)));
        }
        assert forall|k: int| 0 <= k < entries.len() && !#[trigger] applicable(orig, entries[k].0, entries[k].1)
            implies unusable_bound(guard@, orig, entries[k].0) by {
            assert(entries[k].1 == bounds_of(constraints_of(cs, entries[k].0)));
        }
    }
    match r {
        Ok(x) => {
            let n = x.bounds.len();
            proof {
                assert(!exists|v: usize| unusable_bound(guard@, orig, v)) by {
                    if exists|v: usize| unusable_bound(guard@, orig, v) {
                        let v = choose|v: usize| unusable_bound(guard@, orig, v);
                        let k = choose|k: int| 0 <= k < entries.len() && entries[k].0 == v && !#[trigger] applicable(orig, entries[k].0, entries[k].1);
                    }
                }
                let expected = guard_ranges(guard@, orig)->Ok_0;
                assert forall|i: int| 0 <= i < x.bounds@.len() implies x.bounds@[i] == expected[i] by {
                    let u = i as usize;
                    assert(u as int == i);
                    if constrains(cs, u) {
                        let k = choose|k: int| 0 <= k < entries.len() && #[trigger] entries[k].0 == u;
                        assert(entries[k].1 == bounds_of(constraints_of(cs, entries[k].0)));
                        assert(entries[k].0 == i);
                    } else {
                        if exists|k: int| 0 <= k < entries.len() && #[trigger] entries[k].0 == i {
                            let k = choose|k: int| 0 <= k < entries.len() && #[trigger] entries[k].0 == i;
                            assert(entries[k].1 == bounds_of(constraints_of(cs, entries[k].0)));
                            assert(constrains(cs, entries[k].0));
                        }
                    }
                }
                assert(x.bounds@ =~= expected);
            }
            Ok(x)
        },
        Err(e) => {
            proof {
                let k = choose|k: int| 0 <= k < entries.len()
                    && !#[trigger] applicable(orig, entries[k].0, entries[k].1)
                    && e == (RepairError::VariableWithoutIntegerBounds { variable: VariableReference { index: entries[k].0 } })
                    && forall|j: int| 0 <= j < entries.len()
                        && !#[trigger] applicable(orig, entries[j].0, entries[j].1)
                        ==> entries[k].0 <= entries[j].0;
                let v = entries[k].0;
                assert(unusable_bound(guard@, orig, v));
                assert forall|w: usize| unusable_bound(guard@, orig, w) implies v <= w by {
                    let j = choose|j: int| 0 <= j < entries.len() && entries[j].0 == w && !#[trigger] applicable(orig, entries[j].0, entries[j].1);
                }
                let chosen = choose|u: usize| unusable_bound(guard@, orig, u) && forall|w: usize| unusable_bound(guard@, orig, w) ==> u <= w;
                assert(chosen <= v && v <= chosen);
            }
            Err(e)
        },
    }
}

} // verus!
