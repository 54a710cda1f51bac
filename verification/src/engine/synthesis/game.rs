//! The stochastic game in which the synthesised module (player `Repair`) chooses an action and
//! the values of its variables, and the other modules (player `Environment`) carry it out.
use vstd::prelude::*;
use crate::engine::synthesis::domains::{
    all_valuations, extended, domain_of, domain_views, literal_expr, literal_text, valuation_views,
    valuations, variable_domain, DomainError, Literal,
};
use crate::engine::synthesis::interface::{
    action_views, find_action, interface_of, lemma_interface_covers, lemma_position_of_name,
    no_span, position_of_name, ActionAndGuard, ModuleInterface,
};
use crate::pipeline::tasks::RepairModule;
use crate::prism::expression::{ExprView, Expression, Identifier, Span, VariableReference};
use crate::prism::model::{
    Assignment, AssignmentView, Attributes, Command, CommandView, Model, ModelView, Module,
    ModuleView, RangeView, Update, UpdateView, VariableInfo, VariableRange, VariableScope,
    VariableView,
};
use crate::text::{append_str, str_eq_string, string_from};
use crate::prism::copies::clone_commands;

verus! {

/// Why no game can be built, or no controller read back.
#[derive(Clone, Copy, PartialEq, Eq, Structural, Debug)]
pub enum SynthesisError {
    /// The model already has a module with the name of the module to add.
    ModuleNameTaken,
    /// The model already has a variable named `action_choice`.
    ChoiceVariableTaken,
    /// The model already has a variable named `phase`.
    PhaseVariableTaken,
    /// The variable that the module writes or reads has no finite list of values.
    Domain { variable: usize, kind: DomainError },
    /// The variable that the module writes or reads has no value at all.
    EmptyDomain { variable: usize },
    /// The transition of the strategy starts in a state that the states file does not list.
    StateOutOfRange { transition: usize },
    /// The state where the transition starts has no integer `phase`.
    MissingPhase { transition: usize },
    /// The state where the transition starts has a valuation of the visible variables that the
    /// collector does not know.
    UnknownValuation { transition: usize },
    /// The transition names no action.
    MissingAction { transition: usize },
    /// The first action taken for the valuation is no choosing action of the game.
    UnknownChooseAction { entry: usize },
}

/// The bits of the double `1.0`.
pub open spec fn float_one() -> u64 {
    4607182418800017408
}

pub open spec fn var_expr(v: VariableReference) -> ExprView {
    ExprView::VarOrConst(v, no_span())
}

pub open spec fn int_expr(i: i64) -> ExprView {
    ExprView::Int(i, no_span())
}

pub open spec fn eq_expr(a: ExprView, b: ExprView) -> ExprView {
    ExprView::Equals(Box::new(a), Box::new(b), no_span())
}

pub open spec fn and_expr(a: ExprView, b: ExprView) -> ExprView {
    ExprView::Conjunction(Box::new(a), Box::new(b), no_span())
}

pub open spec fn assignment_view(target: VariableReference, value: ExprView) -> AssignmentView {
    AssignmentView { target, value, span: no_span() }
}

/// `_v1_v2...` for the values of a valuation.
pub open spec fn values_suffix(val: Seq<Literal>, n: nat) -> Seq<char>
    decreases n,
{
    if n == 0 || n > val.len() {
        Seq::empty()
    } else {
        values_suffix(val, (n - 1) as nat) + "_"@ + literal_text(val[n - 1])
    }
}

/// The action by which the synthesised module chooses `action` with the valuation:
/// `Choose_<action>_<value>...`.
pub open spec fn choose_name(action: Seq<char>, val: Seq<Literal>) -> Seq<char> {
    "Choose_"@ + action + values_suffix(val, val.len())
}

/// The assignments of the valuation to the variables.
pub open spec fn value_assignments(vars: Seq<VariableReference>, val: Seq<Literal>) -> Seq<AssignmentView> {
    Seq::new(vars.len(), |j: int| assignment_view(vars[j], literal_expr(val[j])))
}

/// The command of the synthesised module that, in phase 0 and where the action is allowed,
/// picks the action (number `a`) and the valuation, and moves to phase 1.
pub open spec fn choose_command(
    action: (Seq<char>, ExprView),
    a: int,
    vars: Seq<VariableReference>,
    val: Seq<Literal>,
    phase: VariableReference,
    choice: VariableReference,
) -> CommandView {
    CommandView {
        action: Some((choose_name(action.0, val), no_span())),
        guard: and_expr(eq_expr(var_expr(phase), int_expr(0)), action.1),
        updates: seq![UpdateView {
            probability: ExprView::Float(float_one(), no_span()),
            assignments: seq![assignment_view(phase, int_expr(1)), assignment_view(choice, int_expr(a as i64))]
                + value_assignments(vars, val),
            span: no_span(),
        }],
        span: no_span(),
    }
}

/// The choosing commands for the first `n` actions, each with every valuation.
pub open spec fn choose_commands(
    actions: Seq<(Seq<char>, ExprView)>,
    vars: Seq<VariableReference>,
    vals: Seq<Seq<Literal>>,
    phase: VariableReference,
    choice: VariableReference,
    n: nat,
) -> Seq<CommandView>
    decreases n,
{
    if n == 0 || n > actions.len() {
        Seq::empty()
    } else {
        choose_commands(actions, vars, vals, phase, choice, (n - 1) as nat)
            + vals.map_values(|val: Seq<Literal>| choose_command(actions[n - 1], n - 1, vars, val, phase, choice))
    }
}

/// The actions of player `Repair`: `[<choose name>]` for each choosing command.
pub open spec fn repair_controlled(actions: Seq<(Seq<char>, ExprView)>, vals: Seq<Seq<Literal>>, n: nat) -> Seq<Seq<char>>
    decreases n,
{
    if n == 0 || n > actions.len() {
        Seq::empty()
    } else {
        repair_controlled(actions, vals, (n - 1) as nat)
            + vals.map_values(|val: Seq<Literal>| "["@ + choose_name(actions[n - 1].0, val) + "]"@)
    }
}

/// What each choosing action stands for: its name, the action, and the assignments.
pub open spec fn choose_info(
    actions: Seq<(Seq<char>, ExprView)>,
    vars: Seq<VariableReference>,
    vals: Seq<Seq<Literal>>,
    n: nat,
) -> Seq<(Seq<char>, Seq<char>, Seq<(VariableReference, Literal)>)>
    decreases n,
{
    if n == 0 || n > actions.len() {
        Seq::empty()
    } else {
        choose_info(actions, vars, vals, (n - 1) as nat)
            + vals.map_values(|val: Seq<Literal>| (
                choose_name(actions[n - 1].0, val),
                actions[n - 1].0,
                Seq::new(vars.len(), |j: int| (vars[j], val[j])),
            ))
    }
}

/// The place of the action in the interface; every action of another module has one.
pub open spec fn action_index(actions: Seq<(Seq<char>, ExprView)>, name: Seq<char>) -> int {
    match position_of_name(actions, name) {
        Some(p) => p,
        None => 0,
    }
}

/// A command of another module, allowed only in phase 1 when its action was chosen, and
/// returning to phase 0.
pub open spec fn restricted_command(
    c: CommandView,
    actions: Seq<(Seq<char>, ExprView)>,
    phase: VariableReference,
    choice: VariableReference,
) -> CommandView {
    match c.action {
        None => c,
        Some((name, _)) => CommandView {
            guard: and_expr(
                and_expr(eq_expr(var_expr(phase), int_expr(1)), eq_expr(var_expr(choice), int_expr(action_index(actions, name) as i64))),
                c.guard,
            ),
            updates: c.updates.map_values(|u: UpdateView| UpdateView {
                assignments: u.assignments.push(assignment_view(phase, int_expr(0))),
                ..u
            }),
            ..c
        },
    }
}

/// The module that the synthesis adds to the game when it writes a new module.
pub open spec fn added_module() -> ModuleView {
    ModuleView { name: ("generated_repair_module"@, no_span()), commands: Seq::empty(), attributes: Seq::empty(), span: no_span() }
}

/// The index of the module of the game that the synthesis writes.
pub open spec fn repair_index(ms: Seq<ModuleView>, module: RepairModule) -> int {
    match module {
        RepairModule::NewModule => ms.len() as int,
        RepairModule::ExistingModule { index } => index as int,
    }
}

/// The modules of the game: the synthesised one holds only the choosing commands; the
/// commands with an action of every other module are restricted.
pub open spec fn game_modules(
    ms: Seq<ModuleView>,
    module: RepairModule,
    choosing: Seq<CommandView>,
    actions: Seq<(Seq<char>, ExprView)>,
    phase: VariableReference,
    choice: VariableReference,
) -> Seq<ModuleView> {
    let all = match module {
        RepairModule::NewModule => ms.push(added_module()),
        RepairModule::ExistingModule { .. } => ms,
    };
    Seq::new(all.len(), |m: int|
        if m == repair_index(ms, module) {
            ModuleView { commands: choosing, ..all[m] }
        } else {
            ModuleView {
                commands: all[m].commands.map_values(|c: CommandView| restricted_command(c, actions, phase, choice)),
                ..all[m]
            }
        })
}

/// The names of player `Environment` for the first `n` modules but the synthesised one: each
/// module's name, then `[<action>]` for each action not listed yet.
pub open spec fn environment_controlled(ms: Seq<ModuleView>, skip: int, n: nat) -> Seq<Seq<char>>
    decreases n,
{
    if n == 0 || n > ms.len() {
        Seq::empty()
    } else {
        let before = environment_controlled(ms, skip, (n - 1) as nat);
        if n - 1 == skip {
            before
        } else {
            listed_actions(before.push(ms[n - 1].name.0), ms[n - 1].commands, ms[n - 1].commands.len())
        }
    }
}

/// The list with `[<action>]` added for each of the first `n` commands whose action is not
/// listed yet.
pub open spec fn listed_actions(acc: Seq<Seq<char>>, cmds: Seq<CommandView>, n: nat) -> Seq<Seq<char>>
    decreases n,
{
    if n == 0 || n > cmds.len() {
        acc
    } else {
        let before = listed_actions(acc, cmds, (n - 1) as nat);
        match cmds[n - 1].action {
            Some((name, _)) => if before.contains("["@ + name + "]"@) {
                before
            } else {
                before.push("["@ + name + "]"@)
            },
            None => before,
        }
    }
}

/// A global variable that the game adds.
pub open spec fn game_variable(name: Seq<char>, max: i64) -> VariableView {
    VariableView {
        name: (name, no_span()),
        range: RangeView::BoundedInt { min: int_expr(0), max: int_expr(max), span: no_span() },
        is_constant: false,
        scope: VariableScope::GlobalVariable,
        initial_value: None,
        attributes: Seq::empty(),
        span: no_span(),
    }
}

pub open spec fn has_variable_named(vs: Seq<VariableView>, name: Seq<char>) -> bool {
    exists|i: int| 0 <= i < vs.len() && #[trigger] vs[i].name.0 == name
}

pub open spec fn has_module_named(ms: Seq<ModuleView>, name: Seq<char>) -> bool {
    exists|i: int| 0 <= i < ms.len() && #[trigger] ms[i].name.0 == name
}

/// The first variable of the list whose domain has an error.
pub open spec fn domain_error(vs: Seq<VariableView>, vars: Seq<VariableReference>, n: nat)
    -> Option<SynthesisError>
    decreases n,
{
    if n == 0 || n > vars.len() {
        None
    } else {
        match domain_error(vs, vars, (n - 1) as nat) {
            Some(e) => Some(e),
            None => match domain_of(vs[vars[n - 1].index as int].range) {
                Err(kind) => Some(SynthesisError::Domain { variable: vars[n - 1].index, kind }),
                Ok(d) => None,
            },
        }
    }
}

/// The first variable of the list with an empty domain.
pub open spec fn empty_domain(vs: Seq<VariableView>, vars: Seq<VariableReference>, n: nat) -> Option<SynthesisError>
    decreases n,
{
    if n == 0 || n > vars.len() {
        None
    } else {
        match empty_domain(vs, vars, (n - 1) as nat) {
            Some(e) => Some(e),
            None => match domain_of(vs[vars[n - 1].index as int].range) {
                Ok(d) => if d.len() == 0 { Some(SynthesisError::EmptyDomain { variable: vars[n - 1].index }) } else { None },
                Err(_) => None,
            },
        }
    }
}

/// The domains of the variables of the list, where none has an error.
pub open spec fn domains_of(vs: Seq<VariableView>, vars: Seq<VariableReference>) -> Seq<Seq<Literal>> {
    Seq::new(vars.len(), |j: int| domain_of(vs[vars[j].index as int].range)->Ok_0)
}

/// Whether every variable of the list is one of the model.
pub open spec fn references_within(vars: Seq<VariableReference>, n: nat) -> bool {
    forall|j: int| 0 <= j < vars.len() ==> (#[trigger] vars[j]).index < n
}

/// The game and the lists of the two players, as [`SynthesisGame::build`] makes them, or the
/// error that stops it.
pub open spec fn game_of(m: ModelView, module: RepairModule)
    -> Result<(ModelView, Seq<Seq<char>>, Seq<Seq<char>>, Seq<(Seq<char>, Seq<char>, Seq<(VariableReference, Literal)>)>), SynthesisError>
{
    let (visible, manip, actions) = interface_of(m, module);
    let n = m.variables.len();
    let choice = VariableReference { index: n as usize };
    let phase = VariableReference { index: (n + 1) as usize };
    if module is NewModule && has_module_named(m.modules, "generated_repair_module"@) {
        Err(SynthesisError::ModuleNameTaken)
    } else if has_variable_named(m.variables, "action_choice"@) {
        Err(SynthesisError::ChoiceVariableTaken)
    } else if has_variable_named(m.variables, "phase"@) {
        Err(SynthesisError::PhaseVariableTaken)
    } else {
        match domain_error(m.variables, manip, manip.len()) {
            Some(e) => Err(e),
            None => match (if actions.len() > 0 { empty_domain(m.variables, manip, manip.len()) } else { None }) {
                Some(e) => Err(e),
                None => {
                    let vals = valuations(domains_of(m.variables, manip), 0);
                    let choosing = choose_commands(actions, manip, vals, phase, choice, actions.len());
                    Ok((
                        ModelView {
                            variables: m.variables
                                .push(game_variable("action_choice"@, actions.len() as i64))
                                .push(game_variable("phase"@, 1)),
                            modules: game_modules(m.modules, module, choosing, actions, phase, choice),
                            ..m
                        },
                        repair_controlled(actions, vals, actions.len()),
                        environment_controlled(m.modules, repair_index(m.modules, module), m.modules.len()),
                        choose_info(actions, manip, vals, actions.len()),
                    ))
                },
            },
        }
    }
}

/// The views of a list of strings.
pub open spec fn string_views(v: Seq<String>) -> Seq<Seq<char>> {
    v.map_values(|s: String| s@)
}

/// What a choosing action stands for: the action it picks and the values it writes.
pub struct ChooseAction {
    pub name: String,
    pub action: String,
    pub assignments: Vec<(VariableReference, Literal)>,
}

impl View for ChooseAction {
    type V = (Seq<char>, Seq<char>, Seq<(VariableReference, Literal)>);

    open spec fn view(&self) -> (Seq<char>, Seq<char>, Seq<(VariableReference, Literal)>) {
        (self.name@, self.action@, self.assignments@)
    }
}

/// The game that `prism-games` solves, with what is needed to read its strategy back.
pub struct SynthesisGame {
    pub interface: ModuleInterface,
    pub game: Model,
    pub repair_controlled: Vec<String>,
    pub environment_controlled: Vec<String>,
    pub choose_actions: Vec<ChooseAction>,
}

/// The name of a choosing action, as [`choose_name`] says.
fn choose_name_chars(action: &String, val: &Vec<Literal>) -> (r: Vec<char>)
    ensures
        r@ == choose_name(action@, val@),
{
    let mut out: Vec<char> = Vec::new();
    append_str(&mut out, "Choose_");
    append_str(&mut out, action.as_str());
    let mut i: usize = 0;
    while i < val.len()
        invariant
            i <= val@.len(),
            out@ == "Choose_"@ + action@ + values_suffix(val@, i as nat),
        decreases val.len() - i,
    {
        append_str(&mut out, "_");
        val[i].append_text(&mut out);
        assert(out@ =~= "Choose_"@ + action@ + values_suffix(val@, (i + 1) as nat));
        i += 1;
    }
    out
}

pub(crate) fn var_expression(v: VariableReference) -> (e: Expression)
    ensures
        e@ == var_expr(v),
{
    Expression::VarOrConst(v, Span { start: 0, end: 0 })
}

pub(crate) fn int_expression(i: i64) -> (e: Expression)
    ensures
        e@ == int_expr(i),
{
    Expression::Int(i, Span { start: 0, end: 0 })
}

pub(crate) fn eq_expression(a: Expression, b: Expression) -> (e: Expression)
    ensures
        e@ == eq_expr(a@, b@),
{
    Expression::Equals(Box::new(a), Box::new(b), Span { start: 0, end: 0 })
}

pub(crate) fn and_expression(a: Expression, b: Expression) -> (e: Expression)
    ensures
        e@ == and_expr(a@, b@),
{
    Expression::Conjunction(Box::new(a), Box::new(b), Span { start: 0, end: 0 })
}

pub(crate) fn make_assignment(target: VariableReference, value: Expression) -> (r: Assignment)
    ensures
        r@ == assignment_view(target, value@),
{
    Assignment { target, value, span: Span { start: 0, end: 0 } }
}

/// The choosing command for action number `a` and the valuation.
fn make_choose_command(
    action: &ActionAndGuard,
    a: usize,
    vars: &Vec<VariableReference>,
    val: &Vec<Literal>,
    phase: VariableReference,
    choice: VariableReference,
) -> (r: Command)
    requires
        vars@.len() == val@.len(),
    ensures
        r@ == choose_command(action@, a as int, vars@, val@, phase, choice),
{
    let name = choose_name_chars(&action.name, val);
    let guard = and_expression(eq_expression(var_expression(phase), int_expression(0)), action.guard.clone());
    let mut assignments: Vec<Assignment> = Vec::new();
    assignments.push(make_assignment(phase, int_expression(1)));
    assignments.push(make_assignment(choice, int_expression(a as i64)));
    let mut j: usize = 0;
    while j < vars.len()
        invariant
            j <= vars@.len(),
            vars@.len() == val@.len(),
            assignments@.map_values(|x: Assignment| x@)
                == seq![assignment_view(phase, int_expr(1)), assignment_view(choice, int_expr(a as i64))]
                    + value_assignments(vars@, val@).subrange(0, j as int),
        decreases vars.len() - j,
    {
        let ghost before = assignments@.map_values(|x: Assignment| x@);
        let x = make_assignment(vars[j], val[j].to_expression());
        assert(x@ == value_assignments(vars@, val@)[j as int]);
        assignments.push(x);
        assert(assignments@.map_values(|x: Assignment| x@) =~= before.push(x@));
        assert(value_assignments(vars@, val@).subrange(0, j + 1)
            =~= value_assignments(vars@, val@).subrange(0, j as int).push(value_assignments(vars@, val@)[j as int]));
        assert(assignments@.map_values(|x: Assignment| x@)
            =~= seq![assignment_view(phase, int_expr(1)), assignment_view(choice, int_expr(a as i64))]
                + value_assignments(vars@, val@).subrange(0, j + 1));
        j += 1;
    }
    assert(value_assignments(vars@, val@).subrange(0, vars@.len() as int) =~= value_assignments(vars@, val@));
    let update = Update {
        probability: Expression::Float(4607182418800017408, Span { start: 0, end: 0 }),
        assignments,
        span: Span { start: 0, end: 0 },
    };
    let mut updates: Vec<Update> = Vec::new();
    updates.push(update);
    let r = Command {
        action: Some(Identifier { name: string_from(&name), span: Span { start: 0, end: 0 } }),
        guard,
        updates,
        span: Span { start: 0, end: 0 },
    };
    assert(r@.updates =~= choose_command(action@, a as int, vars@, val@, phase, choice).updates);
    r
}

/// A command of another module restricted as [`restricted_command`] says.
fn make_restricted(c: &Command, actions: &Vec<ActionAndGuard>, phase: VariableReference, choice: VariableReference) -> (r: Command)
    ensures
        r@ == restricted_command(c@, action_views(actions@), phase, choice),
{
    let copy = c.clone();
    match &c.action {
        None => copy,
        Some(a) => {
            let index: usize = match find_action(actions, &a.name) {
                Some(p) => p,
                None => 0,
            };
            let guard = and_expression(
                and_expression(
                    eq_expression(var_expression(phase), int_expression(1)),
                    eq_expression(var_expression(choice), int_expression(index as i64)),
                ),
                copy.guard,
            );
            let mut updates: Vec<Update> = Vec::new();
            let old_updates = copy.updates;
            let mut i: usize = 0;
            while i < old_updates.len()
                invariant
                    i <= old_updates@.len(),
                    updates@.len() == i,
                    forall|k: int| 0 <= k < i ==> #[trigger] updates@[k]@ == (UpdateView {
                        assignments: old_updates@[k]@.assignments.push(assignment_view(phase, int_expr(0))),
                        ..old_updates@[k]@
                    }),
                decreases old_updates.len() - i,
            {
                let mut u = old_updates[i].clone();
                u.assignments.push(make_assignment(phase, int_expression(0)));
                assert(u@.assignments =~= old_updates@[i as int]@.assignments.push(assignment_view(phase, int_expr(0))));
                updates.push(u);
                i += 1;
            }
            let r = Command { action: copy.action, guard, updates, span: copy.span };
            assert(r@.updates =~= restricted_command(c@, action_views(actions@), phase, choice).updates);
            r
        },
    }
}

/// Whether the list holds this text.
fn holds_text(list: &Vec<String>, text: &Vec<char>) -> (r: bool)
    ensures
        r == string_views(list@).contains(text@),
{
    let t = string_from(text);
    let mut i: usize = 0;
    while i < list.len()
        invariant
            i <= list@.len(),
            t@ == text@,
            forall|k: int| 0 <= k < i ==> #[trigger] string_views(list@)[k] != text@,
        decreases list.len() - i,
    {
        if str_eq_string(t.as_str(), &list[i]) {
            assert(string_views(list@)[i as int] == text@);
            return true;
        }
        i += 1;
    }
    false
}

/// Whether some variable has this name.
fn variable_named(model: &Model, name: &str) -> (r: bool)
    ensures
        r == has_variable_named(model@.variables, name@),
{
    let mut i: usize = 0;
    while i < model.variable_manager.variables.len()
        invariant
            i <= model@.variables.len(),
            forall|k: int| 0 <= k < i ==> #[trigger] model@.variables[k].name.0 != name@,
        decreases model.variable_manager.variables.len() - i,
    {
        if str_eq_string(name, &model.variable_manager.variables[i].name.name) {
            assert(model@.variables[i as int].name.0 == name@);
            return true;
        }
        i += 1;
    }
    false
}

/// Whether some module has this name.
pub(crate) fn module_named(model: &Model, name: &str) -> (r: bool)
    ensures
        r == has_module_named(model@.modules, name@),
{
    let mut i: usize = 0;
    while i < model.modules.len()
        invariant
            i <= model@.modules.len(),
            forall|k: int| 0 <= k < i ==> #[trigger] model@.modules[k].name.0 != name@,
        decreases model.modules.len() - i,
    {
        if str_eq_string(name, &model.modules[i].name.name) {
            assert(model@.modules[i as int].name.0 == name@);
            return true;
        }
        i += 1;
    }
    false
}

/// Every reference that [`indices_where`] lists lies below its bound.
pub proof fn lemma_indices_within(n: nat, p: spec_fn(int) -> bool)
    ensures
        references_within(crate::engine::synthesis::interface::indices_where(n, p), n),
    decreases n,
{
    if n > 0 {
        lemma_indices_within((n - 1) as nat, p);
    }
}

/// The views of the choosing actions.
pub open spec fn choose_views(v: Seq<ChooseAction>) -> Seq<(Seq<char>, Seq<char>, Seq<(VariableReference, Literal)>)> {
    v.map_values(|c: ChooseAction| c@)
}

/// The views of a list of commands.
pub open spec fn command_views(v: Seq<Command>) -> Seq<CommandView> {
    v.map_values(|c: Command| c@)
}

/// The choosing commands, the names of player `Repair`, and what each choosing action stands
/// for, for every action and every valuation.
fn choosing_parts(
    actions: &Vec<ActionAndGuard>,
    vars: &Vec<VariableReference>,
    vals: &Vec<Vec<Literal>>,
    phase: VariableReference,
    choice: VariableReference,
) -> (r: (Vec<Command>, Vec<String>, Vec<ChooseAction>))
    requires
        forall|k: int| 0 <= k < vals@.len() ==> (#[trigger] vals@[k])@.len() == vars@.len(),
    ensures
        command_views(r.0@) == choose_commands(action_views(actions@), vars@, valuation_views(vals@), phase, choice, actions@.len()),
        string_views(r.1@) == repair_controlled(action_views(actions@), valuation_views(vals@), actions@.len()),
        choose_views(r.2@) == choose_info(action_views(actions@), vars@, valuation_views(vals@), actions@.len()),
{
    let ghost av = action_views(actions@);
    let ghost vv = valuation_views(vals@);
    let mut cmds: Vec<Command> = Vec::new();
    let mut names: Vec<String> = Vec::new();
    let mut infos: Vec<ChooseAction> = Vec::new();
    let mut a: usize = 0;
    while a < actions.len()
        invariant
            a <= actions@.len(),
            av == action_views(actions@),
            vv == valuation_views(vals@),
            forall|k: int| 0 <= k < vals@.len() ==> (#[trigger] vals@[k])@.len() == vars@.len(),
            command_views(cmds@) == choose_commands(av, vars@, vv, phase, choice, a as nat),
            string_views(names@) == repair_controlled(av, vv, a as nat),
            choose_views(infos@) == choose_info(av, vars@, vv, a as nat),
        decreases actions.len() - a,
    {
        let ghost c0 = command_views(cmds@);
        let ghost n0 = string_views(names@);
        let ghost i0 = choose_views(infos@);
        let ghost fc = |val: Seq<Literal>| choose_command(av[a as int], a as int, vars@, val, phase, choice);
        let ghost fn_ = |val: Seq<Literal>| "["@ + choose_name(av[a as int].0, val) + "]"@;
        let ghost fi = |val: Seq<Literal>| (choose_name(av[a as int].0, val), av[a as int].0, Seq::new(vars@.len(), |j: int| (vars@[j], val[j])));
        let mut v: usize = 0;
        while v < vals.len()
            invariant
                a < actions@.len(),
                v <= vals@.len(),
                av == action_views(actions@),
                vv == valuation_views(vals@),
                forall|k: int| 0 <= k < vals@.len() ==> (#[trigger] vals@[k])@.len() == vars@.len(),
                fc == (|val: Seq<Literal>| choose_command(av[a as int], a as int, vars@, val, phase, choice)),
                fn_ == (|val: Seq<Literal>| "["@ + choose_name(av[a as int].0, val) + "]"@),
                fi == (|val: Seq<Literal>| (choose_name(av[a as int].0, val), av[a as int].0, Seq::new(vars@.len(), |j: int| (vars@[j], val[j])))),
                command_views(cmds@) == c0 + vv.subrange(0, v as int).map_values(fc),
                string_views(names@) == n0 + vv.subrange(0, v as int).map_values(fn_),
                choose_views(infos@) == i0 + vv.subrange(0, v as int).map_values(fi),
            decreases vals.len() - v,
        {
            let val = &vals[v];
            assert(val@ == vv[v as int]);
            let c = make_choose_command(&actions[a], a, vars, val, phase, choice);
            let name = choose_name_chars(&actions[a].name, val);
            let mut bracketed: Vec<char> = Vec::new();
            append_str(&mut bracketed, "[");
            let mut k: usize = 0;
            while k < name.len()
                invariant
                    k <= name@.len(),
                    bracketed@ == "["@ + name@.subrange(0, k as int),
                decreases name.len() - k,
            {
                bracketed.push(name[k]);
                assert(bracketed@ =~= "["@ + name@.subrange(0, k + 1));
                k += 1;
            }
            append_str(&mut bracketed, "]");
            assert(name@.subrange(0, name@.len() as int) =~= name@);
            let mut assignments: Vec<(VariableReference, Literal)> = Vec::new();
            let mut j: usize = 0;
            while j < vars.len()
                invariant
                    j <= vars@.len(),
                    val@.len() == vars@.len(),
                    assignments@ == Seq::new(j as nat, |q: int| (vars@[q], val@[q])),
                decreases vars.len() - j,
            {
                assignments.push((vars[j], val[j]));
                assert(assignments@ =~= Seq::new((j + 1) as nat, |q: int| (vars@[q], val@[q])));
                j += 1;
            }
            let info = ChooseAction { name: string_from(&name), action: actions[a].name.clone(), assignments };
            let ghost cb = command_views(cmds@);
            let ghost nb = string_views(names@);
            let ghost ib = choose_views(infos@);
            cmds.push(c);
            names.push(string_from(&bracketed));
            infos.push(info);
            proof {
                assert(vv.subrange(0, v + 1) =~= vv.subrange(0, v as int).push(vv[v as int]));
                assert(command_views(cmds@) =~= cb.push(fc(vv[v as int])));
                assert(string_views(names@) =~= nb.push(fn_(vv[v as int])));
                assert(choose_views(infos@) =~= ib.push(fi(vv[v as int])));
                assert(vv.subrange(0, v + 1).map_values(fc) =~= vv.subrange(0, v as int).map_values(fc).push(fc(vv[v as int])));
                assert(vv.subrange(0, v + 1).map_values(fn_) =~= vv.subrange(0, v as int).map_values(fn_).push(fn_(vv[v as int])));
                assert(vv.subrange(0, v + 1).map_values(fi) =~= vv.subrange(0, v as int).map_values(fi).push(fi(vv[v as int])));
            }
            v += 1;
        }
        assert(vv.subrange(0, vv.len() as int) =~= vv);
        a += 1;
    }
    (cmds, names, infos)
}

/// `[<name>]`.
fn bracketed_name(name: &String) -> (r: Vec<char>)
    ensures
        r@ == "["@ + name@ + "]"@,
{
    let mut out: Vec<char> = Vec::new();
    append_str(&mut out, "[");
    append_str(&mut out, name.as_str());
    append_str(&mut out, "]");
    out
}

/// The commands of another module restricted, and the names of player `Environment` extended
/// by those of the module.
fn restricted_module(
    module: &Module,
    actions: &Vec<ActionAndGuard>,
    phase: VariableReference,
    choice: VariableReference,
    env: &mut Vec<String>,
) -> (r: Module)
    ensures
        r@ == (ModuleView {
            commands: module@.commands.map_values(|c: CommandView| restricted_command(c, action_views(actions@), phase, choice)),
            ..module@
        }),
        string_views(final(env)@) == listed_actions(string_views(old(env)@).push(module@.name.0), module@.commands, module@.commands.len()),
{
    let ghost cv = module@.commands;
    let ghost f = |c: CommandView| restricted_command(c, action_views(actions@), phase, choice);
    env.push(module.name.name.clone());
    let ghost start = string_views(env@);
    assert(start =~= string_views(old(env)@).push(module@.name.0));
    let mut cmds: Vec<Command> = Vec::new();
    let mut i: usize = 0;
    while i < module.commands.len()
        invariant
            cv == module@.commands,
            cv.len() == module.commands@.len(),
            f == (|c: CommandView| restricted_command(c, action_views(actions@), phase, choice)),
            i <= cv.len(),
            command_views(cmds@) == cv.subrange(0, i as int).map_values(f),
            string_views(env@) == listed_actions(start, cv, i as nat),
        decreases module.commands.len() - i,
    {
        let c = &module.commands[i];
        assert(c@ == cv[i as int]);
        let r = make_restricted(c, actions, phase, choice);
        let ghost cb = command_views(cmds@);
        cmds.push(r);
        assert(command_views(cmds@) =~= cb.push(f(cv[i as int])));
        assert(cv.subrange(0, i + 1).map_values(f) =~= cv.subrange(0, i as int).map_values(f).push(f(cv[i as int])));
        match &c.action {
            Some(a) => {
                let text = bracketed_name(&a.name);
                if !holds_text(env, &text) {
                    env.push(string_from(&text));
                    assert(string_views(env@) =~= listed_actions(start, cv, i as nat).push(text@));
                }
            },
            None => {},
        }
        i += 1;
    }
    assert(cv.subrange(0, cv.len() as int) =~= cv);
    let r = Module {
        name: module.name.clone(),
        commands: cmds,
        attributes: module.attributes.clone(),
        span: module.span,
    };
    assert(r@.commands =~= cv.map_values(f));
    r
}

/// A global variable of the game ranging from 0 to `max`.
fn game_variable_info(name: &str, max: i64) -> (r: VariableInfo)
    ensures
        r@ == game_variable(name@, max),
{
    let r = VariableInfo {
        name: Identifier { name: name.to_owned(), span: Span { start: 0, end: 0 } },
        range: VariableRange::BoundedInt {
            min: Expression::Int(0, Span { start: 0, end: 0 }),
            max: Expression::Int(max, Span { start: 0, end: 0 }),
            span: Span { start: 0, end: 0 },
        },
        is_constant: false,
        scope: VariableScope::GlobalVariable,
        initial_value: None,
        attributes: Attributes::new(),
        span: Span { start: 0, end: 0 },
    };
    assert(r@.attributes =~= Seq::<(Seq<char>, bool)>::empty());
    r
}

impl SynthesisGame {
    /// The game in which a module (new, or replacing an existing one) is synthesised, as
    /// [`game_of`] says, with the interface it is built on.
    pub fn build(model: &Model, module: RepairModule) -> (r: Result<SynthesisGame, SynthesisError>)
        requires
            module matches RepairModule::ExistingModule { index } ==> index < model@.modules.len(),
            model@.variables.len() + 2 <= usize::MAX,
        ensures
            match game_of(model@, module) {
                Ok((g, rc, ec, ci)) => r matches Ok(x) && x.game@ == g
                    && string_views(x.repair_controlled@) == rc
                    && string_views(x.environment_controlled@) == ec
                    && choose_views(x.choose_actions@) == ci
                    && (x.interface.visible_variables@, x.interface.manipulatable_variables@, action_views(x.interface.actions@))
                        == interface_of(model@, module),
                Err(e) => r == Err::<SynthesisGame, SynthesisError>(e),
            },
    {
        let ghost mv = model@;
        let interface = ModuleInterface::from_model(model, module);
        let ghost manip = interface.manipulatable_variables@;
        let ghost av = action_views(interface.actions@);
        let is_new = match module {
            RepairModule::NewModule => true,
            RepairModule::ExistingModule { .. } => false,
        };
        if is_new && module_named(model, "generated_repair_module") {
            return Err(SynthesisError::ModuleNameTaken);
        }
        if variable_named(model, "action_choice") {
            return Err(SynthesisError::ChoiceVariableTaken);
        }
        if variable_named(model, "phase") {
            return Err(SynthesisError::PhaseVariableTaken);
        }
        let n = model.variable_manager.variables.len();
        proof {
            lemma_indices_within(mv.variables.len(), |i: int| crate::engine::synthesis::interface::is_manipulatable(mv.variables[i], module));
        }
        let mut domains: Vec<Vec<Literal>> = Vec::new();
        let mut i: usize = 0;
        while i < interface.manipulatable_variables.len()
            invariant
                mv == model@,
                n == mv.variables.len(),
                manip == interface.manipulatable_variables@,
                references_within(manip, n as nat),
                manip == interface_of(mv, module).1,
                !(module is NewModule && has_module_named(mv.modules, "generated_repair_module"@)),
                !has_variable_named(mv.variables, "action_choice"@),
                !has_variable_named(mv.variables, "phase"@),
                i <= manip.len(),
                domain_error(mv.variables, manip, i as nat) is None,
                domain_views(domains@) == domains_of(mv.variables, manip).subrange(0, i as int),
            decreases interface.manipulatable_variables.len() - i,
        {
            let var = interface.manipulatable_variables[i];
            assert(var == manip[i as int]);
            let info = &model.variable_manager.variables[var.index];
            assert(info@ == mv.variables[var.index as int]);
            match variable_domain(info) {
                Ok(d) => {
                    let ghost db = domain_views(domains@);
                    assert(d@ == domains_of(mv.variables, manip)[i as int]);
                    assert(domains_of(mv.variables, manip).subrange(0, i + 1)
                        =~= domains_of(mv.variables, manip).subrange(0, i as int).push(d@));
                    domains.push(d);
                    assert(domain_views(domains@) =~= domains_of(mv.variables, manip).subrange(0, i + 1));
                },
                Err(kind) => {
                    proof { lemma_domain_error_stays(mv.variables, manip, (i + 1) as nat, manip.len()); }
                    return Err(SynthesisError::Domain { variable: var.index, kind });
                },
            }
            i += 1;
        }
        assert(domains_of(mv.variables, manip).subrange(0, manip.len() as int) =~= domains_of(mv.variables, manip));
        if interface.actions.len() > 0 {
            let mut k: usize = 0;
            while k < domains.len()
                invariant
                    k <= domains@.len(),
                    domains@.len() == manip.len(),
                    manip == interface.manipulatable_variables@,
                    mv == model@,
                    av == action_views(interface.actions@),
                    av.len() > 0,
                    manip == interface_of(mv, module).1,
                    av == interface_of(mv, module).2,
                    !(module is NewModule && has_module_named(mv.modules, "generated_repair_module"@)),
                    !has_variable_named(mv.variables, "action_choice"@),
                    !has_variable_named(mv.variables, "phase"@),

                    domain_views(domains@) == domains_of(mv.variables, manip),
                    domain_error(mv.variables, manip, manip.len()) is None,
                    empty_domain(mv.variables, manip, k as nat) is None,
                decreases domains.len() - k,
            {
                proof { lemma_no_domain_error(mv.variables, manip, k as int, manip.len()); }
                assert(domains@[k as int]@ == domain_views(domains@)[k as int]);
                if domains[k].len() == 0 {
                    proof { lemma_empty_domain_stays(mv.variables, manip, (k + 1) as nat, manip.len()); }
                    return Err(SynthesisError::EmptyDomain { variable: interface.manipulatable_variables[k].index });
                }
                k += 1;
            }
        }
        let vals = all_valuations(&domains, 0);
        proof {
            lemma_valuation_lengths(domain_views(domains@), 0);
            assert forall|k: int| 0 <= k < vals@.len() implies (#[trigger] vals@[k])@.len() == manip.len() by {
                assert(vals@[k]@ == valuation_views(vals@)[k]);
            }
        }
        let choice = VariableReference { index: n };
        let phase = VariableReference { index: n + 1 };
        let (choosing, repair_controlled, choose_actions) =
            choosing_parts(&interface.actions, &interface.manipulatable_variables, &vals, phase, choice);
        let ghost gm = game_modules(mv.modules, module, command_views(choosing@), av, phase, choice);
        let ri: usize = match module {
            RepairModule::NewModule => model.modules.len(),
            RepairModule::ExistingModule { index } => index,
        };
        let mut modules: Vec<Module> = Vec::new();
        let mut env: Vec<String> = Vec::new();
        let mut m: usize = 0;
        while m < model.modules.len()
            invariant
                mv == model@,
                m <= mv.modules.len(),
                ri as int == repair_index(mv.modules, module),
                gm == game_modules(mv.modules, module, command_views(choosing@), av, phase, choice),
                av == action_views(interface.actions@),
                modules@.len() == m,
                forall|k: int| 0 <= k < m ==> #[trigger] modules@[k]@ == gm[k],
                string_views(env@) == environment_controlled(mv.modules, ri as int, m as nat),
            decreases model.modules.len() - m,
        {
            let md = &model.modules[m];
            assert(md@ == mv.modules[m as int]);
            if m == ri {
                let copy = Module {
                    name: md.name.clone(),
                    commands: clone_commands(&choosing),
                    attributes: md.attributes.clone(),
                    span: md.span,
                };
                assert(copy@.commands =~= command_views(choosing@));
                modules.push(copy);
            } else {
                let r = restricted_module(md, &interface.actions, phase, choice, &mut env);
                modules.push(r);
            }
            m += 1;
        }
        if is_new {
            let added = Module {
                name: Identifier { name: "generated_repair_module".to_owned(), span: Span { start: 0, end: 0 } },
                commands: choosing,
                attributes: Attributes::new(),
                span: Span { start: 0, end: 0 },
            };
            assert(added@.attributes =~= Seq::<(Seq<char>, bool)>::empty());
            modules.push(added);
        }
        let mut game = model.clone();
        game.modules = modules;
        game.variable_manager.variables.push(game_variable_info("action_choice", interface.actions.len() as i64));
        game.variable_manager.variables.push(game_variable_info("phase", 1));
        assert(game@.modules =~= gm);
        assert(game@.variables =~= mv.variables
            .push(game_variable("action_choice"@, av.len() as i64))
            .push(game_variable("phase"@, 1)));
        Ok(SynthesisGame {
            interface,
            game,
            repair_controlled,
            environment_controlled: env,
            choose_actions,
        })
    }
}

pub proof fn lemma_domain_error_stays(vs: Seq<VariableView>, vars: Seq<VariableReference>, i: nat, n: nat)
    requires
        i <= n <= vars.len(),
        domain_error(vs, vars, i) is Some,
    ensures
        domain_error(vs, vars, n) == domain_error(vs, vars, i),
    decreases n - i,
{
    if i < n {
        lemma_domain_error_stays(vs, vars, i, (n - 1) as nat);
    }
}

pub proof fn lemma_empty_domain_stays(vs: Seq<VariableView>, vars: Seq<VariableReference>, i: nat, n: nat)
    requires
        i <= n <= vars.len(),
        empty_domain(vs, vars, i) is Some,
    ensures
        empty_domain(vs, vars, n) == empty_domain(vs, vars, i),
    decreases n - i,
{
    if i < n {
        lemma_empty_domain_stays(vs, vars, i, (n - 1) as nat);
    }
}

pub proof fn lemma_no_domain_error(vs: Seq<VariableView>, vars: Seq<VariableReference>, k: int, n: nat)
    requires
        0 <= k < n <= vars.len(),
        domain_error(vs, vars, n) is None,
    ensures
        domain_of(vs[vars[k].index as int].range) is Ok,
    decreases n,
{
    if k < n - 1 {
        lemma_no_domain_error(vs, vars, k, (n - 1) as nat);
    }
}

/// Every valuation has one value per domain.
pub proof fn lemma_valuation_lengths(ds: Seq<Seq<Literal>>, from: nat)
    requires
        from <= ds.len(),
    ensures
        forall|k: int| 0 <= k < valuations(ds, from).len() ==> (#[trigger] valuations(ds, from)[k]).len() == ds.len() - from,
    decreases ds.len() - from,
{
    if from < ds.len() {
        lemma_valuation_lengths(ds, from + 1);
        lemma_extended_lengths(ds[from as int], valuations(ds, from + 1), valuations(ds, from + 1).len(), (ds.len() - from - 1) as nat);
    }
}

proof fn lemma_extended_lengths(d: Seq<Literal>, rest: Seq<Seq<Literal>>, j: nat, len: nat)
    requires
        j <= rest.len(),
        forall|k: int| 0 <= k < rest.len() ==> (#[trigger] rest[k]).len() == len,
    ensures
        forall|k: int| 0 <= k < extended(d, rest, j).len() ==> (#[trigger] extended(d, rest, j)[k]).len() == len + 1,
    decreases j,
{
    if j > 0 {
        lemma_extended_lengths(d, rest, (j - 1) as nat, len);
        let before = extended(d, rest, (j - 1) as nat);
        let group = d.map_values(|x: Literal| seq![x] + rest[j - 1]);
        assert forall|k: int| 0 <= k < extended(d, rest, j).len() implies (#[trigger] extended(d, rest, j)[k]).len() == len + 1 by {
            if k < before.len() {
                assert(extended(d, rest, j)[k] == before[k]);
            } else {
                assert(extended(d, rest, j)[k] == group[k - before.len()]);
            }
        }
    }
}

} // verus!
