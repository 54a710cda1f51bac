//! What a synthesised module may read and what it may do.
use vstd::prelude::*;
use crate::pipeline::tasks::RepairModule;
use crate::prism::expression::{ExprView, Expression, Span, VariableReference};
use crate::prism::model::{Command, CommandView, Model, ModuleView, VariableScope, VariableView, flag_in};
use crate::text::str_eq_string;

verus! {

/// The place given to expressions that the synthesis writes itself.
pub open spec fn no_span() -> Span {
    Span { start: 0, end: 0 }
}

/// An action that the synthesised module may take part in, with the condition under which the
/// other modules allow it.
pub struct ActionAndGuard {
    pub name: String,
    pub guard: Expression,
}

impl View for ActionAndGuard {
    type V = (Seq<char>, ExprView);

    open spec fn view(&self) -> (Seq<char>, ExprView) {
        (self.name@, self.guard@)
    }
}

/// The variables that the synthesised module observes and writes, and the actions it takes.
pub struct ModuleInterface {
    /// The variables it observes: those outside it that are neither constant nor hidden.
    pub visible_variables: Vec<VariableReference>,
    /// The variables it writes: the non-constant variables of the module it replaces.
    pub manipulatable_variables: Vec<VariableReference>,
    /// Each action of the other modules, with the conjunction over modules of the disjunction
    /// of the guards of its commands in that module.
    pub actions: Vec<ActionAndGuard>,
}

/// The references to the indices below `n` that satisfy `p`, in index order.
pub open spec fn indices_where(n: nat, p: spec_fn(int) -> bool) -> Seq<VariableReference>
    decreases n,
{
    if n == 0 {
        Seq::empty()
    } else {
        let before = indices_where((n - 1) as nat, p);
        if p(n - 1) {
            before.push(VariableReference { index: (n - 1) as usize })
        } else {
            before
        }
    }
}

/// Whether the variable lies in the module that the synthesis replaces.
pub open spec fn in_replaced_module(v: VariableView, module: RepairModule) -> bool {
    match module {
        RepairModule::ExistingModule { index } => v.scope == (VariableScope::LocalVariable { module_index: index }),
        RepairModule::NewModule => false,
    }
}

pub open spec fn is_manipulatable(v: VariableView, module: RepairModule) -> bool {
    !v.is_constant && in_replaced_module(v, module)
}

pub open spec fn is_visible_input(v: VariableView, module: RepairModule) -> bool {
    !v.is_constant && !in_replaced_module(v, module) && !flag_in(v.attributes, "hidden"@)
}

/// How two guards of one action are combined.
pub enum Combine {
    /// Two commands of one module: either may fire.
    Either,
    /// Two modules: both must allow the action.
    Both,
}

pub open spec fn combined(a: ExprView, b: ExprView, how: Combine) -> ExprView {
    match how {
        Combine::Either => ExprView::Disjunction(Box::new(a), Box::new(b), no_span()),
        Combine::Both => ExprView::Conjunction(Box::new(a), Box::new(b), no_span()),
    }
}

/// The first place where the list names this action.
pub open spec fn position_of_name(acc: Seq<(Seq<char>, ExprView)>, name: Seq<char>) -> Option<int>
    decreases acc.len(),
{
    if acc.len() == 0 {
        None
    } else {
        match position_of_name(acc.drop_last(), name) {
            Some(p) => Some(p),
            None => if acc.last().0 == name { Some(acc.len() - 1) } else { None },
        }
    }
}

/// The list with the guard combined into the action's entry, or a new entry at the end.
pub open spec fn merged(acc: Seq<(Seq<char>, ExprView)>, name: Seq<char>, guard: ExprView, how: Combine)
    -> Seq<(Seq<char>, ExprView)>
{
    match position_of_name(acc, name) {
        Some(p) => acc.update(p, (name, combined(acc[p].1, guard, how))),
        None => acc.push((name, guard)),
    }
}

/// The actions of the first `n` commands of a module, each with the disjunction of the guards
/// of its commands, in the order of first appearance.
pub open spec fn module_actions(cmds: Seq<CommandView>, n: nat) -> Seq<(Seq<char>, ExprView)>
    decreases n,
{
    if n == 0 || n > cmds.len() {
        Seq::empty()
    } else {
        let before = module_actions(cmds, (n - 1) as nat);
        match cmds[n - 1].action {
            Some((name, _)) => merged(before, name, cmds[n - 1].guard, Combine::Either),
            None => before,
        }
    }
}

/// The list with the first `n` actions of `more` merged in, each as a conjunction.
pub open spec fn conjoined(acc: Seq<(Seq<char>, ExprView)>, more: Seq<(Seq<char>, ExprView)>, n: nat)
    -> Seq<(Seq<char>, ExprView)>
    decreases n,
{
    if n == 0 || n > more.len() {
        acc
    } else {
        let before = conjoined(acc, more, (n - 1) as nat);
        merged(before, more[n - 1].0, more[n - 1].1, Combine::Both)
    }
}

/// The actions of the first `n` modules but the replaced one.
pub open spec fn interface_actions(ms: Seq<ModuleView>, module: RepairModule, n: nat) -> Seq<(Seq<char>, ExprView)>
    decreases n,
{
    if n == 0 || n > ms.len() {
        Seq::empty()
    } else {
        let before = interface_actions(ms, module, (n - 1) as nat);
        if module == (RepairModule::ExistingModule { index: (n - 1) as usize }) {
            before
        } else {
            let own = module_actions(ms[n - 1].commands, ms[n - 1].commands.len());
            conjoined(before, own, own.len())
        }
    }
}

/// The action of a command; empty where it has none.
pub open spec fn action_name(c: CommandView) -> Seq<char> {
    match c.action {
        Some((name, _)) => name,
        None => Seq::empty(),
    }
}

/// Whether some entry of the list names this action.
pub open spec fn has_name(acc: Seq<(Seq<char>, ExprView)>, name: Seq<char>) -> bool {
    exists|k: int| 0 <= k < acc.len() && #[trigger] acc[k].0 == name
}

pub proof fn lemma_position_of_name(acc: Seq<(Seq<char>, ExprView)>, name: Seq<char>)
    ensures
        match position_of_name(acc, name) {
            Some(p) => 0 <= p < acc.len() && acc[p].0 == name
                && forall|k: int| 0 <= k < p ==> #[trigger] acc[k].0 != name,
            None => !has_name(acc, name),
        },
    decreases acc.len(),
{
    if acc.len() > 0 {
        let front = acc.drop_last();
        lemma_position_of_name(front, name);
        assert forall|k: int| 0 <= k < acc.len() - 1 implies #[trigger] acc[k] == front[k] by {}
        match position_of_name(front, name) {
            Some(p) => {
                assert forall|k: int| 0 <= k < p implies #[trigger] acc[k].0 != name by {
                    assert(acc[k] == front[k]);
                }
            },
            None => {
                assert forall|k: int| 0 <= k < acc.len() - 1 implies #[trigger] acc[k].0 != name by {
                    assert(acc[k] == front[k]);
                    if acc[k].0 == name {
                        assert(front[k].0 == name);
                    }
                }
            },
        }
    }
}

proof fn lemma_merged_names(acc: Seq<(Seq<char>, ExprView)>, name: Seq<char>, guard: ExprView, how: Combine, x: Seq<char>)
    ensures
        has_name(merged(acc, name, guard, how), x) <== has_name(acc, x) || x == name,
{
    lemma_position_of_name(acc, name);
    let m = merged(acc, name, guard, how);
    if has_name(acc, x) {
        let k = choose|k: int| 0 <= k < acc.len() && #[trigger] acc[k].0 == x;
        assert(m[k].0 == x);
    }
    if x == name {
        match position_of_name(acc, name) {
            Some(p) => assert(m[p].0 == x),
            None => assert(m[acc.len() as int].0 == x),
        }
    }
}

proof fn lemma_module_actions_cover(cmds: Seq<CommandView>, n: nat, c: int)
    requires
        0 <= c < n <= cmds.len(),
        cmds[c].action is Some,
    ensures
        has_name(module_actions(cmds, n), action_name(cmds[c])),
    decreases n,
{
    let before = module_actions(cmds, (n - 1) as nat);
    if c < n - 1 {
        lemma_module_actions_cover(cmds, (n - 1) as nat, c);
    }
    match cmds[n - 1].action {
        Some((name, _)) => lemma_merged_names(before, name, cmds[n - 1].guard, Combine::Either, action_name(cmds[c])),
        None => {},
    }
}

proof fn lemma_conjoined_cover(acc: Seq<(Seq<char>, ExprView)>, more: Seq<(Seq<char>, ExprView)>, n: nat, x: Seq<char>)
    requires
        n <= more.len(),
        has_name(acc, x) || exists|k: int| 0 <= k < n && #[trigger] more[k].0 == x,
    ensures
        has_name(conjoined(acc, more, n), x),
    decreases n,
{
    if n > 0 {
        let before = conjoined(acc, more, (n - 1) as nat);
        if has_name(acc, x) || exists|k: int| 0 <= k < n - 1 && #[trigger] more[k].0 == x {
            lemma_conjoined_cover(acc, more, (n - 1) as nat, x);
        }
        lemma_merged_names(before, more[n - 1].0, more[n - 1].1, Combine::Both, x);
    }
}

/// Every action of a command of a module other than the replaced one is an action of the
/// interface.
pub proof fn lemma_interface_covers(ms: Seq<ModuleView>, module: RepairModule, n: nat, m: int, c: int)
    requires
        0 <= m < n <= ms.len(),
        module != (RepairModule::ExistingModule { index: m as usize }),
        0 <= c < ms[m].commands.len(),
        ms[m].commands[c].action is Some,
    ensures
        has_name(interface_actions(ms, module, n), action_name(ms[m].commands[c])),
    decreases n,
{
    let x = action_name(ms[m].commands[c]);
    let before = interface_actions(ms, module, (n - 1) as nat);
    if m < n - 1 {
        lemma_interface_covers(ms, module, (n - 1) as nat, m, c);
        if module != (RepairModule::ExistingModule { index: (n - 1) as usize }) {
            let own = module_actions(ms[n - 1].commands, ms[n - 1].commands.len());
            lemma_conjoined_cover(before, own, own.len(), x);
        }
    } else {
        let own = module_actions(ms[m].commands, ms[m].commands.len());
        lemma_module_actions_cover(ms[m].commands, ms[m].commands.len(), c);
        lemma_conjoined_cover(before, own, own.len(), x);
    }
}

/// The views of a list of actions.
pub open spec fn action_views(v: Seq<ActionAndGuard>) -> Seq<(Seq<char>, ExprView)> {
    v.map_values(|a: ActionAndGuard| a@)
}

/// The interface as [`ModuleInterface::from_model`] computes it.
pub open spec fn interface_of(m: crate::prism::model::ModelView, module: RepairModule)
    -> (Seq<VariableReference>, Seq<VariableReference>, Seq<(Seq<char>, ExprView)>)
{
    (
        indices_where(m.variables.len(), |i: int| is_visible_input(m.variables[i], module)),
        indices_where(m.variables.len(), |i: int| is_manipulatable(m.variables[i], module)),
        interface_actions(m.modules, module, m.modules.len()),
    )
}

/// The first entry of the list that names this action.
pub(crate) fn find_action(acc: &Vec<ActionAndGuard>, name: &String) -> (r: Option<usize>)
    ensures
        r matches Some(i) ==> position_of_name(action_views(acc@), name@) == Some(i as int),
        r is None ==> position_of_name(action_views(acc@), name@) is None,
{
    proof { lemma_position_of_name(action_views(acc@), name@); }
    let mut i: usize = 0;
    while i < acc.len()
        invariant
            i <= acc@.len(),
            forall|k: int| 0 <= k < i ==> #[trigger] action_views(acc@)[k].0 != name@,
        decreases acc.len() - i,
    {
        if str_eq_string(acc[i].name.as_str(), name) {
            assert(action_views(acc@)[i as int].0 == name@);
            proof { lemma_position_of_name(action_views(acc@), name@); }
            return Some(i);
        }
        i += 1;
    }
    None
}

/// Combines the guard into the action's entry, or adds a new entry at the end.
fn merge_into(acc: &mut Vec<ActionAndGuard>, name: String, guard: Expression, how: Combine)
    ensures
        action_views(final(acc)@) == merged(action_views(old(acc)@), name@, guard@, how),
{
    proof { lemma_position_of_name(action_views(acc@), name@); }
    match find_action(acc, &name) {
        Some(p) => {
            let existing = acc[p].guard.clone();
            assert(existing@ == action_views(old(acc)@)[p as int].1);
            let combined_guard = match how {
                Combine::Either => Expression::Disjunction(Box::new(existing), Box::new(guard), Span { start: 0, end: 0 }),
                Combine::Both => Expression::Conjunction(Box::new(existing), Box::new(guard), Span { start: 0, end: 0 }),
            };
            assert(combined_guard@ == combined(existing@, guard@, how));
            let ghost nm = name@;
            acc.set(p, ActionAndGuard { name, guard: combined_guard });
            assert(position_of_name(action_views(old(acc)@), nm) == Some(p as int));
            assert(action_views(acc@) =~= action_views(old(acc)@).update(p as int, (nm, combined(existing@, guard@, how))));
            assert(action_views(acc@) =~= merged(action_views(old(acc)@), nm, guard@, how));
        },
        None => {
            acc.push(ActionAndGuard { name, guard });
            assert(action_views(acc@) =~= merged(action_views(old(acc)@), name@, guard@, how));
        },
    }
}

/// The actions of the commands of one module, as [`module_actions`] says.
fn commands_actions(cmds: &Vec<Command>) -> (r: Vec<ActionAndGuard>)
    ensures
        action_views(r@) == module_actions(cmds@.map_values(|c: Command| c@), cmds@.len()),
{
    let ghost cv = cmds@.map_values(|c: Command| c@);
    let mut acc: Vec<ActionAndGuard> = Vec::new();
    let mut i: usize = 0;
    assert(action_views(acc@) =~= module_actions(cv, 0));
    while i < cmds.len()
        invariant
            cv == cmds@.map_values(|c: Command| c@),
            i <= cmds@.len(),
            action_views(acc@) == module_actions(cv, i as nat),
        decreases cmds.len() - i,
    {
        assert(cv[i as int] == cmds@[i as int]@);
        match &cmds[i].action {
            Some(a) => {
                merge_into(&mut acc, a.name.clone(), cmds[i].guard.clone(), Combine::Either);
            },
            None => {},
        }
        i += 1;
    }
    acc
}

/// Merges every action of `more` into `acc`, each as a conjunction.
fn conjoin_into(acc: &mut Vec<ActionAndGuard>, more: &Vec<ActionAndGuard>)
    ensures
        action_views(final(acc)@) == conjoined(action_views(old(acc)@), action_views(more@), more@.len()),
{
    let ghost mv = action_views(more@);
    let ghost start = action_views(acc@);
    let n = more.len();
    let mut i: usize = 0;
    while i < n
        invariant
            n == mv.len(),
            mv == action_views(more@),
            i <= n,
            start == action_views(old(acc)@),
            action_views(acc@) == conjoined(start, mv, i as nat),
        decreases n - i,
    {
        assert(mv[i as int] == more@[i as int]@);
        merge_into(acc, more[i].name.clone(), more[i].guard.clone(), Combine::Both);
        i += 1;
    }
}

impl ModuleInterface {
    /// The interface of the module that the synthesis writes: a new module, or one replacing
    /// an existing module. Actions are listed in the order in which they first appear.
    pub fn from_model(model: &Model, module: RepairModule) -> (r: ModuleInterface)
        ensures
            (r.visible_variables@, r.manipulatable_variables@, action_views(r.actions@)) == interface_of(model@, module),
    {
        let ghost vs = model@.variables;
        let ghost pv = |i: int| is_visible_input(vs[i], module);
        let ghost pm = |i: int| is_manipulatable(vs[i], module);
        let mut visible_variables: Vec<VariableReference> = Vec::new();
        let mut manipulatable_variables: Vec<VariableReference> = Vec::new();
        let n = model.variable_manager.variables.len();
        let mut i: usize = 0;
        while i < n
            invariant
                vs == model@.variables,
                n == vs.len(),
                i <= n,
                pv == (|i: int| is_visible_input(vs[i], module)),
                pm == (|i: int| is_manipulatable(vs[i], module)),
                visible_variables@ == indices_where(i as nat, pv),
                manipulatable_variables@ == indices_where(i as nat, pm),
            decreases n - i,
        {
            let v = &model.variable_manager.variables[i];
            assert(v@ == vs[i as int]);
            if !v.is_constant {
                let in_own = match module {
                    RepairModule::ExistingModule { index } => match v.scope {
                        VariableScope::LocalVariable { module_index } => module_index == index,
                        VariableScope::GlobalVariable => false,
                    },
                    RepairModule::NewModule => false,
                };
                if in_own {
                    manipulatable_variables.push(VariableReference { index: i });
                } else if !v.attributes.is_flag_set("hidden") {
                    visible_variables.push(VariableReference { index: i });
                }
            }
            i += 1;
        }
        let ghost ms = model@.modules;
        let mut actions: Vec<ActionAndGuard> = Vec::new();
        let mut m: usize = 0;
        assert(action_views(actions@) =~= interface_actions(ms, module, 0));
        while m < model.modules.len()
            invariant
                ms == model@.modules,
                m <= ms.len(),
                action_views(actions@) == interface_actions(ms, module, m as nat),
            decreases model.modules.len() - m,
        {
            let skip = match module {
                RepairModule::ExistingModule { index } => index == m,
                RepairModule::NewModule => false,
            };
            if !skip {
                assert(ms[m as int].commands == model.modules@[m as int].commands@.map_values(|c: Command| c@));
                let own = commands_actions(&model.modules[m].commands);
                conjoin_into(&mut actions, &own);
            }
            m += 1;
        }
        ModuleInterface { visible_variables, manipulatable_variables, actions }
    }
}

} // verus!
