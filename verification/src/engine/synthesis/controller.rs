//! Reading the synthesised controller back: which actions the strategy takes for each valuation
//! of the visible variables, and the module that takes them.
use vstd::prelude::*;
use crate::engine::synthesis::domains::{
    all_valuations, domain_views, literal_expr, literal_text, valuation_views, valuations,
    variable_domain, Literal,
};
use crate::engine::synthesis::files::{joined, lookup, InducedGame, InducedGameEntry, StateEntry, StateFile};
use crate::engine::synthesis::game::{
    and_expr, and_expression, assignment_view, choose_views, has_module_named, int_expr,
    int_expression, make_assignment, ChooseAction, SynthesisGame, domain_error, eq_expression,
    var_expression, domains_of, empty_domain, eq_expr, references_within, var_expr,
    SynthesisError,
};
use crate::engine::synthesis::interface::no_span;
use crate::prism::expression::{ExprView, Expression, Identifier, Span, VariableReference};
use crate::prism::model::{Assignment, Command, CommandView, Model, ModelView, Module, ModuleView, Update, UpdateView, VariableManager, VariableView};
use crate::pipeline::tasks::RepairModule;
use crate::text::{append_str, str_eq_string, string_from};

verus! {

/// A valuation of the visible variables, the condition that tests it, and the choosing actions
/// that the strategy takes in it.
pub struct CollectorEntry {
    pub name: String,
    pub condition: Expression,
    pub required_actions: Vec<String>,
}

impl View for CollectorEntry {
    type V = (Seq<char>, ExprView, Seq<Seq<char>>);

    open spec fn view(&self) -> (Seq<char>, ExprView, Seq<Seq<char>>) {
        (self.name@, self.condition@, self.required_actions@.map_values(|s: String| s@))
    }
}

/// The valuations of the visible variables, each with the actions taken in it.
pub struct VisibleVariableCollector {
    pub entries: Vec<CollectorEntry>,
    pub variable_names: Vec<String>,
}

/// The views of the entries.
pub open spec fn entry_views(v: Seq<CollectorEntry>) -> Seq<(Seq<char>, ExprView, Seq<Seq<char>>)> {
    v.map_values(|e: CollectorEntry| e@)
}

/// The name of a valuation: its values printed and joined with `,`.
pub open spec fn valuation_name(val: Seq<Literal>) -> Seq<char> {
    joined(val.map_values(|l: Literal| literal_text(l)), ","@)
}

/// The test that the first `n` variables have the values of the valuation, as a left-nested
/// conjunction of equalities.
pub open spec fn condition_from(vars: Seq<VariableReference>, val: Seq<Literal>, n: nat) -> ExprView
    decreases n,
{
    if n <= 1 {
        eq_expr(var_expr(vars[0]), literal_expr(val[0]))
    } else {
        and_expr(condition_from(vars, val, (n - 1) as nat), eq_expr(var_expr(vars[n - 1]), literal_expr(val[n - 1])))
    }
}

/// The test that the variables have the values of the valuation; `true` without variables.
pub open spec fn valuation_condition(vars: Seq<VariableReference>, val: Seq<Literal>) -> ExprView {
    if vars.len() == 0 {
        ExprView::Bool(true, no_span())
    } else {
        condition_from(vars, val, vars.len())
    }
}

/// The entries of a new collector, or the error that stops it.
pub open spec fn collector_entries(vs: Seq<VariableView>, visible: Seq<VariableReference>)
    -> Result<Seq<(Seq<char>, ExprView, Seq<Seq<char>>)>, SynthesisError>
{
    match domain_error(vs, visible, visible.len()) {
        Some(e) => Err(e),
        None => match empty_domain(vs, visible, visible.len()) {
            Some(e) => Err(e),
            None => Ok(valuations(domains_of(vs, visible), 0).map_values(|val: Seq<Literal>|
                (valuation_name(val), valuation_condition(visible, val), Seq::<Seq<char>>::empty()))),
        },
    }
}

/// The domains of the variables of the list, or the first error among them.
fn collect_domains(manager: &VariableManager, vars: &Vec<VariableReference>) -> (r: Result<Vec<Vec<Literal>>, SynthesisError>)
    requires
        references_within(vars@, manager@.len()),
    ensures
        match domain_error(manager@, vars@, vars@.len()) {
            Some(e) => r == Err::<Vec<Vec<Literal>>, SynthesisError>(e),
            None => r matches Ok(d) && domain_views(d@) == domains_of(manager@, vars@),
        },
{
    let ghost vs = manager@;
    let mut domains: Vec<Vec<Literal>> = Vec::new();
    let mut i: usize = 0;
    while i < vars.len()
        invariant
            vs == manager@,
            references_within(vars@, vs.len()),
            i <= vars@.len(),
            domain_error(vs, vars@, i as nat) is None,
            domain_views(domains@) == domains_of(vs, vars@).subrange(0, i as int),
        decreases vars.len() - i,
    {
        let var = vars[i];
        assert(var.index < vs.len());
        let info = &manager.variables[var.index];
        assert(info@ == vs[var.index as int]);
        match variable_domain(info) {
            Ok(d) => {
                assert(d@ == domains_of(vs, vars@)[i as int]);
                assert(domains_of(vs, vars@).subrange(0, i + 1) =~= domains_of(vs, vars@).subrange(0, i as int).push(d@));
                domains.push(d);
                assert(domain_views(domains@) =~= domains_of(vs, vars@).subrange(0, i + 1));
            },
            Err(kind) => {
                proof { crate::engine::synthesis::game::lemma_domain_error_stays(vs, vars@, (i + 1) as nat, vars@.len()); }
                return Err(SynthesisError::Domain { variable: var.index, kind });
            },
        }
        i += 1;
    }
    assert(domains_of(vs, vars@).subrange(0, vars@.len() as int) =~= domains_of(vs, vars@));
    Ok(domains)
}

/// The first of the domains that is empty, reported for its variable.
fn first_empty(domains: &Vec<Vec<Literal>>, vs: Ghost<Seq<VariableView>>, vars: &Vec<VariableReference>) -> (r: Option<SynthesisError>)
    requires
        domain_error(vs@, vars@, vars@.len()) is None,
        domain_views(domains@) == domains_of(vs@, vars@),
    ensures
        r == empty_domain(vs@, vars@, vars@.len()),
{
    let mut k: usize = 0;
    assert(domains@.len() == domain_views(domains@).len());
    while k < domains.len()
        invariant
            k <= domains@.len(),
            domains@.len() == vars@.len(),
            domain_views(domains@) == domains_of(vs@, vars@),
            domain_error(vs@, vars@, vars@.len()) is None,
            empty_domain(vs@, vars@, k as nat) is None,
        decreases domains.len() - k,
    {
        proof { crate::engine::synthesis::game::lemma_no_domain_error(vs@, vars@, k as int, vars@.len()); }
        assert(domains@[k as int]@ == domain_views(domains@)[k as int]);
        if domains[k].len() == 0 {
            proof { crate::engine::synthesis::game::lemma_empty_domain_stays(vs@, vars@, (k + 1) as nat, vars@.len()); }
            return Some(SynthesisError::EmptyDomain { variable: vars[k].index });
        }
        k += 1;
    }
    None
}

/// The name of the valuation, as [`valuation_name`] says.
fn name_of_valuation(val: &Vec<Literal>) -> (r: String)
    ensures
        r@ == valuation_name(val@),
{
    let ghost tv = val@.map_values(|l: Literal| literal_text(l));
    let mut out: Vec<char> = Vec::new();
    let mut i: usize = 0;
    while i < val.len()
        invariant
            i <= val@.len(),
            tv == val@.map_values(|l: Literal| literal_text(l)),
            out@ == joined(tv.subrange(0, i as int), ","@),
        decreases val.len() - i,
    {
        if i > 0 {
            append_str(&mut out, ",");
        }
        val[i].append_text(&mut out);
        proof {
            let next = tv.subrange(0, i + 1);
            assert(next.drop_last() =~= tv.subrange(0, i as int));
            if i == 0 {
                assert(joined(tv.subrange(0, 0), ","@) =~= Seq::<char>::empty());
            }
        }
        i += 1;
    }
    assert(tv.subrange(0, val@.len() as int) =~= tv);
    string_from(&out)
}

/// The test of the valuation, as [`valuation_condition`] says.
fn condition_of_valuation(vars: &Vec<VariableReference>, val: &Vec<Literal>) -> (r: Expression)
    requires
        vars@.len() == val@.len(),
    ensures
        r@ == valuation_condition(vars@, val@),
{
    if vars.len() == 0 {
        return Expression::Bool(true, Span { start: 0, end: 0 });
    }
    let mut cond = eq_expression(var_expression(vars[0]), val[0].to_expression());
    assert(cond@ == eq_expr(var_expr(vars@[0]), literal_expr(val@[0])));
    assert(cond@ == condition_from(vars@, val@, 1));
    let mut i: usize = 1;
    while i < vars.len()
        invariant
            1 <= i <= vars@.len(),
            vars@.len() == val@.len(),
            cond@ == condition_from(vars@, val@, i as nat),
        decreases vars.len() - i,
    {
        let check = eq_expression(var_expression(vars[i]), val[i].to_expression());
        assert(check@ == eq_expr(var_expr(vars@[i as int]), literal_expr(val@[i as int])));
        let ghost prev = cond@;
        cond = and_expression(cond, check);
        assert(cond@ == and_expr(prev, check@));
        assert(cond@ == condition_from(vars@, val@, (i + 1) as nat));
        i += 1;
    }
    cond
}

impl VisibleVariableCollector {
    /// A collector with one entry per valuation of the visible variables and no action yet, as
    /// [`collector_entries`] says; it keeps the names of the variables.
    pub fn new(visible_variables: &Vec<VariableReference>, manager: &VariableManager) -> (r: Result<VisibleVariableCollector, SynthesisError>)
        requires
            references_within(visible_variables@, manager@.len()),
        ensures
            match collector_entries(manager@, visible_variables@) {
                Ok(es) => r matches Ok(c) && entry_views(c.entries@) == es
                    && c.variable_names@.map_values(|s: String| s@)
                        == visible_variables@.map_values(|v: VariableReference| manager@[v.index as int].name.0),
                Err(e) => r == Err::<VisibleVariableCollector, SynthesisError>(e),
            },
    {
        let ghost vs = manager@;
        let ghost vars = visible_variables@;
        let mut variable_names: Vec<String> = Vec::new();
        let mut i: usize = 0;
        while i < visible_variables.len()
            invariant
                vs == manager@,
                references_within(vars, vs.len()),
                vars == visible_variables@,
                i <= vars.len(),
                variable_names@.map_values(|s: String| s@)
                    == vars.subrange(0, i as int).map_values(|v: VariableReference| vs[v.index as int].name.0),
            decreases visible_variables.len() - i,
        {
            let index = visible_variables[i].index;
            assert(manager.variables@[index as int]@ == vs[index as int]);
            let ghost before = variable_names@.map_values(|s: String| s@);
            variable_names.push(manager.variables[index].name.name.clone());
            assert(variable_names@.map_values(|s: String| s@) =~= before.push(vs[index as int].name.0));
            assert(vars.subrange(0, i + 1).map_values(|v: VariableReference| vs[v.index as int].name.0)
                =~= vars.subrange(0, i as int).map_values(|v: VariableReference| vs[v.index as int].name.0).push(vs[index as int].name.0));
            i += 1;
        }
        assert(vars.subrange(0, vars.len() as int) =~= vars);
        let domains = match collect_domains(manager, visible_variables) {
            Ok(d) => d,
            Err(e) => return Err(e),
        };
        match first_empty(&domains, Ghost(vs), visible_variables) {
            Some(e) => return Err(e),
            None => {},
        }
        let vals = all_valuations(&domains, 0);
        proof {
            crate::engine::synthesis::game::lemma_valuation_lengths(domain_views(domains@), 0);
        }
        let ghost vv = valuation_views(vals@);
        let ghost f = |val: Seq<Literal>| (valuation_name(val), valuation_condition(vars, val), Seq::<Seq<char>>::empty());
        let mut entries: Vec<CollectorEntry> = Vec::new();
        let mut k: usize = 0;
        assert(domains@.len() == domain_views(domains@).len());
        assert(domain_views(domains@).len() == domains_of(vs, vars).len());
        assert(entry_views(entries@) =~= vv.subrange(0, 0).map_values(f));
        while k < vals.len()
            invariant
                k <= vals@.len(),
                vv == valuation_views(vals@),
                vars == visible_variables@,
                domains@.len() == vars.len(),
                forall|j: int| 0 <= j < vv.len() ==> (#[trigger] vv[j]).len() == domain_views(domains@).len() - 0,
                f == (|val: Seq<Literal>| (valuation_name(val), valuation_condition(vars, val), Seq::<Seq<char>>::empty())),
                entry_views(entries@) == vv.subrange(0, k as int).map_values(f),
            decreases vals.len() - k,
        {
            let val = &vals[k];
            assert(val@ == vv[k as int]);
            let entry = CollectorEntry {
                name: name_of_valuation(val),
                condition: condition_of_valuation(visible_variables, val),
                required_actions: Vec::new(),
            };
            assert(entry@.2 =~= Seq::<Seq<char>>::empty());
            let ghost before = entry_views(entries@);
            entries.push(entry);
            assert(entry_views(entries@) =~= before.push(f(vv[k as int])));
            assert(vv.subrange(0, k + 1).map_values(f) =~= vv.subrange(0, k as int).map_values(f).push(f(vv[k as int])));
            k += 1;
        }
        assert(vv.subrange(0, vv.len() as int) =~= vv);
        Ok(VisibleVariableCollector { entries, variable_names })
    }
}

/// The printed values of the named variables that the state has.
pub open spec fn present_values(names: Seq<Seq<char>>, st: Seq<(Seq<char>, Literal)>, n: nat) -> Seq<Seq<char>>
    decreases n,
{
    if n == 0 || n > names.len() {
        Seq::empty()
    } else {
        let before = present_values(names, st, (n - 1) as nat);
        match lookup(st, names[n - 1]) {
            Some(l) => before.push(literal_text(l)),
            None => before,
        }
    }
}

/// The name of the valuation that the state gives the named variables.
pub open spec fn state_key(names: Seq<Seq<char>>, st: Seq<(Seq<char>, Literal)>) -> Seq<char> {
    joined(present_values(names, st, names.len()), ","@)
}

/// The first entry with this name.
pub open spec fn entry_position(es: Seq<(Seq<char>, ExprView, Seq<Seq<char>>)>, name: Seq<char>) -> Option<int>
    decreases es.len(),
{
    if es.len() == 0 {
        None
    } else {
        match entry_position(es.drop_last(), name) {
            Some(p) => Some(p),
            None => if es.last().0 == name { Some(es.len() - 1) } else { None },
        }
    }
}

proof fn lemma_entry_position(es: Seq<(Seq<char>, ExprView, Seq<Seq<char>>)>, name: Seq<char>)
    ensures
        match entry_position(es, name) {
            Some(p) => 0 <= p < es.len() && es[p].0 == name
                && forall|q: int| 0 <= q < p ==> #[trigger] es[q].0 != name,
            None => forall|q: int| 0 <= q < es.len() ==> #[trigger] es[q].0 != name,
        },
    decreases es.len(),
{
    if es.len() > 0 {
        let front = es.drop_last();
        lemma_entry_position(front, name);
        assert forall|q: int| 0 <= q < es.len() - 1 implies #[trigger] es[q] == front[q] by {}
        match entry_position(front, name) {
            Some(p) => {
                assert forall|q: int| 0 <= q < p implies #[trigger] es[q].0 != name by {
                    assert(es[q] == front[q]);
                }
            },
            None => {
                assert forall|q: int| 0 <= q < es.len() - 1 implies #[trigger] es[q].0 != name by {
                    assert(es[q] == front[q]);
                    if es[q].0 == name {
                        assert(front[q].0 == name);
                    }
                }
            },
        }
    }
}

/// The actions with `a` added where it is missing.
pub open spec fn with_action(actions: Seq<Seq<char>>, a: Seq<char>) -> Seq<Seq<char>> {
    if actions.contains(a) { actions } else { actions.push(a) }
}

/// What the transition (number `k`) of the strategy does to the entries: in phase 0, its action
/// is added to the entry of the valuation of the state where it starts.
pub open spec fn transition_step(
    es: Seq<(Seq<char>, ExprView, Seq<Seq<char>>)>,
    names: Seq<Seq<char>>,
    states: Seq<Seq<(Seq<char>, Literal)>>,
    t: (usize, usize, Seq<char>, Option<Seq<char>>),
    k: nat,
) -> Result<Seq<(Seq<char>, ExprView, Seq<Seq<char>>)>, SynthesisError> {
    if t.0 >= states.len() {
        Err(SynthesisError::StateOutOfRange { transition: k as usize })
    } else {
        match lookup(states[t.0 as int], "phase"@) {
            Some(Literal::Int(v)) => if v != 0 {
                Ok(es)
            } else {
                match entry_position(es, state_key(names, states[t.0 as int])) {
                    None => Err(SynthesisError::UnknownValuation { transition: k as usize }),
                    Some(p) => match t.3 {
                        None => Err(SynthesisError::MissingAction { transition: k as usize }),
                        Some(a) => Ok(es.update(p, (es[p].0, es[p].1, with_action(es[p].2, a)))),
                    },
                }
            },
            _ => Err(SynthesisError::MissingPhase { transition: k as usize }),
        }
    }
}

/// The entries after the first `n` transitions of the strategy.
pub open spec fn with_strategy(
    es: Seq<(Seq<char>, ExprView, Seq<Seq<char>>)>,
    names: Seq<Seq<char>>,
    states: Seq<Seq<(Seq<char>, Literal)>>,
    strategy: Seq<(usize, usize, Seq<char>, Option<Seq<char>>)>,
    n: nat,
) -> Result<Seq<(Seq<char>, ExprView, Seq<Seq<char>>)>, SynthesisError>
    decreases n,
{
    if n == 0 || n > strategy.len() {
        Ok(es)
    } else {
        match with_strategy(es, names, states, strategy, (n - 1) as nat) {
            Err(e) => Err(e),
            Ok(before) => transition_step(before, names, states, strategy[n - 1], (n - 1) as nat),
        }
    }
}

impl CollectorEntry {
    /// Records that the strategy takes the action here; an action is recorded once.
    pub fn add_action(&mut self, action: &String)
        ensures
            final(self)@ == (old(self)@.0, old(self)@.1, with_action(old(self)@.2, action@)),
    {
        let mut i: usize = 0;
        while i < self.required_actions.len()
            invariant
                i <= self.required_actions@.len(),
                forall|k: int| 0 <= k < i ==> #[trigger] self@.2[k] != action@,
            decreases self.required_actions.len() - i,
        {
            if str_eq_string(action.as_str(), &self.required_actions[i]) {
                assert(self@.2[i as int] == action@);
                return;
            }
            i += 1;
        }
        let ghost before = self@.2;
        assert(!before.contains(action@));
        self.required_actions.push(action.clone());
        assert(self@.2 =~= before.push(action@));
    }
}

impl VisibleVariableCollector {
    /// The entry of the valuation that the state gives the visible variables, as
    /// [`entry_position`] says.
    pub fn find(&self, state: &StateEntry) -> (r: Option<usize>)
        ensures
            r matches Some(p) ==> entry_position(entry_views(self.entries@), state_key(self.variable_names@.map_values(|s: String| s@), state@)) == Some(p as int),
            r is None ==> entry_position(entry_views(self.entries@), state_key(self.variable_names@.map_values(|s: String| s@), state@)) is None,
    {
        let ghost names = self.variable_names@.map_values(|s: String| s@);
        let mut present: Vec<String> = Vec::new();
        let mut i: usize = 0;
        while i < self.variable_names.len()
            invariant
                i <= names.len(),
                names == self.variable_names@.map_values(|s: String| s@),
                present@.map_values(|s: String| s@) == present_values(names, state@, i as nat),
            decreases self.variable_names.len() - i,
        {
            let ghost before = present@.map_values(|s: String| s@);
            match state.get(self.variable_names[i].as_str()) {
                Some(l) => {
                    let mut text: Vec<char> = Vec::new();
                    l.append_text(&mut text);
                    assert(text@ =~= literal_text(l));
                    present.push(string_from(&text));
                    assert(present@.map_values(|s: String| s@) =~= before.push(literal_text(l)));
                },
                None => {},
            }
            i += 1;
        }
        let mut key_chars: Vec<char> = Vec::new();
        crate::engine::synthesis::files::append_joined(&mut key_chars, &present, ",");
        let key = string_from(&key_chars);
        assert(key@ == state_key(names, state@));
        let ghost ev = entry_views(self.entries@);
        let mut p: usize = 0;
        proof { lemma_entry_position(ev, key@); }
        while p < self.entries.len()
            invariant
                p <= ev.len(),
                ev == entry_views(self.entries@),
                names == self.variable_names@.map_values(|s: String| s@),
                key@ == state_key(names, state@),
                forall|q: int| 0 <= q < p ==> #[trigger] ev[q].0 != key@,
            decreases self.entries.len() - p,
        {
            if str_eq_string(key.as_str(), &self.entries[p].name) {
                assert(ev[p as int].0 == key@);
                proof { lemma_entry_position(ev, key@); }
                assert(entry_position(ev, key@) == Some(p as int)) by {
                    match entry_position(ev, key@) {
                        Some(x) => {
                            if x < p { assert(ev[x].0 != key@); }
                            if x > p { assert(ev[p as int].0 != key@); }
                        },
                        None => { assert(ev[p as int].0 != key@); },
                    }
                }
                proof { lemma_entry_position(ev, key@); }
                return Some(p);
            }
            p += 1;
        }
        proof { lemma_entry_position(ev, key@); }
        assert(entry_position(ev, key@) is None) by {
            match entry_position(ev, key@) {
                Some(x) => { assert(ev[x].0 != key@); },
                None => {},
            }
        }
        None
    }

    /// Records that the strategy takes the action in the entry.
    pub fn add_action(&mut self, index: usize, action: &String)
        requires
            index < old(self).entries@.len(),
        ensures
            final(self).variable_names@ == old(self).variable_names@,
            entry_views(final(self).entries@) == entry_views(old(self).entries@).update(index as int,
                (entry_views(old(self).entries@)[index as int].0, entry_views(old(self).entries@)[index as int].1,
                 with_action(entry_views(old(self).entries@)[index as int].2, action@))),
    {
        let mut entry = self.entries.remove(index);
        entry.add_action(action);
        self.entries.insert(index, entry);
        assert(entry_views(self.entries@) =~= entry_views(old(self).entries@).update(index as int,
            (entry_views(old(self).entries@)[index as int].0, entry_views(old(self).entries@)[index as int].1,
             with_action(entry_views(old(self).entries@)[index as int].2, action@))));
    }
}

/// The last choosing action with this name: what it stands for.
pub open spec fn last_choose(
    info: Seq<(Seq<char>, Seq<char>, Seq<(VariableReference, Literal)>)>,
    name: Seq<char>,
) -> Option<(Seq<char>, Seq<char>, Seq<(VariableReference, Literal)>)>
    decreases info.len(),
{
    if info.len() == 0 {
        None
    } else if info.last().0 == name {
        Some(info.last())
    } else {
        last_choose(info.drop_last(), name)
    }
}

/// The command of the synthesised module for a valuation: under its condition, the action is
/// taken and the values written, with probability 1.
pub open spec fn controller_command(action: Seq<char>, condition: ExprView, assigns: Seq<(VariableReference, Literal)>) -> CommandView {
    CommandView {
        action: Some((action, no_span())),
        guard: condition,
        updates: seq![UpdateView {
            probability: int_expr(1),
            assignments: assigns.map_values(|p: (VariableReference, Literal)| assignment_view(p.0, literal_expr(p.1))),
            span: no_span(),
        }],
        span: no_span(),
    }
}

/// The commands for the first `n` entries: one for each entry with an action, from the first
/// action taken there.
pub open spec fn controller_commands(
    es: Seq<(Seq<char>, ExprView, Seq<Seq<char>>)>,
    info: Seq<(Seq<char>, Seq<char>, Seq<(VariableReference, Literal)>)>,
    n: nat,
) -> Result<Seq<CommandView>, SynthesisError>
    decreases n,
{
    if n == 0 || n > es.len() {
        Ok(Seq::empty())
    } else {
        match controller_commands(es, info, (n - 1) as nat) {
            Err(e) => Err(e),
            Ok(before) => if es[n - 1].2.len() == 0 {
                Ok(before)
            } else {
                match last_choose(info, es[n - 1].2[0]) {
                    None => Err(SynthesisError::UnknownChooseAction { entry: (n - 1) as usize }),
                    Some(c) => Ok(before.push(controller_command(c.1, es[n - 1].1, c.2))),
                }
            },
        }
    }
}

/// The entries among the first `n` where the strategy takes more than one action.
pub open spec fn ambiguous_entries(es: Seq<(Seq<char>, ExprView, Seq<Seq<char>>)>, n: nat) -> Seq<(Seq<char>, Seq<Seq<char>>)>
    decreases n,
{
    if n == 0 || n > es.len() {
        Seq::empty()
    } else {
        let before = ambiguous_entries(es, (n - 1) as nat);
        if es[n - 1].2.len() > 1 { before.push((es[n - 1].0, es[n - 1].2)) } else { before }
    }
}

/// The model with the synthesised module: a new module `synthesised_module`, or the replaced
/// module with only the new commands.
pub open spec fn controller_model(
    m: ModelView,
    module: RepairModule,
    es: Seq<(Seq<char>, ExprView, Seq<Seq<char>>)>,
    info: Seq<(Seq<char>, Seq<char>, Seq<(VariableReference, Literal)>)>,
) -> Result<ModelView, SynthesisError> {
    if module is NewModule && has_module_named(m.modules, "synthesised_module"@) {
        Err(SynthesisError::ModuleNameTaken)
    } else {
        match controller_commands(es, info, es.len()) {
            Err(e) => Err(e),
            Ok(cmds) => Ok(ModelView {
                modules: match module {
                    RepairModule::NewModule => m.modules.push(ModuleView {
                        name: ("synthesised_module"@, no_span()),
                        commands: cmds,
                        attributes: Seq::empty(),
                        span: no_span(),
                    }),
                    RepairModule::ExistingModule { index } => m.modules.update(index as int, ModuleView {
                        commands: cmds,
                        ..m.modules[index as int]
                    }),
                },
                ..m
            }),
        }
    }
}

/// What reading the strategy back gives: the model with the synthesised module and the
/// valuations where the strategy takes several actions, or the error that stops it.
pub open spec fn synthesis_outcome(
    m: ModelView,
    module: RepairModule,
    visible: Seq<VariableReference>,
    info: Seq<(Seq<char>, Seq<char>, Seq<(VariableReference, Literal)>)>,
    states: Seq<Seq<(Seq<char>, Literal)>>,
    strategy: Seq<(usize, usize, Seq<char>, Option<Seq<char>>)>,
) -> Result<(ModelView, Seq<(Seq<char>, Seq<Seq<char>>)>), SynthesisError> {
    match collector_entries(m.variables, visible) {
        Err(e) => Err(e),
        Ok(es0) => {
            let names = visible.map_values(|v: VariableReference| m.variables[v.index as int].name.0);
            match with_strategy(es0, names, states, strategy, strategy.len()) {
                Err(e) => Err(e),
                Ok(es) => match controller_model(m, module, es, info) {
                    Err(e) => Err(e),
                    Ok(result) => Ok((result, ambiguous_entries(es, es.len()))),
                },
            }
        },
    }
}

/// The model with a synthesised controller, and the valuations (by name) where the strategy
/// takes several actions, of which the first is used.
pub struct SynthesisOutcome {
    pub model: Model,
    pub ambiguous: Vec<(String, Vec<String>)>,
}

/// The last choosing action with this name.
fn last_choose_index(infos: &Vec<ChooseAction>, name: &String) -> (r: Option<usize>)
    ensures
        r matches Some(i) ==> i < infos@.len() && last_choose(choose_views(infos@), name@) == Some(choose_views(infos@)[i as int]),
        r is None ==> last_choose(choose_views(infos@), name@) is None,
{
    let ghost cv = choose_views(infos@);
    let mut i = infos.len();
    assert(cv.subrange(0, i as int) =~= cv);
    while i > 0
        invariant
            i <= cv.len(),
            cv == choose_views(infos@),
            last_choose(cv, name@) == last_choose(cv.subrange(0, i as int), name@),
        decreases i,
    {
        let ghost pre = cv.subrange(0, i as int);
        assert(pre.drop_last() =~= cv.subrange(0, i - 1));
        assert(pre.last() == cv[i - 1]);
        if str_eq_string(name.as_str(), &infos[i - 1].name) {
            return Some(i - 1);
        }
        i -= 1;
    }
    None
}

/// The command for a valuation, as [`controller_command`] says.
fn make_controller_command(action: &String, condition: &Expression, assigns: &Vec<(VariableReference, Literal)>) -> (r: Command)
    ensures
        r@ == controller_command(action@, condition@, assigns@),
{
    let mut assignments: Vec<Assignment> = Vec::new();
    let ghost f = |p: (VariableReference, Literal)| assignment_view(p.0, literal_expr(p.1));
    let mut j: usize = 0;
    while j < assigns.len()
        invariant
            j <= assigns@.len(),
            f == (|p: (VariableReference, Literal)| assignment_view(p.0, literal_expr(p.1))),
            assignments@.map_values(|x: Assignment| x@) == assigns@.subrange(0, j as int).map_values(f),
        decreases assigns.len() - j,
    {
        let (target, value) = assigns[j];
        let ghost before = assignments@.map_values(|x: Assignment| x@);
        let x = make_assignment(target, value.to_expression());
        assignments.push(x);
        assert(assignments@.map_values(|x: Assignment| x@) =~= before.push(f(assigns@[j as int])));
        assert(assigns@.subrange(0, j + 1).map_values(f) =~= assigns@.subrange(0, j as int).map_values(f).push(f(assigns@[j as int])));
        j += 1;
    }
    assert(assigns@.subrange(0, assigns@.len() as int) =~= assigns@);
    let update = Update { probability: int_expression(1), assignments, span: Span { start: 0, end: 0 } };
    let mut updates: Vec<Update> = Vec::new();
    updates.push(update);
    let r = Command {
        action: Some(Identifier { name: action.clone(), span: Span { start: 0, end: 0 } }),
        guard: condition.clone(),
        updates,
        span: Span { start: 0, end: 0 },
    };
    assert(r@.updates =~= controller_command(action@, condition@, assigns@).updates);
    r
}

/// The views of the ambiguous valuations.
pub open spec fn ambiguous_views(v: Seq<(String, Vec<String>)>) -> Seq<(Seq<char>, Seq<Seq<char>>)> {
    v.map_values(|p: (String, Vec<String>)| (p.0@, p.1@.map_values(|s: String| s@)))
}

pub(crate) fn clone_strings(v: &Vec<String>) -> (r: Vec<String>)
    ensures
        r@.map_values(|s: String| s@) == v@.map_values(|s: String| s@),
{
    let mut r: Vec<String> = Vec::new();
    let mut i: usize = 0;
    while i < v.len()
        invariant
            i <= v@.len(),
            r@.map_values(|s: String| s@) == v@.subrange(0, i as int).map_values(|s: String| s@),
        decreases v.len() - i,
    {
        let ghost before = r@.map_values(|s: String| s@);
        r.push(v[i].clone());
        assert(r@.map_values(|s: String| s@) =~= before.push(v@[i as int]@));
        assert(v@.subrange(0, i + 1).map_values(|s: String| s@) =~= v@.subrange(0, i as int).map_values(|s: String| s@).push(v@[i as int]@));
        i += 1;
    }
    assert(v@.subrange(0, v@.len() as int) =~= v@);
    r
}

/// Reads the strategy back into a controller, as [`synthesis_outcome`] says: every transition
/// of the strategy in phase 0 records its action for the valuation of the visible variables
/// where it starts; then each valuation with an action gets a command of the synthesised module
/// that takes the first of them and writes the values it chose.
pub fn synthesised_model(
    model: &Model,
    module: RepairModule,
    game: &SynthesisGame,
    states: &StateFile,
    strategy: &InducedGame,
) -> (r: Result<SynthesisOutcome, SynthesisError>)
    requires
        references_within(game.interface.visible_variables@, model@.variables.len()),
        module matches RepairModule::ExistingModule { index } ==> index < model@.modules.len(),
    ensures
        match synthesis_outcome(
            model@,
            module,
            game.interface.visible_variables@,
            choose_views(game.choose_actions@),
            states.states@.map_values(|e: StateEntry| e@),
            strategy.entries@.map_values(|e: InducedGameEntry| e@),
        ) {
            Ok((m, amb)) => r matches Ok(o) && o.model@ == m && ambiguous_views(o.ambiguous@) == amb,
            Err(e) => r == Err::<SynthesisOutcome, SynthesisError>(e),
        },
{
    let ghost mv = model@;
    let ghost visible = game.interface.visible_variables@;
    let ghost info = choose_views(game.choose_actions@);
    let ghost sv = states.states@.map_values(|e: StateEntry| e@);
    let ghost tv = strategy.entries@.map_values(|e: InducedGameEntry| e@);
    let ghost names = visible.map_values(|v: VariableReference| mv.variables[v.index as int].name.0);
    let mut collector = match VisibleVariableCollector::new(&game.interface.visible_variables, &model.variable_manager) {
        Ok(c) => c,
        Err(e) => return Err(e),
    };
    let ghost es0 = entry_views(collector.entries@);
    let mut k: usize = 0;
    while k < strategy.entries.len()
        invariant
            k <= tv.len(),
            tv == strategy.entries@.map_values(|e: InducedGameEntry| e@),
            sv == states.states@.map_values(|e: StateEntry| e@),
            collector.variable_names@.map_values(|s: String| s@) == names,
            mv == model@,
            visible == game.interface.visible_variables@,
            info == choose_views(game.choose_actions@),
            names == visible.map_values(|v: VariableReference| mv.variables[v.index as int].name.0),
            collector_entries(mv.variables, visible) == Ok::<Seq<(Seq<char>, ExprView, Seq<Seq<char>>)>, SynthesisError>(es0),
            with_strategy(es0, names, sv, tv, k as nat) == Ok::<Seq<(Seq<char>, ExprView, Seq<Seq<char>>)>, SynthesisError>(entry_views(collector.entries@)),
        decreases strategy.entries.len() - k,
    {
        let t = &strategy.entries[k];
        assert(t@ == tv[k as int]);
        if t.from >= states.states.len() {
            proof { lemma_with_strategy_stays(es0, names, sv, tv, (k + 1) as nat, tv.len()); }
            return Err(SynthesisError::StateOutOfRange { transition: k });
        }
        let state = &states.states[t.from];
        assert(state@ == sv[t.from as int]);
        match state.get_int("phase") {
            None => {
                proof { lemma_with_strategy_stays(es0, names, sv, tv, (k + 1) as nat, tv.len()); }
                return Err(SynthesisError::MissingPhase { transition: k });
            },
            Some(v) => {
                if v == 0 {
                    match collector.find(state) {
                        None => {
                            proof { lemma_with_strategy_stays(es0, names, sv, tv, (k + 1) as nat, tv.len()); }
                            return Err(SynthesisError::UnknownValuation { transition: k });
                        },
                        Some(p) => match &t.action_name {
                            None => {
                                proof { lemma_with_strategy_stays(es0, names, sv, tv, (k + 1) as nat, tv.len()); }
                                return Err(SynthesisError::MissingAction { transition: k });
                            },
                            Some(a) => {
                                proof { lemma_entry_in_range(entry_views(collector.entries@), state_key(names, state@)); }
                                collector.add_action(p, a);
                            },
                        },
                    }
                }
            },
        }
        k += 1;
    }
    let ghost es = entry_views(collector.entries@);
    let is_new = match module {
        RepairModule::NewModule => true,
        RepairModule::ExistingModule { .. } => false,
    };
    if is_new && crate::engine::synthesis::game::module_named(model, "synthesised_module") {
        return Err(SynthesisError::ModuleNameTaken);
    }
    let mut cmds: Vec<Command> = Vec::new();
    let mut ambiguous: Vec<(String, Vec<String>)> = Vec::new();
    let mut e: usize = 0;
    assert(cmds@.map_values(|c: Command| c@) =~= Seq::<CommandView>::empty());
    assert(ambiguous_views(ambiguous@) =~= Seq::<(Seq<char>, Seq<Seq<char>>)>::empty());
    while e < collector.entries.len()
        invariant
            e <= es.len(),
            es == entry_views(collector.entries@),
            info == choose_views(game.choose_actions@),
            mv == model@,
            visible == game.interface.visible_variables@,
            tv == strategy.entries@.map_values(|e: InducedGameEntry| e@),
            sv == states.states@.map_values(|e: StateEntry| e@),
            names == visible.map_values(|v: VariableReference| mv.variables[v.index as int].name.0),
            collector_entries(mv.variables, visible) == Ok::<Seq<(Seq<char>, ExprView, Seq<Seq<char>>)>, SynthesisError>(es0),
            with_strategy(es0, names, sv, tv, tv.len()) == Ok::<Seq<(Seq<char>, ExprView, Seq<Seq<char>>)>, SynthesisError>(es),
            !(module is NewModule && has_module_named(mv.modules, "synthesised_module"@)),
            controller_commands(es, info, e as nat) == Ok::<Seq<CommandView>, SynthesisError>(cmds@.map_values(|c: Command| c@)),
            ambiguous_views(ambiguous@) == ambiguous_entries(es, e as nat),
        decreases collector.entries.len() - e,
    {
        let entry = &collector.entries[e];
        assert(entry@ == es[e as int]);
        if entry.required_actions.len() > 1 {
            let ghost before = ambiguous_views(ambiguous@);
            ambiguous.push((entry.name.clone(), clone_strings(&entry.required_actions)));
            assert(ambiguous_views(ambiguous@) =~= before.push((es[e as int].0, es[e as int].2)));
        }
        if entry.required_actions.len() > 0 {
            assert(entry.required_actions@[0]@ == es[e as int].2[0]);
            match last_choose_index(&game.choose_actions, &entry.required_actions[0]) {
                None => {
                    proof { lemma_controller_commands_stays(es, info, (e + 1) as nat, es.len()); }
                    return Err(SynthesisError::UnknownChooseAction { entry: e });
                },
                Some(i) => {
                    let c = &game.choose_actions[i];
                    assert(c@ == info[i as int]);
                    let command = make_controller_command(&c.action, &entry.condition, &c.assignments);
                    let ghost before = cmds@.map_values(|c: Command| c@);
                    cmds.push(command);
                    assert(cmds@.map_values(|c: Command| c@) =~= before.push(command@));
                },
            }
        }
        e += 1;
    }
    let ghost cv = cmds@.map_values(|c: Command| c@);
    let mut result = model.clone();
    match module {
        RepairModule::NewModule => {
            let added = Module {
                name: Identifier { name: "synthesised_module".to_owned(), span: Span { start: 0, end: 0 } },
                commands: cmds,
                attributes: crate::prism::model::Attributes::new(),
                span: Span { start: 0, end: 0 },
            };
            assert(added@.attributes =~= Seq::<(Seq<char>, bool)>::empty());
            assert(added@.commands =~= cv);
            result.modules.push(added);
            assert(result@.modules =~= mv.modules.push(added@));
        },
        RepairModule::ExistingModule { index } => {
            let mut md = result.modules.remove(index);
            md.commands = cmds;
            assert(md@.commands =~= cv);
            result.modules.insert(index, md);
            assert(result@.modules =~= mv.modules.update(index as int, ModuleView { commands: cv, ..mv.modules[index as int] }));
        },
    }
    Ok(SynthesisOutcome { model: result, ambiguous })
}

proof fn lemma_entry_in_range(es: Seq<(Seq<char>, ExprView, Seq<Seq<char>>)>, name: Seq<char>)
    ensures
        entry_position(es, name) matches Some(p) ==> 0 <= p < es.len(),
{
    lemma_entry_position(es, name);
}

proof fn lemma_with_strategy_stays(
    es: Seq<(Seq<char>, ExprView, Seq<Seq<char>>)>,
    names: Seq<Seq<char>>,
    states: Seq<Seq<(Seq<char>, Literal)>>,
    strategy: Seq<(usize, usize, Seq<char>, Option<Seq<char>>)>,
    i: nat,
    n: nat,
)
    requires
        i <= n <= strategy.len(),
        with_strategy(es, names, states, strategy, i) is Err,
    ensures
        with_strategy(es, names, states, strategy, n) == with_strategy(es, names, states, strategy, i),
    decreases n - i,
{
    if i < n {
        lemma_with_strategy_stays(es, names, states, strategy, i, (n - 1) as nat);
    }
}

proof fn lemma_controller_commands_stays(
    es: Seq<(Seq<char>, ExprView, Seq<Seq<char>>)>,
    info: Seq<(Seq<char>, Seq<char>, Seq<(VariableReference, Literal)>)>,
    i: nat,
    n: nat,
)
    requires
        i <= n <= es.len(),
        controller_commands(es, info, i) is Err,
    ensures
        controller_commands(es, info, n) == controller_commands(es, info, i),
    decreases n - i,
{
    if i < n {
        lemma_controller_commands_stays(es, info, i, (n - 1) as nat);
    }
}

proof fn lemma_present_values(names: Seq<Seq<char>>, st: Seq<(Seq<char>, Literal)>, val: Seq<Literal>, n: nat)
    requires
        n <= names.len(),
        names.len() == val.len(),
        forall|j: int| 0 <= j < names.len() ==> lookup(st, #[trigger] names[j]) == Some(val[j]),
    ensures
        present_values(names, st, n) == val.subrange(0, n as int).map_values(|l: Literal| literal_text(l)),
    decreases n,
{
    if n > 0 {
        lemma_present_values(names, st, val, (n - 1) as nat);
        assert(lookup(st, names[n - 1]) == Some(val[n - 1]));
        assert(val.subrange(0, n as int).map_values(|l: Literal| literal_text(l))
            =~= val.subrange(0, n - 1).map_values(|l: Literal| literal_text(l)).push(literal_text(val[n - 1])));
    } else {
        assert(val.subrange(0, 0).map_values(|l: Literal| literal_text(l)) =~= Seq::<Seq<char>>::empty());
    }
}

/// A state whose visible variables have the values of a valuation is filed under that
/// valuation's name: the strategy's action in that state lands in the valuation's entry.
pub proof fn law_state_key_of_valuation(names: Seq<Seq<char>>, st: Seq<(Seq<char>, Literal)>, val: Seq<Literal>)
    requires
        names.len() == val.len(),
        forall|j: int| 0 <= j < names.len() ==> lookup(st, #[trigger] names[j]) == Some(val[j]),
    ensures
        state_key(names, st) == valuation_name(val),
{
    lemma_present_values(names, st, val, names.len());
    assert(val.subrange(0, val.len() as int) =~= val);
}

} // verus!
