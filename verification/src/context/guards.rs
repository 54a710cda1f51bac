use vstd::prelude::*;
use vstd::wrapping::i64_specs;
use crate::context::permissible_bounds::{max_i64, min_i64, PermissibleBounds};
use crate::context::variable_ranges::VariableRanges;
use crate::prism::expression::{Expression, ExprView, VariableReference};
use crate::repairs::error::RepairError;

verus! {

/// A comparison of a variable with an integer literal in a guard.
#[derive(Clone, Copy, PartialEq, Eq, Debug)]
pub enum Constraint {
    LessThan(i64),
    LessOrEqual(i64),
    GreaterThan(i64),
    GreaterOrEqual(i64),
    Equals(i64),
}

/// The constraints on one variable, in the order they were found.
pub struct VariableConstraints {
    pub constraints: Vec<Constraint>,
}

impl VariableConstraints {
    pub fn with_constraint(constraint: Constraint) -> (r: VariableConstraints)
        ensures
            r.constraints@ == seq![constraint],
    {
        VariableConstraints { constraints: vec![constraint] }
    }
}

/// The constraints found on each variable, one entry per variable index, in the order in
/// which the variables first occur.
pub struct VariablesConstraints {
    pub variables: Vec<(usize, VariableConstraints)>,
    /// Every constraint recorded so far, in order.
    pub seen: Ghost<Seq<(usize, Constraint)>>,
}

/// The constraints on variable `v` among `cs`, in order.
pub open spec fn constraints_of(cs: Seq<(usize, Constraint)>, v: usize) -> Seq<Constraint>
    decreases cs.len(),
{
    if cs.len() == 0 {
        Seq::empty()
    } else {
        let rest = constraints_of(cs.drop_last(), v);
        if cs.last().0 == v { rest.push(cs.last().1) } else { rest }
    }
}

/// Whether some constraint of `cs` is on variable `v`.
pub open spec fn constrains(cs: Seq<(usize, Constraint)>, v: usize) -> bool {
    exists|i: int| 0 <= i < cs.len() && #[trigger] cs[i].0 == v
}

/// The variable indices of a keyed list are pairwise distinct.
pub open spec fn distinct_keys<T>(entries: Seq<(usize, T)>) -> bool {
    forall|i: int, j: int| 0 <= i < entries.len() && 0 <= j < entries.len() && i != j
        ==> #[trigger] entries[i].0 != #[trigger] entries[j].0
}

proof fn lemma_constraints_of_push(cs: Seq<(usize, Constraint)>, x: (usize, Constraint), v: usize)
    ensures
        constraints_of(cs.push(x), v) == (if x.0 == v { constraints_of(cs, v).push(x.1) } else { constraints_of(cs, v) }),
{
    assert(cs.push(x).drop_last() == cs);
}

proof fn lemma_constrains_push(cs: Seq<(usize, Constraint)>, x: (usize, Constraint), v: usize)
    ensures
        constrains(cs.push(x), v) == (constrains(cs, v) || x.0 == v),
{
    if constrains(cs, v) {
        let i = choose|i: int| 0 <= i < cs.len() && #[trigger] cs[i].0 == v;
        assert(cs.push(x)[i].0 == v);
    }
    if x.0 == v {
        assert(cs.push(x)[cs.len() as int].0 == v);
    }
    if constrains(cs.push(x), v) {
        let i = choose|i: int| 0 <= i < cs.push(x).len() && #[trigger] cs.push(x)[i].0 == v;
        if i < cs.len() {
            assert(cs[i].0 == v);
        }
    }
}

impl VariablesConstraints {
    pub fn new() -> (r: VariablesConstraints)
        ensures
            r.wf(),
            r.seen@.len() == 0,
    {
        let r = VariablesConstraints { variables: Vec::new(), seen: Ghost(Seq::empty()) };
        proof {
            assert forall|v: usize| constrains(r.seen@, v) implies
                exists|i: int| 0 <= i < r.variables@.len() && #[trigger] r.variables@[i].0 == v by {
            }
        }
        r
    }

    /// The entries hold exactly the recorded constraints, grouped by variable.
    pub open spec fn wf(&self) -> bool {
        let cs = self.seen@;
        &&& distinct_keys(self.variables@)
        &&& forall|i: int| 0 <= i < self.variables@.len() ==>
                #[trigger] self.variables@[i].1.constraints@ == constraints_of(cs, self.variables@[i].0)
                && constrains(cs, self.variables@[i].0)
        &&& forall|v: usize| constrains(cs, v) ==>
                exists|i: int| 0 <= i < self.variables@.len() && #[trigger] self.variables@[i].0 == v
    }

    /// Records a constraint on a variable.
    pub fn add_constraint(&mut self, variable: VariableReference, constraint: Constraint)
        requires
            old(self).wf(),
        ensures
            final(self).wf(),
            final(self).seen@ == old(self).seen@.push((variable.index, constraint)),
    {
        let ghost old_vars = self.variables@;
        let ghost cs = self.seen@;
        let ghost x = (variable.index, constraint);
        let ghost ncs = cs.push(x);
        self.seen = Ghost(ncs);
        let mut i: usize = 0;
        while i < self.variables.len()
            invariant
                i <= self.variables@.len(),
                self.variables@ == old_vars,
                self.seen@ == ncs,
                ncs == cs.push(x),
                cs == old(self).seen@,
                x == (variable.index, constraint),
                distinct_keys(old_vars),
                forall|k: int| 0 <= k < old_vars.len() ==>
                    #[trigger] old_vars[k].1.constraints@ == constraints_of(cs, old_vars[k].0)
                    && constrains(cs, old_vars[k].0),
                forall|v: usize| constrains(cs, v) ==>
                    exists|k: int| 0 <= k < old_vars.len() && #[trigger] old_vars[k].0 == v,
                forall|j: int| 0 <= j < i ==> #[trigger] self.variables@[j].0 != variable.index,
            decreases self.variables.len() - i,
        {
            if self.variables[i].0 == variable.index {
                let (key, mut entry) = self.variables.remove(i);
                entry.constraints.push(constraint);
                self.variables.insert(i, (key, entry));
                proof {
                    assert(self.variables@ =~= old_vars.update(i as int, (key, entry)));
                    assert(entry.constraints@ == old_vars[i as int].1.constraints@.push(constraint));
                    assert forall|k: int| 0 <= k < self.variables@.len() implies
                        #[trigger] self.variables@[k].1.constraints@ == constraints_of(ncs, self.variables@[k].0)
                        && constrains(ncs, self.variables@[k].0) by {
                        lemma_constraints_of_push(cs, x, self.variables@[k].0);
                        lemma_constrains_push(cs, x, self.variables@[k].0);
                        if k != i {
                            assert(self.variables@[k] == old_vars[k]);
                            assert(old_vars[k].1.constraints@ == constraints_of(cs, old_vars[k].0));
                        } else {
                            assert(old_vars[k].1.constraints@ == constraints_of(cs, old_vars[k].0));
                            assert(self.variables@[k].0 == variable.index);
                        }
                    }
                    assert forall|v: usize| constrains(ncs, v) implies
                        exists|k: int| 0 <= k < self.variables@.len() && #[trigger] self.variables@[k].0 == v by {
                        lemma_constrains_push(cs, x, v);
                        if v == variable.index {
                            assert(self.variables@[i as int].0 == v);
                        } else {
                            let k = choose|k: int| 0 <= k < old_vars.len() && #[trigger] old_vars[k].0 == v;
                            assert(self.variables@[k].0 == v);
                        }
                    }
                    assert forall|a: int, b: int| 0 <= a < self.variables@.len() && 0 <= b < self.variables@.len() && a != b
                        implies #[trigger] self.variables@[a].0 != #[trigger] self.variables@[b].0 by {
                        assert(self.variables@[a].0 == old_vars[a].0);
                        assert(self.variables@[b].0 == old_vars[b].0);
                    }
                }
                return;
            }
            i += 1;
        }
        self.variables.push((variable.index, VariableConstraints::with_constraint(constraint)));
        proof {
            let n = old_vars.len() as int;
            assert(!constrains(cs, variable.index)) by {
                if constrains(cs, variable.index) {
                    let k = choose|k: int| 0 <= k < old_vars.len() && #[trigger] old_vars[k].0 == variable.index;
                    assert(self.variables@[k].0 != variable.index);
                }
            }
            lemma_constraints_of_absent(cs, variable.index);
            assert forall|k: int| 0 <= k < self.variables@.len() implies
                #[trigger] self.variables@[k].1.constraints@ == constraints_of(ncs, self.variables@[k].0)
                && constrains(ncs, self.variables@[k].0) by {
                lemma_constraints_of_push(cs, x, self.variables@[k].0);
                lemma_constrains_push(cs, x, self.variables@[k].0);
                if k < n {
                    assert(self.variables@[k] == old_vars[k]);
                    assert(old_vars[k].1.constraints@ == constraints_of(cs, old_vars[k].0));
                    assert(self.variables@[k].0 != variable.index);
                    assert(constraints_of(ncs, self.variables@[k].0) == constraints_of(cs, self.variables@[k].0));
                    assert(constrains(cs, self.variables@[k].0));
                } else {
                    assert(k == n);
                    assert(self.variables@[k].0 == variable.index);
                    assert(self.variables@[k].1.constraints@ =~= Seq::<Constraint>::empty().push(constraint));
                    assert(constraints_of(ncs, variable.index) == Seq::<Constraint>::empty().push(constraint));
                }
            }
            assert forall|v: usize| constrains(ncs, v) implies
                exists|k: int| 0 <= k < self.variables@.len() && #[trigger] self.variables@[k].0 == v by {
                lemma_constrains_push(cs, x, v);
                if v == variable.index {
                    assert(self.variables@[n].0 == v);
                } else {
                    let k = choose|k: int| 0 <= k < old_vars.len() && #[trigger] old_vars[k].0 == v;
                    assert(self.variables@[k].0 == v);
                }
            }
            assert forall|a: int, b: int| 0 <= a < self.variables@.len() && 0 <= b < self.variables@.len() && a != b
                implies #[trigger] self.variables@[a].0 != #[trigger] self.variables@[b].0 by {
                if a < n {
                    assert(self.variables@[a] == old_vars[a]);
                }
                if b < n {
                    assert(self.variables@[b] == old_vars[b]);
                }
            }
        }
    }
}

proof fn lemma_constraints_of_absent(cs: Seq<(usize, Constraint)>, v: usize)
    requires
        !constrains(cs, v),
    ensures
        constraints_of(cs, v) == Seq::<Constraint>::empty(),
    decreases cs.len(),
{
    if cs.len() > 0 {
        assert(!constrains(cs.drop_last(), v)) by {
            if constrains(cs.drop_last(), v) {
                let i = choose|i: int| 0 <= i < cs.drop_last().len() && #[trigger] cs.drop_last()[i].0 == v;
                assert(cs[i].0 == v);
            }
        }
        lemma_constraints_of_absent(cs.drop_last(), v);
        assert(cs[cs.len() - 1].0 != v);
    }
}

/// Which comparison a constraint stands for.
#[derive(Clone, Copy, PartialEq, Eq, Debug)]
pub enum ConstraintKind {
    LessThan,
    LessOrEqual,
    GreaterThan,
    GreaterOrEqual,
    Equals,
}

/// The constraint of a kind with a value.
pub open spec fn make_constraint(kind: ConstraintKind, value: i64) -> Constraint {
    match kind {
        ConstraintKind::LessThan => Constraint::LessThan(value),
        ConstraintKind::LessOrEqual => Constraint::LessOrEqual(value),
        ConstraintKind::GreaterThan => Constraint::GreaterThan(value),
        ConstraintKind::GreaterOrEqual => Constraint::GreaterOrEqual(value),
        ConstraintKind::Equals => Constraint::Equals(value),
    }
}

fn constraint_of_kind(kind: ConstraintKind, value: i64) -> (c: Constraint)
    ensures
        c == make_constraint(kind, value),
{
    match kind {
        ConstraintKind::LessThan => Constraint::LessThan(value),
        ConstraintKind::LessOrEqual => Constraint::LessOrEqual(value),
        ConstraintKind::GreaterThan => Constraint::GreaterThan(value),
        ConstraintKind::GreaterOrEqual => Constraint::GreaterOrEqual(value),
        ConstraintKind::Equals => Constraint::Equals(value),
    }
}

/// The constraint a comparison `lhs op rhs` puts on a variable: `var op literal` gives
/// `kind`, `literal op var` gives `reverse`; any other comparison gives none.
pub open spec fn comparison_constraint(
    lhs: ExprView,
    rhs: ExprView,
    kind: ConstraintKind,
    reverse: ConstraintKind,
) -> Option<(usize, Constraint)> {
    match (lhs, rhs) {
        (ExprView::VarOrConst(var, _), ExprView::Int(val, _)) => Some((var.index, make_constraint(kind, val))),
        (ExprView::Int(val, _), ExprView::VarOrConst(var, _)) => Some((var.index, make_constraint(reverse, val))),
        _ => None,
    }
}

/// The constraint of an optional one as a list.
pub open spec fn as_list(c: Option<(usize, Constraint)>) -> Seq<(usize, Constraint)> {
    match c {
        Some(x) => seq![x],
        None => Seq::empty(),
    }
}

/// The constraints that a guard puts on variables: those of the comparisons of a variable
/// with an integer literal among the conjuncts, from left to right.
pub open spec fn guard_constraints(e: ExprView) -> Seq<(usize, Constraint)>
    decreases e,
{
    match e {
        ExprView::Conjunction(l, r, _) => guard_constraints(*l) + guard_constraints(*r),
        ExprView::LessThan(l, r, _) => as_list(comparison_constraint(*l, *r, ConstraintKind::LessThan, ConstraintKind::GreaterThan)),
        ExprView::LessOrEqual(l, r, _) => as_list(comparison_constraint(*l, *r, ConstraintKind::LessOrEqual, ConstraintKind::GreaterOrEqual)),
        ExprView::GreaterThan(l, r, _) => as_list(comparison_constraint(*l, *r, ConstraintKind::GreaterThan, ConstraintKind::LessThan)),
        ExprView::GreaterOrEqual(l, r, _) => as_list(comparison_constraint(*l, *r, ConstraintKind::GreaterOrEqual, ConstraintKind::LessOrEqual)),
        ExprView::Equals(l, r, _) => as_list(comparison_constraint(*l, *r, ConstraintKind::Equals, ConstraintKind::Equals)),
        _ => Seq::empty(),
    }
}

/// The bounds `(lower, upper)` after one more constraint; `x < v` and `x > v` move the
/// bound to `v - 1` and `v + 1` with wrapping arithmetic, and `x = v` sets both bounds.
pub open spec fn tightened(lu: (i64, i64), c: Constraint) -> (i64, i64) {
    match c {
        Constraint::LessThan(v) => (lu.0, min_i64(lu.1, i64_specs::wrapping_sub(v, 1))),
        Constraint::LessOrEqual(v) => (lu.0, min_i64(lu.1, v)),
        Constraint::GreaterThan(v) => (max_i64(lu.0, i64_specs::wrapping_add(v, 1)), lu.1),
        Constraint::GreaterOrEqual(v) => (max_i64(lu.0, v), lu.1),
        Constraint::Equals(v) => (v, v),
    }
}

/// The bounds after all constraints, starting from the whole `i64` range.
pub open spec fn folded_bounds(cs: Seq<Constraint>) -> (i64, i64)
    decreases cs.len(),
{
    if cs.len() == 0 {
        (i64::MIN, i64::MAX)
    } else {
        tightened(folded_bounds(cs.drop_last()), cs.last())
    }
}

/// Whether `x` satisfies a constraint.
pub open spec fn satisfies(x: i64, c: Constraint) -> bool {
    match c {
        Constraint::LessThan(v) => x < v,
        Constraint::LessOrEqual(v) => x <= v,
        Constraint::GreaterThan(v) => x > v,
        Constraint::GreaterOrEqual(v) => x >= v,
        Constraint::Equals(v) => x == v,
    }
}

/// The bounds are sound: a value that satisfies every constraint lies between the bounds
/// that the constraints give.
pub proof fn law_bounds_contain_satisfying_values(cs: Seq<Constraint>, x: i64)
    requires
        forall|i: int| 0 <= i < cs.len() ==> satisfies(x, #[trigger] cs[i]),
    ensures
        folded_bounds(cs).0 <= x <= folded_bounds(cs).1,
    decreases cs.len(),
{
    if cs.len() > 0 {
        let rest = cs.drop_last();
        assert forall|i: int| 0 <= i < rest.len() implies satisfies(x, #[trigger] rest[i]) by {
            assert(rest[i] == cs[i]);
        }
        law_bounds_contain_satisfying_values(rest, x);
        assert(satisfies(x, cs[cs.len() - 1]));
        match cs.last() {
            Constraint::LessThan(v) => {
                assert(i64_specs::wrapping_sub(v, 1) == v - 1);
            },
            Constraint::GreaterThan(v) => {
                assert(i64_specs::wrapping_add(v, 1) == v + 1);
            },
            _ => {},
        }
    }
}

/// The integer that a guard operand stands for under a valuation of the variables: a
/// literal's value, or the variable's value; nothing for any other operand.
pub open spec fn operand_value(e: ExprView, val: spec_fn(usize) -> i64) -> Option<i64> {
    match e {
        ExprView::Int(v, _) => Some(v),
        ExprView::VarOrConst(r, _) => Some(val(r.index)),
        _ => None,
    }
}

/// Whether the comparison `op` of two operands holds under a valuation, where both stand for
/// integers; a comparison of anything else is taken to hold.
pub open spec fn compares(l: ExprView, r: ExprView, val: spec_fn(usize) -> i64, op: ConstraintKind) -> bool {
    match (operand_value(l, val), operand_value(r, val)) {
        (Some(x), Some(y)) => match op {
            ConstraintKind::LessThan => x < y,
            ConstraintKind::LessOrEqual => x <= y,
            ConstraintKind::GreaterThan => x > y,
            ConstraintKind::GreaterOrEqual => x >= y,
            ConstraintKind::Equals => x == y,
        },
        _ => true,
    }
}

/// Whether a guard holds under a valuation, as far as its conjunctions of comparisons between
/// variables and integer literals tell; every other part is taken to hold. A guard that is
/// true under a valuation holds in this sense.
pub open spec fn guard_holds(e: ExprView, val: spec_fn(usize) -> i64) -> bool
    decreases e,
{
    match e {
        ExprView::Conjunction(l, r, _) => guard_holds(*l, val) && guard_holds(*r, val),
        ExprView::LessThan(l, r, _) => compares(*l, *r, val, ConstraintKind::LessThan),
        ExprView::LessOrEqual(l, r, _) => compares(*l, *r, val, ConstraintKind::LessOrEqual),
        ExprView::GreaterThan(l, r, _) => compares(*l, *r, val, ConstraintKind::GreaterThan),
        ExprView::GreaterOrEqual(l, r, _) => compares(*l, *r, val, ConstraintKind::GreaterOrEqual),
        ExprView::Equals(l, r, _) => compares(*l, *r, val, ConstraintKind::Equals),
        _ => true,
    }
}

/// The constraints read off a guard are met by every valuation under which the guard holds:
/// `x >= 3` gives `x` a constraint that every `x` of at least 3 meets, `3 >= x` one that every
/// `x` of at most 3 meets, and so on for each comparison.
pub proof fn law_guard_constraints_hold(e: ExprView, val: spec_fn(usize) -> i64)
    requires
        guard_holds(e, val),
    ensures
        forall|i: int| 0 <= i < guard_constraints(e).len() ==>
            satisfies(val((#[trigger] guard_constraints(e)[i]).0), guard_constraints(e)[i].1),
    decreases e,
{
    match e {
        ExprView::Conjunction(l, r, _) => {
            law_guard_constraints_hold(*l, val);
            law_guard_constraints_hold(*r, val);
            let cl = guard_constraints(*l);
            let cr = guard_constraints(*r);
            assert(guard_constraints(e) == cl + cr);
            assert forall|i: int| 0 <= i < guard_constraints(e).len() implies
                satisfies(val((#[trigger] guard_constraints(e)[i]).0), guard_constraints(e)[i].1) by {
                if i < cl.len() {
                    assert(guard_constraints(e)[i] == cl[i]);
                } else {
                    assert(guard_constraints(e)[i] == cr[i - cl.len()]);
                }
            }
        },
        _ => {},
    }
}

/// The bounds that a guard reports for a variable contain the variable's value under every
/// valuation under which the guard holds.
pub proof fn law_guard_bounds_contain_values(g: GuardConstraints, e: ExprView, val: spec_fn(usize) -> i64)
    requires
        g.describes(e),
        guard_holds(e, val),
    ensures
        forall|k: int| 0 <= k < g.variables@.len() ==> {
            let (v, b) = #[trigger] g.variables@[k];
            &&& (b.lower_bound matches Some(low) ==> low <= val(v))
            &&& (b.upper_bound matches Some(up) ==> val(v) <= up)
        },
{
    let cs = guard_constraints(e);
    law_guard_constraints_hold(e, val);
    assert forall|k: int| 0 <= k < g.variables@.len() implies {
        let (v, b) = #[trigger] g.variables@[k];
        &&& (b.lower_bound matches Some(low) ==> low <= val(v))
        &&& (b.upper_bound matches Some(up) ==> val(v) <= up)
    } by {
        let v = g.variables@[k].0;
        let own = constraints_of(cs, v);
        lemma_constraints_of_satisfied(cs, v, val(v));
        law_bounds_contain_satisfying_values(own, val(v));
    }
}

proof fn lemma_constraints_of_satisfied(cs: Seq<(usize, Constraint)>, v: usize, x: i64)
    requires
        forall|i: int| 0 <= i < cs.len() && (#[trigger] cs[i]).0 == v ==> satisfies(x, cs[i].1),
    ensures
        forall|i: int| 0 <= i < constraints_of(cs, v).len() ==> satisfies(x, #[trigger] constraints_of(cs, v)[i]),
    decreases cs.len(),
{
    if cs.len() > 0 {
        let rest = cs.drop_last();
        assert forall|i: int| 0 <= i < rest.len() && (#[trigger] rest[i]).0 == v implies satisfies(x, rest[i].1) by {
            assert(rest[i] == cs[i]);
        }
        lemma_constraints_of_satisfied(rest, v, x);
        let prev = constraints_of(rest, v);
        if cs.last().0 == v {
            assert(cs[cs.len() - 1].0 == v);
            assert forall|i: int| 0 <= i < constraints_of(cs, v).len() implies satisfies(x, #[trigger] constraints_of(cs, v)[i]) by {
                if i < prev.len() {
                    assert(constraints_of(cs, v)[i] == prev[i]);
                }
            }
        }
    }
}

/// A lower and an upper bound; an end of the `i64` range stands for no bound.
#[derive(Clone, Copy, PartialEq, Eq, Debug)]
pub struct VariableBounds {
    pub lower_bound: Option<i64>,
    pub upper_bound: Option<i64>,
}

/// The bounds that a list of constraints gives.
pub open spec fn bounds_of(cs: Seq<Constraint>) -> VariableBounds {
    let (l, u) = folded_bounds(cs);
    VariableBounds {
        lower_bound: if l == i64::MIN { None } else { Some(l) },
        upper_bound: if u == i64::MAX { None } else { Some(u) },
    }
}

impl VariableBounds {
    pub fn from_variable_constraints(constraints: &VariableConstraints) -> (r: VariableBounds)
        ensures
            r == bounds_of(constraints.constraints@),
    {
        let mut lower_bound: i64 = i64::MIN;
        let mut upper_bound: i64 = i64::MAX;
        let cs = &constraints.constraints;
        let mut i: usize = 0;
        while i < cs.len()
            invariant
                i <= cs@.len(),
                (lower_bound, upper_bound) == folded_bounds(cs@.subrange(0, i as int)),
            decreases cs.len() - i,
        {
            assert(cs@.subrange(0, i + 1).drop_last() == cs@.subrange(0, i as int));
            match cs[i] {
                Constraint::LessThan(v) => {
                    let w = v.wrapping_sub(1);
                    if w < upper_bound { upper_bound = w; }
                },
                Constraint::LessOrEqual(v) => {
                    if v < upper_bound { upper_bound = v; }
                },
                Constraint::GreaterThan(v) => {
                    let w = v.wrapping_add(1);
                    if w > lower_bound { lower_bound = w; }
                },
                Constraint::GreaterOrEqual(v) => {
                    if v > lower_bound { lower_bound = v; }
                },
                Constraint::Equals(v) => {
                    lower_bound = v;
                    upper_bound = v;
                },
            }
            i += 1;
        }
        assert(cs@.subrange(0, cs@.len() as int) == cs@);
        VariableBounds {
            lower_bound: if lower_bound == i64::MIN { None } else { Some(lower_bound) },
            upper_bound: if upper_bound == i64::MAX { None } else { Some(upper_bound) },
        }
    }
}

/// The bounds that the guard of a command puts on each variable it compares with an integer
/// literal: one entry per variable.
pub struct GuardConstraints {
    pub variables: Vec<(usize, VariableBounds)>,
}

/// `b` with the bounds of `vb` applied.
pub open spec fn tighten(b: PermissibleBounds, vb: VariableBounds) -> PermissibleBounds {
    let b1 = match vb.lower_bound {
        Some(m) => PermissibleBounds::IntegerRange { min: max_i64(b->min, m), max: b->max },
        None => b,
    };
    match vb.upper_bound {
        Some(m) => PermissibleBounds::IntegerRange { min: b1->min, max: min_i64(b1->max, m) },
        None => b1,
    }
}

/// Whether `vb` can be applied to the range of variable `v`: it bounds nothing, or `v` has
/// an integer range.
pub open spec fn applicable(ranges: Seq<PermissibleBounds>, v: usize, vb: VariableBounds) -> bool {
    (vb.lower_bound is Some || vb.upper_bound is Some) ==> (v < ranges.len() && ranges[v as int] is IntegerRange)
}

impl GuardConstraints {
    /// The exact bounds the guard gives each variable it constrains.
    pub open spec fn describes(&self, guard: ExprView) -> bool {
        let cs = guard_constraints(guard);
        &&& distinct_keys(self.variables@)
        &&& forall|i: int| 0 <= i < self.variables@.len() ==>
                #[trigger] self.variables@[i].1 == bounds_of(constraints_of(cs, self.variables@[i].0))
                && constrains(cs, self.variables@[i].0)
        &&& forall|v: usize| constrains(cs, v) ==>
                exists|i: int| 0 <= i < self.variables@.len() && #[trigger] self.variables@[i].0 == v
    }

    /// Collects the bounds that a guard puts on variables.
    pub fn from_expression(expression: &Expression) -> (r: GuardConstraints)
        ensures
            r.describes(expression@),
    {
        let mut constraints = VariablesConstraints::new();
        Self::collect_constraints(expression, &mut constraints);
        assert(constraints.seen@ =~= guard_constraints(expression@));
        let ghost cs = constraints.seen@;
        let mut variables: Vec<(usize, VariableBounds)> = Vec::new();
        let mut i: usize = 0;
        while i < constraints.variables.len()
            invariant
                constraints.wf(),
                constraints.seen@ == cs,
                i <= constraints.variables@.len(),
                variables@.len() == i,
                forall|j: int| 0 <= j < i ==> #[trigger] variables@[j].0 == constraints.variables@[j].0
                    && variables@[j].1 == bounds_of(constraints.variables@[j].1.constraints@),
            decreases constraints.variables.len() - i,
        {
            let b = VariableBounds::from_variable_constraints(&constraints.variables[i].1);
            variables.push((constraints.variables[i].0, b));
            i += 1;
        }
        let r = GuardConstraints { variables };
        proof {
            assert forall|a: int, b: int| 0 <= a < r.variables@.len() && 0 <= b < r.variables@.len() && a != b
                implies #[trigger] r.variables@[a].0 != #[trigger] r.variables@[b].0 by {
                assert(constraints.variables@[a].0 != constraints.variables@[b].0);
            }
            assert forall|k: int| 0 <= k < r.variables@.len() implies
                #[trigger] r.variables@[k].1 == bounds_of(constraints_of(cs, r.variables@[k].0))
                && constrains(cs, r.variables@[k].0) by {
                assert(constraints.variables@[k].1.constraints@ == constraints_of(cs, constraints.variables@[k].0));
            }
            assert forall|v: usize| constrains(cs, v) implies
                exists|k: int| 0 <= k < r.variables@.len() && #[trigger] r.variables@[k].0 == v by {
                let k = choose|k: int| 0 <= k < constraints.variables@.len() && #[trigger] constraints.variables@[k].0 == v;
                assert(r.variables@[k].0 == v);
            }
        }
        r
    }

    fn collect_constraints(expression: &Expression, constraints: &mut VariablesConstraints)
        requires
            old(constraints).wf(),
        ensures
            final(constraints).wf(),
            final(constraints).seen@ == old(constraints).seen@ + guard_constraints(expression@),
        decreases expression,
    {
        let found = match expression {
            Expression::Conjunction(left, right, _) => {
                Self::collect_constraints(left, constraints);
                Self::collect_constraints(right, constraints);
                assert(final(constraints).seen@ =~= old(constraints).seen@ + guard_constraints(expression@));
                return;
            },
            Expression::LessThan(lhs, rhs, _) => Self::construct_constraint(lhs, rhs, ConstraintKind::LessThan, ConstraintKind::GreaterThan),
            Expression::LessOrEqual(lhs, rhs, _) => Self::construct_constraint(lhs, rhs, ConstraintKind::LessOrEqual, ConstraintKind::GreaterOrEqual),
            Expression::GreaterThan(lhs, rhs, _) => Self::construct_constraint(lhs, rhs, ConstraintKind::GreaterThan, ConstraintKind::LessThan),
            Expression::GreaterOrEqual(lhs, rhs, _) => Self::construct_constraint(lhs, rhs, ConstraintKind::GreaterOrEqual, ConstraintKind::LessOrEqual),
            Expression::Equals(lhs, rhs, _) => Self::construct_constraint(lhs, rhs, ConstraintKind::Equals, ConstraintKind::Equals),
            _ => None,
        };
        match found {
            Some((v, c)) => {
                constraints.add_constraint(v, c);
                assert(final(constraints).seen@ =~= old(constraints).seen@ + guard_constraints(expression@));
            },
            None => {
                assert(old(constraints).seen@ =~= old(constraints).seen@ + guard_constraints(expression@));
            },
        }
    }

    fn construct_constraint(
        lhs: &Expression,
        rhs: &Expression,
        kind: ConstraintKind,
        reverse: ConstraintKind,
    ) -> (r: Option<(VariableReference, Constraint)>)
        ensures
            r matches Some((v, c)) ==> comparison_constraint(lhs@, rhs@, kind, reverse) == Some((v.index, c)),
            r is None ==> comparison_constraint(lhs@, rhs@, kind, reverse) is None,
    {
        if let Expression::VarOrConst(var, _) = lhs {
            if let Expression::Int(val, _) = rhs {
                return Some((*var, constraint_of_kind(kind, *val)));
            }
        }
        if let Expression::VarOrConst(var, _) = rhs {
            if let Expression::Int(val, _) = lhs {
                return Some((*var, constraint_of_kind(reverse, *val)));
            }
        }
        None
    }

    /// The variable ranges with the bounds of this guard applied; refused where the guard
    /// bounds a variable whose range is not a known integer range, naming the smallest such
    /// variable.
    pub fn apply_to_variable_ranges(&self, variable_bounds: &VariableRanges) -> (r: Result<VariableRanges, RepairError>)
        requires
            distinct_keys(self.variables@),
        ensures
            r is Ok <==> forall|k: int| 0 <= k < self.variables@.len() ==>
                #[trigger] applicable(variable_bounds.bounds@, self.variables@[k].0, self.variables@[k].1),
            r matches Ok(res) ==> res.bounds@.len() == variable_bounds.bounds@.len()
                && forall|i: int| 0 <= i < res.bounds@.len() ==> {
                    &&& (forall|k: int| 0 <= k < self.variables@.len() && #[trigger] self.variables@[k].0 == i
                            ==> res.bounds@[i] == tighten(variable_bounds.bounds@[i], self.variables@[k].1))
                    &&& (!(exists|k: int| 0 <= k < self.variables@.len() && #[trigger] self.variables@[k].0 == i)
                            ==> #[trigger] res.bounds@[i] == variable_bounds.bounds@[i])
                },
            r matches Err(e) ==> exists|k: int| 0 <= k < self.variables@.len()
                && !#[trigger] applicable(variable_bounds.bounds@, self.variables@[k].0, self.variables@[k].1)
                && e == (RepairError::VariableWithoutIntegerBounds { variable: VariableReference { index: self.variables@[k].0 } })
                && forall|j: int| 0 <= j < self.variables@.len()
                    && !#[trigger] applicable(variable_bounds.bounds@, self.variables@[j].0, self.variables@[j].1)
                    ==> self.variables@[k].0 <= self.variables@[j].0,
    {
        let orig = &variable_bounds.bounds;
        let mut res: Vec<PermissibleBounds> = orig.clone();
        assert(res@ =~= orig@);
        let entries = &self.variables;
        let mut worst: Option<usize> = None;
        let ghost mut worst_k: int = 0;
        let mut k: usize = 0;
        while k < entries.len()
            invariant
                k <= entries@.len(),
                entries@ == self.variables@,
                orig@ == variable_bounds.bounds@,
                distinct_keys(entries@),
                res@.len() == orig@.len(),
                worst is None <==> forall|j: int| 0 <= j < k ==> #[trigger] applicable(orig@, entries@[j].0, entries@[j].1),
                worst matches Some(w) ==> 0 <= worst_k < k && entries@[worst_k].0 == w
                    && !applicable(orig@, entries@[worst_k].0, entries@[worst_k].1)
                    && forall|j: int| 0 <= j < k && !#[trigger] applicable(orig@, entries@[j].0, entries@[j].1) ==> w <= entries@[j].0,
                worst is None ==> forall|i: int| 0 <= i < res@.len() ==> {
                    &&& (forall|j: int| 0 <= j < k && #[trigger] entries@[j].0 == i
                            ==> res@[i] == tighten(orig@[i], entries@[j].1))
                    &&& (!(exists|j: int| 0 <= j < k && #[trigger] entries@[j].0 == i)
                            ==> #[trigger] res@[i] == orig@[i])
                },
            decreases entries.len() - k,
        {
            let (v, vb) = entries[k];
            if vb.lower_bound.is_some() || vb.upper_bound.is_some() {
                let usable = v < res.len() && matches!(orig[v], PermissibleBounds::IntegerRange { .. });
                if !usable {
                    assert(!applicable(orig@, entries@[k as int].0, entries@[k as int].1));
                    match worst {
                        Some(w) => {
                            if v < w {
                                worst = Some(v);
                                proof { worst_k = k as int; }
                            }
                        },
                        None => {
                            worst = Some(v);
                            proof { worst_k = k as int; }
                        },
                    }
                    k += 1;
                    continue;
                }
                if worst.is_none() {
                    let mut b = res[v];
                    proof {
                        assert(!(exists|j: int| 0 <= j < k && #[trigger] entries@[j].0 == v)) by {
                            if exists|j: int| 0 <= j < k && #[trigger] entries@[j].0 == v {
                                let j = choose|j: int| 0 <= j < k && #[trigger] entries@[j].0 == v;
                                assert(entries@[j].0 != entries@[k as int].0);
                            }
                        }
                    }
                    if let Some(min) = vb.lower_bound {
                        b.add_min_int_constraint(min);
                    }
                    if let Some(max) = vb.upper_bound {
                        b.add_max_int_constraint(max);
                    }
                    res.set(v, b);
                }
            }
            proof {
                if worst is None {
                    assert forall|i: int| 0 <= i < res@.len() implies {
                        &&& (forall|j: int| 0 <= j < k + 1 && #[trigger] entries@[j].0 == i
                                ==> res@[i] == tighten(orig@[i], entries@[j].1))
                        &&& (!(exists|j: int| 0 <= j < k + 1 && #[trigger] entries@[j].0 == i)
                                ==> #[trigger] res@[i] == orig@[i])
                    } by {
                        if i == v {
                            assert forall|j: int| 0 <= j < k + 1 && #[trigger] entries@[j].0 == i
                                implies res@[i] == tighten(orig@[i], entries@[j].1) by {
                                if j < k {
                                    assert(entries@[j].0 != entries@[k as int].0);
                                }
                            }
                            assert(entries@[k as int].0 == i);
                        } else {
                            assert forall|j: int| 0 <= j < k + 1 && #[trigger] entries@[j].0 == i
                                implies res@[i] == tighten(orig@[i], entries@[j].1) by {
                                assert(j < k);
                            }
                            if exists|j: int| 0 <= j < k + 1 && #[trigger] entries@[j].0 == i {
                                let j = choose|j: int| 0 <= j < k + 1 && #[trigger] entries@[j].0 == i;
                                assert(j < k);
                            }
                        }
                    }
                }
            }
            k += 1;
        }
        match worst {
            Some(w) => Err(RepairError::VariableWithoutIntegerBounds { variable: VariableReference { index: w } }),
            None => Ok(VariableRanges { bounds: res }),
        }
    }
}

} // verus!
