use vstd::prelude::*;
use crate::prism::expression::{children, Span, lemma_children, lemma_views, views, with_children, Expression, ExprView, VariableReference};
use crate::prism::model::{Model, ModelView};

verus! {

/// The way from an expression down to one of its subexpressions: at each step, the index of
/// the child to enter.
pub enum SubExpression {
    Here,
    Child { index: usize, child_navigation: Box<SubExpression> },
}

impl SubExpression {
    /// The child indices along the way.
    pub open spec fn path(&self) -> Seq<usize>
        decreases *self,
    {
        match self {
            SubExpression::Here => Seq::empty(),
            SubExpression::Child { index, child_navigation } => seq![*index] + child_navigation.path(),
        }
    }

    /// The way into child `index` and no further.
    pub fn child_then_here(index: usize) -> (r: SubExpression)
        ensures
            r@ == seq![index],
    {
        let here = SubExpression::Here;
        assert(here@ =~= Seq::<usize>::empty());
        let r = SubExpression::Child { index, child_navigation: Box::new(here) };
        assert(r@ =~= seq![index]);
        r
    }

    /// This way, followed by `then`.
    pub fn and_then(&self, then: SubExpression) -> (r: SubExpression)
        ensures
            r@ == self@ + then@,
        decreases self,
    {
        match self {
            SubExpression::Here => {
                assert(then@ =~= self@ + then@);
                then
            },
            SubExpression::Child { index, child_navigation } => {
                let rest = child_navigation.and_then(then);
                let r = SubExpression::Child { index: *index, child_navigation: Box::new(rest) };
                assert(r@ =~= self@ + then@);
                r
            },
        }
    }
}

impl View for SubExpression {
    type V = Seq<usize>;

    open spec fn view(&self) -> Seq<usize> {
        self.path()
    }
}

impl Clone for SubExpression {
    fn clone(&self) -> (res: Self)
        ensures
            res@ == self@,
        decreases self,
    {
        match self {
            SubExpression::Here => SubExpression::Here,
            SubExpression::Child { index, child_navigation } => {
                let inner = (**child_navigation).clone();
                SubExpression::Child { index: *index, child_navigation: Box::new(inner) }
            },
        }
    }
}

/// The subexpression at the end of `path`, if every step names an existing child.
pub open spec fn sub_at(e: ExprView, path: Seq<usize>) -> Option<ExprView>
    decreases path.len(),
{
    if path.len() == 0 {
        Some(e)
    } else if path[0] < children(e).len() {
        sub_at(children(e)[path[0] as int], path.drop_first())
    } else {
        None
    }
}

/// The expression with the subexpression at the end of `path` replaced by `x`.
pub open spec fn replaced_at(e: ExprView, path: Seq<usize>, x: ExprView) -> ExprView
    decreases path.len(),
{
    if path.len() == 0 {
        x
    } else if path[0] < children(e).len() {
        with_children(e, children(e).update(path[0] as int, replaced_at(children(e)[path[0] as int], path.drop_first(), x)))
    } else {
        e
    }
}

/// What exploring an expression visits: the expression itself with the way to it, then
/// each child in turn. The way to a child of a function call extends the way to the call;
/// the way to a child of any other expression is that child's index alone.
pub open spec fn explored(e: ExprView, way: Seq<usize>) -> Seq<(ExprView, Seq<usize>)>
    decreases e, 1nat, 0nat,
{
    let base = match e {
        ExprView::Function(..) => way,
        _ => Seq::empty(),
    };
    seq![(e, way)] + explored_children(e, children(e).len(), base)
}

/// What exploring the first `count` children of `parent` visits, each reached by `base`
/// followed by its index.
pub open spec fn explored_children(parent: ExprView, count: nat, base: Seq<usize>) -> Seq<(ExprView, Seq<usize>)>
    decreases parent, 0nat, count,
{
    if count == 0 || count > children(parent).len() {
        Seq::empty()
    } else {
        proof { lemma_children(parent); }
        explored_children(parent, (count - 1) as nat, base)
            + explored(children(parent)[count - 1], base.push((count - 1) as usize))
    }
}

/// The views of visited pairs.
pub open spec fn visit_views(s: Seq<(Expression, SubExpression)>) -> Seq<(ExprView, Seq<usize>)> {
    s.map_values(|p: (Expression, SubExpression)| (p.0@, p.1@))
}

/// The empty way leads to the expression itself.
pub proof fn law_get_here(e: ExprView)
    ensures
        sub_at(e, Seq::empty()) == Some(e),
{
}

/// Following one way and then another is following their concatenation.
pub proof fn law_get_and_then(e: ExprView, first: Seq<usize>, then: Seq<usize>)
    ensures
        sub_at(e, first + then) == match sub_at(e, first) {
            Some(x) => sub_at(x, then),
            None => None,
        },
    decreases first.len(),
{
    if first.len() == 0 {
        assert(first + then =~= then);
    } else {
        assert((first + then)[0] == first[0]);
        assert((first + then).drop_first() =~= first.drop_first() + then);
        if first[0] < children(e).len() {
            law_get_and_then(children(e)[first[0] as int], first.drop_first(), then);
        }
    }
}

/// After replacing the subexpression at an existing way, that way leads to the replacement.
pub proof fn law_get_after_replace(e: ExprView, path: Seq<usize>, x: ExprView)
    requires
        sub_at(e, path) is Some,
    ensures
        sub_at(replaced_at(e, path, x), path) == Some(x),
    decreases path.len(),
{
    if path.len() > 0 {
        let i = path[0] as int;
        let cs = children(e);
        let new_child = replaced_at(cs[i], path.drop_first(), x);
        lemma_children(e);
        assert(cs.update(i, new_child).len() == cs.len());
        assert(children(with_children(e, cs.update(i, new_child))) == cs.update(i, new_child));
        law_get_after_replace(cs[i], path.drop_first(), x);
    }
}

/// Replacing the subexpression at an existing way leaves every way that branches off it
/// (neither way begins with the other) leading where it led before.
pub proof fn law_replace_keeps_other_ways(e: ExprView, path: Seq<usize>, other: Seq<usize>, x: ExprView)
    requires
        sub_at(e, path) is Some,
        !path.is_prefix_of(other),
        !other.is_prefix_of(path),
    ensures
        sub_at(replaced_at(e, path, x), other) == sub_at(e, other),
    decreases path.len(),
{
    if path.len() == 0 {
        assert(path.is_prefix_of(other)) by {
            assert(path =~= other.subrange(0, 0));
        }
    } else if other.len() == 0 {
        assert(other.is_prefix_of(path)) by {
            assert(other =~= path.subrange(0, 0));
        }
    } else {
        let i = path[0] as int;
        let cs = children(e);
        lemma_children(e);
        let new_child = replaced_at(cs[i], path.drop_first(), x);
        let updated = cs.update(i, new_child);
        assert(updated.len() == cs.len());
        assert(children(with_children(e, updated)) == updated);
        let j = other[0] as int;
        if j != i {
            if j < cs.len() {
                assert(updated[j] == cs[j]);
            }
        } else {
            let p2 = path.drop_first();
            let o2 = other.drop_first();
            if p2.is_prefix_of(o2) {
                assert(path.is_prefix_of(other)) by {
                    assert forall|k: int| 0 <= k < path.len() implies path[k] == other.subrange(0, path.len() as int)[k] by {
                        if k > 0 {
                            assert(p2[k - 1] == o2.subrange(0, p2.len() as int)[k - 1]);
                        }
                    }
                    assert(path =~= other.subrange(0, path.len() as int));
                }
            }
            if o2.is_prefix_of(p2) {
                assert(other.is_prefix_of(path)) by {
                    assert forall|k: int| 0 <= k < other.len() implies other[k] == path.subrange(0, other.len() as int)[k] by {
                        if k > 0 {
                            assert(o2[k - 1] == p2.subrange(0, o2.len() as int)[k - 1]);
                        }
                    }
                    assert(other =~= path.subrange(0, other.len() as int));
                }
            }
            law_replace_keeps_other_ways(cs[i], p2, o2, x);
        }
    }
}

/// Replacing a subexpression by itself leaves the expression unchanged.
pub proof fn law_replace_by_itself(e: ExprView, path: Seq<usize>)
    requires
        sub_at(e, path) is Some,
    ensures
        replaced_at(e, path, sub_at(e, path).unwrap()) == e,
    decreases path.len(),
{
    if path.len() > 0 {
        let i = path[0] as int;
        let cs = children(e);
        lemma_children(e);
        law_replace_by_itself(cs[i], path.drop_first());
        assert(cs.update(i, cs[i]) =~= cs);
    }
}

impl Expression {
    /// The direct subexpression number `index`, if there is one.
    pub fn child(&self, index: usize) -> (r: Option<&Expression>)
        ensures
            index < children(self@).len() ==> r is Some && r.unwrap()@ == children(self@)[index as int],
            index >= children(self@).len() ==> r is None,
    {
        match self {
            Expression::Int(..) | Expression::Float(..) | Expression::Bool(..) | Expression::VarOrConst(..)
            | Expression::Label(..) => None,
            Expression::Function(_, args, _) => {
                proof { lemma_views(args@); }
                if index < args.len() { Some(&args[index]) } else { None }
            },
            Expression::Minus(inner, _) | Expression::Negation(inner, _) => {
                if index == 0 { Some(&**inner) } else { None }
            },
            Expression::Multiplication(lhs, rhs, _) | Expression::Division(lhs, rhs, _)
            | Expression::Addition(lhs, rhs, _) | Expression::Subtraction(lhs, rhs, _)
            | Expression::LessThan(lhs, rhs, _) | Expression::LessOrEqual(lhs, rhs, _)
            | Expression::GreaterThan(lhs, rhs, _) | Expression::GreaterOrEqual(lhs, rhs, _)
            | Expression::Equals(lhs, rhs, _) | Expression::NotEquals(lhs, rhs, _)
            | Expression::Conjunction(lhs, rhs, _) | Expression::Disjunction(lhs, rhs, _)
            | Expression::IfAndOnlyIf(lhs, rhs, _) | Expression::Implies(lhs, rhs, _) => {
                if index == 0 {
                    Some(&**lhs)
                } else if index == 1 {
                    Some(&**rhs)
                } else {
                    None
                }
            },
            Expression::Ternary(guard, lhs, rhs, _) => {
                if index == 0 {
                    Some(&**guard)
                } else if index == 1 {
                    Some(&**lhs)
                } else if index == 2 {
                    Some(&**rhs)
                } else {
                    None
                }
            },
        }
    }

    /// The subexpression that `sub_expression` leads to, if it exists.
    pub fn get(&self, sub_expression: &SubExpression) -> (r: Option<&Expression>)
        ensures
            match sub_at(self@, sub_expression@) {
                Some(x) => r is Some && r.unwrap()@ == x,
                None => r is None,
            },
        decreases sub_expression,
    {
        match sub_expression {
            SubExpression::Here => Some(self),
            SubExpression::Child { index, child_navigation } => {
                assert(sub_expression@.drop_first() =~= child_navigation@);
                match self.child(*index) {
                    Some(c) => c.get(child_navigation),
                    None => None,
                }
            },
        }
    }

    /// Replaces the subexpression that `sub_expression` leads to, which must exist.
    pub fn replace(&mut self, sub_expression: &SubExpression, replacement: Expression)
        requires
            sub_at(old(self)@, sub_expression@) is Some,
        ensures
            final(self)@ == replaced_at(old(self)@, sub_expression@, replacement@),
    {
        let mut taken = Expression::Bool(false, Span { start: 0, end: 0 });
        core::mem::swap(self, &mut taken);
        *self = replaced(taken, sub_expression, replacement);
    }

    /// Every subexpression with the way to it, this expression first, as [`explored`] says.
    pub fn explore(&self) -> (r: Vec<(Expression, SubExpression)>)
        ensures
            visit_views(r@) == explored(self@, Seq::empty()),
    {
        let mut visited: Vec<(Expression, SubExpression)> = Vec::new();
        self.explore_internal(&mut visited, SubExpression::Here);
        assert(visit_views(visited@) =~= explored(self@, Seq::empty()));
        visited
    }

    /// Appends what exploring this expression, reached by `navigation_to_self`, visits.
    pub fn explore_internal(&self, visited: &mut Vec<(Expression, SubExpression)>, navigation_to_self: SubExpression)
        ensures
            visit_views(final(visited)@) == visit_views(old(visited)@) + explored(self@, navigation_to_self@),
        decreases self@,
    {
        let ghost before = visit_views(visited@);
        let ghost e = self@;
        let ghost way = navigation_to_self@;
        proof { lemma_children(e); }
        let is_function = match self { Expression::Function(..) => true, _ => false };
        let ghost base = if is_function { way } else { Seq::<usize>::empty() };
        let own = navigation_to_self.clone();
        visited.push((self.clone(), own));
        assert(visit_views(visited@) =~= before + seq![(e, way)]);
        let count = self.child_count();
        let mut i: usize = 0;
        while i < count
            invariant
                count == children(e).len(),
                i <= count,
                e == self@,
                way == navigation_to_self@,
                base == (if is_function { way } else { Seq::<usize>::empty() }),
                forall|j: int| 0 <= j < children(e).len() ==> decreases_to!(e => #[trigger] children(e)[j]),
                visit_views(visited@) == before + seq![(e, way)] + explored_children(e, i as nat, base),
            decreases count - i,
        {
            let child = self.child(i).unwrap();
            proof { assert(decreases_to!(e => child@)); }
            let step = SubExpression::child_then_here(i);
            let nav = if is_function { navigation_to_self.and_then(step) } else { step };
            assert(nav@ =~= base.push(i));
            child.explore_internal(visited, nav);
            proof {
                assert(explored_children(e, (i + 1) as nat, base)
                    == explored_children(e, i as nat, base) + explored(children(e)[i as int], base.push(i)));
                assert(visit_views(visited@) =~= before + seq![(e, way)] + explored_children(e, (i + 1) as nat, base));
            }
            i += 1;
        }
        assert(visit_views(visited@) =~= before + explored(e, way));
    }

    /// How many direct subexpressions this expression has.
    pub fn child_count(&self) -> (n: usize)
        ensures
            n == children(self@).len(),
    {
        match self {
            Expression::Int(..) | Expression::Float(..) | Expression::Bool(..) | Expression::VarOrConst(..)
            | Expression::Label(..) => 0,
            Expression::Function(_, args, _) => {
                proof { lemma_views(args@); }
                args.len()
            },
            Expression::Minus(..) | Expression::Negation(..) => 1,
            Expression::Ternary(..) => 3,
            _ => 2,
        }
    }
}

    /// `expression` with the subexpression that `sub_expression` leads to replaced, as
/// [`replaced_at`] says.
fn replaced(expression: Expression, sub_expression: &SubExpression, replacement: Expression) -> (r: Expression)
    requires
        sub_at(expression@, sub_expression@) is Some,
    ensures
        r@ == replaced_at(expression@, sub_expression@, replacement@),
    decreases sub_expression,
{
    let ghost before = expression@;
    let (index, child_navigation) = match sub_expression {
        SubExpression::Here => return replacement,
        SubExpression::Child { index, child_navigation } => (*index, child_navigation),
    };
    assert(sub_expression@.drop_first() =~= child_navigation@);
    proof { lemma_children(before); }
    match expression {
        Expression::Function(name, mut args, s) => {
            proof { lemma_views(args@); }
            let ghost old_args = args@;
            let child = args.remove(index);
            let new_child = replaced(child, child_navigation, replacement);
            args.insert(index, new_child);
            proof {
                lemma_views(args@);
                assert(views(args@) =~= views(old_args).update(index as int, new_child@));
            }
            Expression::Function(name, args, s)
        },
        Expression::Minus(inner, s) => {
            let r = Expression::Minus(Box::new(replaced(*inner, child_navigation, replacement)), s);
            assert(children(before).update(0, children(r@)[0]) =~= children(r@));
            r
        },
        Expression::Negation(inner, s) => {
            let r = Expression::Negation(Box::new(replaced(*inner, child_navigation, replacement)), s);
            assert(children(before).update(0, children(r@)[0]) =~= children(r@));
            r
        },
            Expression::Multiplication(lhs, rhs, s) => {
                if index == 0 {
                    Expression::Multiplication(Box::new(replaced(*lhs, child_navigation, replacement)), rhs, s)
                } else {
                    Expression::Multiplication(lhs, Box::new(replaced(*rhs, child_navigation, replacement)), s)
                }
            },
            Expression::Division(lhs, rhs, s) => {
                if index == 0 {
                    Expression::Division(Box::new(replaced(*lhs, child_navigation, replacement)), rhs, s)
                } else {
                    Expression::Division(lhs, Box::new(replaced(*rhs, child_navigation, replacement)), s)
                }
            },
            Expression::Addition(lhs, rhs, s) => {
                if index == 0 {
                    Expression::Addition(Box::new(replaced(*lhs, child_navigation, replacement)), rhs, s)
                } else {
                    Expression::Addition(lhs, Box::new(replaced(*rhs, child_navigation, replacement)), s)
                }
            },
            Expression::Subtraction(lhs, rhs, s) => {
                if index == 0 {
                    Expression::Subtraction(Box::new(replaced(*lhs, child_navigation, replacement)), rhs, s)
                } else {
                    Expression::Subtraction(lhs, Box::new(replaced(*rhs, child_navigation, replacement)), s)
                }
            },
            Expression::LessThan(lhs, rhs, s) => {
                if index == 0 {
                    Expression::LessThan(Box::new(replaced(*lhs, child_navigation, replacement)), rhs, s)
                } else {
                    Expression::LessThan(lhs, Box::new(replaced(*rhs, child_navigation, replacement)), s)
                }
            },
            Expression::LessOrEqual(lhs, rhs, s) => {
                if index == 0 {
                    Expression::LessOrEqual(Box::new(replaced(*lhs, child_navigation, replacement)), rhs, s)
                } else {
                    Expression::LessOrEqual(lhs, Box::new(replaced(*rhs, child_navigation, replacement)), s)
                }
            },
            Expression::GreaterThan(lhs, rhs, s) => {
                if index == 0 {
                    Expression::GreaterThan(Box::new(replaced(*lhs, child_navigation, replacement)), rhs, s)
                } else {
                    Expression::GreaterThan(lhs, Box::new(replaced(*rhs, child_navigation, replacement)), s)
                }
            },
            Expression::GreaterOrEqual(lhs, rhs, s) => {
                if index == 0 {
                    Expression::GreaterOrEqual(Box::new(replaced(*lhs, child_navigation, replacement)), rhs, s)
                } else {
                    Expression::GreaterOrEqual(lhs, Box::new(replaced(*rhs, child_navigation, replacement)), s)
                }
            },
            Expression::Equals(lhs, rhs, s) => {
                if index == 0 {
                    Expression::Equals(Box::new(replaced(*lhs, child_navigation, replacement)), rhs, s)
                } else {
                    Expression::Equals(lhs, Box::new(replaced(*rhs, child_navigation, replacement)), s)
                }
            },
            Expression::NotEquals(lhs, rhs, s) => {
                if index == 0 {
                    Expression::NotEquals(Box::new(replaced(*lhs, child_navigation, replacement)), rhs, s)
                } else {
                    Expression::NotEquals(lhs, Box::new(replaced(*rhs, child_navigation, replacement)), s)
                }
            },
            Expression::Conjunction(lhs, rhs, s) => {
                if index == 0 {
                    Expression::Conjunction(Box::new(replaced(*lhs, child_navigation, replacement)), rhs, s)
                } else {
                    Expression::Conjunction(lhs, Box::new(replaced(*rhs, child_navigation, replacement)), s)
                }
            },
            Expression::Disjunction(lhs, rhs, s) => {
                if index == 0 {
                    Expression::Disjunction(Box::new(replaced(*lhs, child_navigation, replacement)), rhs, s)
                } else {
                    Expression::Disjunction(lhs, Box::new(replaced(*rhs, child_navigation, replacement)), s)
                }
            },
            Expression::IfAndOnlyIf(lhs, rhs, s) => {
                if index == 0 {
                    Expression::IfAndOnlyIf(Box::new(replaced(*lhs, child_navigation, replacement)), rhs, s)
                } else {
                    Expression::IfAndOnlyIf(lhs, Box::new(replaced(*rhs, child_navigation, replacement)), s)
                }
            },
            Expression::Implies(lhs, rhs, s) => {
                if index == 0 {
                    Expression::Implies(Box::new(replaced(*lhs, child_navigation, replacement)), rhs, s)
                } else {
                    Expression::Implies(lhs, Box::new(replaced(*rhs, child_navigation, replacement)), s)
                }
            },
        Expression::Ternary(guard, lhs, rhs, s) => {
            if index == 0 {
                Expression::Ternary(Box::new(replaced(*guard, child_navigation, replacement)), lhs, rhs, s)
            } else if index == 1 {
                Expression::Ternary(guard, Box::new(replaced(*lhs, child_navigation, replacement)), rhs, s)
            } else {
                Expression::Ternary(guard, lhs, Box::new(replaced(*rhs, child_navigation, replacement)), s)
            }
        },
        other => other,
    }
}

/// Which expression of a variable declaration is meant.
#[derive(Clone, Copy, PartialEq, Eq, Debug)]
pub enum VariableComponent {
    InitialValue,
}

/// Which expression of an update is meant.
#[derive(Clone, Copy, PartialEq, Eq, Debug)]
pub enum UpdateComponent {
    Probability,
    Assignment { index: usize },
}

/// Which expression of a command is meant.
#[derive(Clone, Copy, PartialEq, Eq, Debug)]
pub enum CommandComponent {
    Guard,
    Update { index: usize, component: UpdateComponent },
}

/// Where an expression stands in a model.
#[allow(inconsistent_fields)]
#[derive(Clone, Copy, PartialEq, Eq, Debug)]
pub enum ExpressionLocation {
    Formula { index: usize },
    Label { index: usize },
    VariableDeclaration { reference: VariableReference, component: VariableComponent },
    Command { module_index: usize, command_index: usize, component: CommandComponent },
}

/// A subexpression of an expression of a model.
pub struct SubExpressionOfModel {
    pub expression: ExpressionLocation,
    pub sub_expression: SubExpression,
}

/// The expression at a location of a model, if the location exists.
pub open spec fn expression_at(m: ModelView, location: ExpressionLocation) -> Option<ExprView> {
    match location {
        ExpressionLocation::Formula { index } =>
            if index < m.formulas.len() { Some(m.formulas[index as int].condition) } else { None },
        ExpressionLocation::Label { index } =>
            if index < m.labels.len() { Some(m.labels[index as int].condition) } else { None },
        ExpressionLocation::VariableDeclaration { reference, component: VariableComponent::InitialValue } =>
            if reference.index < m.variables.len() { m.variables[reference.index as int].initial_value } else { None },
        ExpressionLocation::Command { module_index, command_index, component } =>
            if module_index < m.modules.len() && command_index < m.modules[module_index as int].commands.len() {
                let command = m.modules[module_index as int].commands[command_index as int];
                match component {
                    CommandComponent::Guard => Some(command.guard),
                    CommandComponent::Update { index, component } =>
                        if index < command.updates.len() {
                            let update = command.updates[index as int];
                            match component {
                                UpdateComponent::Probability => Some(update.probability),
                                UpdateComponent::Assignment { index: a } =>
                                    if a < update.assignments.len() { Some(update.assignments[a as int].value) } else { None },
                            }
                        } else {
                            None
                        },
                }
            } else {
                None
            },
    }
}

impl Model {
    /// The expression at `location`, as [`expression_at`] says.
    pub fn get_expression(&self, location: &ExpressionLocation) -> (r: Option<&Expression>)
        ensures
            match expression_at(self@, *location) {
                Some(x) => r is Some && r.unwrap()@ == x,
                None => r is None,
            },
    {
        match location {
            ExpressionLocation::Formula { index } => {
                if *index < self.formulas.len() { Some(&self.formulas[*index].condition) } else { None }
            },
            ExpressionLocation::Label { index } => {
                if *index < self.labels.len() { Some(&self.labels[*index].condition) } else { None }
            },
            ExpressionLocation::VariableDeclaration { reference, component } => {
                let variables = &self.variable_manager.variables;
                if reference.index < variables.len() {
                    match component {
                        VariableComponent::InitialValue => match &variables[reference.index].initial_value {
                            Some(v) => Some(v),
                            None => None,
                        },
                    }
                } else {
                    None
                }
            },
            ExpressionLocation::Command { module_index, command_index, component } => {
                if *module_index >= self.modules.len() || *command_index >= self.modules[*module_index].commands.len() {
                    return None;
                }
                let command = &self.modules[*module_index].commands[*command_index];
                match component {
                    CommandComponent::Guard => Some(&command.guard),
                    CommandComponent::Update { index, component } => {
                        if *index >= command.updates.len() {
                            return None;
                        }
                        let update = &command.updates[*index];
                        match component {
                            UpdateComponent::Probability => Some(&update.probability),
                            UpdateComponent::Assignment { index: a } => {
                                if *a < update.assignments.len() { Some(&update.assignments[*a].value) } else { None }
                            },
                        }
                    },
                }
            },
        }
    }
}

} // verus!
