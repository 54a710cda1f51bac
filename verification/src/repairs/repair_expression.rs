use vstd::prelude::*;
use vstd::wrapping::i64_specs;
use crate::context::permissible_bounds::{divided_bounds, law_divided_bounds_are_preimage, mapped_bounds, negated_bounds, within, PermissibleBounds};
use crate::context::variable_ranges::VariableRanges;
use crate::prism::expression::{binary_operands, lemma_binary_operands_smaller, lemma_views, views, Expression, ExprView, Identifier, Span, VariableReference};
use crate::repairs::error::RepairError;
use crate::repairs::parameters::{parameters_of, RepairParameters};
use crate::repairs::types::{
    lemma_request_names, request, CollectionView, CostFunction, CostValue, FunctionKind, RepairCollection,
    RepairKind, RepairKindView, RepairVariable, RepairView, ONE_BITS,
};
use crate::text::str_eq_string;

verus! {

/// What an expression is known to evaluate to without knowing any variable.
///
/// A floating-point value is held by the bits of its IEEE-754 double.
#[derive(Clone, Copy, PartialEq, Eq, Debug)]
pub enum ConstEvaluationResult {
    Int(i64),
    Float(u64),
    Bool(bool),
    Variable,
}

impl ConstEvaluationResult {
    /// The integer value, if there is one.
    pub fn int_value(&self) -> (r: Option<i64>)
        ensures
            r == (match *self {
                ConstEvaluationResult::Int(v) => Some(v),
                _ => None,
            }),
    {
        match self {
            ConstEvaluationResult::Int(v) => Some(*v),
            _ => None,
        }
    }

    /// The bits of the floating-point value, if there is one.
    pub fn float(&self) -> (r: Option<u64>)
        ensures
            r == (match *self {
                ConstEvaluationResult::Float(v) => Some(v),
                _ => None,
            }),
    {
        match self {
            ConstEvaluationResult::Float(v) => Some(*v),
            _ => None,
        }
    }

    /// The boolean value, if there is one.
    pub fn bool(&self) -> (r: Option<bool>)
        ensures
            r == (match *self {
                ConstEvaluationResult::Bool(v) => Some(v),
                _ => None,
            }),
    {
        match self {
            ConstEvaluationResult::Bool(v) => Some(*v),
            _ => None,
        }
    }
}

/// The constant value of an expression: a literal is its value, the negation of an
/// integer constant is its (wrapping) negation, the negation of a float constant keeps
/// the float unchanged, and everything else depends on variables.
pub open spec fn const_value(e: ExprView) -> ConstEvaluationResult
    decreases e,
{
    match e {
        ExprView::Int(v, _) => ConstEvaluationResult::Int(v),
        ExprView::Float(v, _) => ConstEvaluationResult::Float(v),
        ExprView::Bool(v, _) => ConstEvaluationResult::Bool(v),
        ExprView::Minus(inner, _) => match const_value(*inner) {
            ConstEvaluationResult::Int(v) => ConstEvaluationResult::Int(i64_specs::wrapping_sub(0, v)),
            ConstEvaluationResult::Float(v) => ConstEvaluationResult::Float(v),
            _ => ConstEvaluationResult::Variable,
        },
        _ => ConstEvaluationResult::Variable,
    }
}

/// Evaluates an expression that does not depend on variables.
pub fn evaluate_const(expression: &Expression) -> (r: ConstEvaluationResult)
    ensures
        r == const_value(expression@),
    decreases expression,
{
    match expression {
        Expression::Int(v, _) => ConstEvaluationResult::Int(*v),
        Expression::Float(v, _) => ConstEvaluationResult::Float(*v),
        Expression::Bool(v, _) => ConstEvaluationResult::Bool(*v),
        Expression::Minus(inner, _) => match evaluate_const(inner) {
            ConstEvaluationResult::Int(v) => ConstEvaluationResult::Int(0i64.wrapping_sub(v)),
            ConstEvaluationResult::Float(v) => ConstEvaluationResult::Float(v),
            _ => ConstEvaluationResult::Variable,
        },
        _ => ConstEvaluationResult::Variable,
    }
}

/// The values an expression is known to take, by the ranges of the variables it reads.
#[derive(Clone, Copy, PartialEq, Eq, Debug)]
pub enum AchievableBounds {
    Unknown,
    Integer { min: i64, max: i64 },
}

/// The values an expression may take: a literal its value, a variable its integer range, a
/// sum the (wrapping) sums of the ends; anything else is unknown. Refused where a variable
/// read on the way has no known integer range.
pub open spec fn achievable(e: ExprView, ranges: Seq<PermissibleBounds>) -> Result<AchievableBounds, RepairError>
    decreases e,
{
    match e {
        ExprView::Int(v, _) => Ok(AchievableBounds::Integer { min: v, max: v }),
        ExprView::VarOrConst(id, _) =>
            if id.index < ranges.len() && ranges[id.index as int] is IntegerRange {
                Ok(AchievableBounds::Integer { min: ranges[id.index as int]->min, max: ranges[id.index as int]->max })
            } else {
                Err(RepairError::VariableWithoutIntegerBounds { variable: id })
            },
        ExprView::Addition(l, r, _) => match achievable(*l, ranges) {
            Err(err) => Err(err),
            Ok(a) => match achievable(*r, ranges) {
                Err(err) => Err(err),
                Ok(b) => match (a, b) {
                    (AchievableBounds::Integer { min: min_l, max: max_l }, AchievableBounds::Integer { min: min_r, max: max_r }) =>
                        Ok(AchievableBounds::Integer {
                            min: i64_specs::wrapping_add(min_l, min_r),
                            max: i64_specs::wrapping_add(max_l, max_r),
                        }),
                    _ => Ok(AchievableBounds::Unknown),
                },
            },
        },
        _ => Ok(AchievableBounds::Unknown),
    }
}

/// Which operands of a binary expression are repaired, with which permissible bounds, and
/// whether the right operand is visited first. An operand without bounds is left as it is.
pub ghost struct Plan {
    pub left: Option<PermissibleBounds>,
    pub right: Option<PermissibleBounds>,
    pub right_first: bool,
}

/// Both operands with unknown bounds, in the given order.
pub open spec fn unknown_plan(right_first: bool) -> Plan {
    Plan { left: Some(PermissibleBounds::Unknown), right: Some(PermissibleBounds::Unknown), right_first }
}

/// How a comparison passes bounds on: where one side has known integer bounds and the other
/// not, the other side may take the values `[min + low, max + high]` of the known side
/// (wrapping); otherwise both sides get unknown bounds. `first` and `second` are the bounds
/// of the side that the comparison reads first and second.
pub open spec fn comparison_plan(
    first: AchievableBounds,
    second: AchievableBounds,
    first_is_left: bool,
    known_first: (i64, i64),
    known_second: (i64, i64),
) -> Plan {
    match (first, second) {
        (AchievableBounds::Integer { min, max }, AchievableBounds::Unknown) => {
            let b = PermissibleBounds::IntegerRange {
                min: i64_specs::wrapping_add(min, known_first.0),
                max: i64_specs::wrapping_add(max, known_first.1),
            };
            if first_is_left { Plan { left: None, right: Some(b), right_first: false } } else { Plan { left: Some(b), right: None, right_first: false } }
        },
        (AchievableBounds::Unknown, AchievableBounds::Integer { min, max }) => {
            let b = PermissibleBounds::IntegerRange {
                min: i64_specs::wrapping_add(min, known_second.0),
                max: i64_specs::wrapping_add(max, known_second.1),
            };
            if first_is_left { Plan { left: Some(b), right: None, right_first: false } } else { Plan { left: None, right: Some(b), right_first: false } }
        },
        _ => unknown_plan(!first_is_left),
    }
}

/// The plan of a comparison whose side `first` is read before side `second`.
pub open spec fn comparison_plan_of(
    first: ExprView,
    second: ExprView,
    ranges: Seq<PermissibleBounds>,
    first_is_left: bool,
    known_first: (i64, i64),
    known_second: (i64, i64),
) -> Result<Plan, RepairError> {
    match achievable(first, ranges) {
        Err(err) => Err(err),
        Ok(a) => match achievable(second, ranges) {
            Err(err) => Err(err),
            Ok(b) => Ok(comparison_plan(a, b, first_is_left, known_first, known_second)),
        },
    }
}

/// How the permissible bounds of a binary expression pass on to its operands.
///
/// * `c * x` and `x * c` (one integer constant): `x` may take the bounds divided by `c`.
/// * `c + x`, `x + c`, `c - x`, `x - c`: `x` may take the bounds moved by `c` (wrapping).
/// * `l < r` (`r > l`): a known side `[min, max]` lets the other side take `[min, max + 1]`
///   (for the right side) or `[min - 1, max]` (for the left side); `<=` (`>=`) the other
///   way round; `=` and `!=` let either side take `[min, max + 1]`.
/// * Anything else: both operands with unknown bounds.
pub open spec fn binary_plan(e: ExprView, bounds: PermissibleBounds, ranges: Seq<PermissibleBounds>) -> Result<Plan, RepairError> {
    match e {
        ExprView::Multiplication(a, b, _) => match (const_value(*a), const_value(*b)) {
            (ConstEvaluationResult::Int(v1), ConstEvaluationResult::Int(_)) => Ok(unknown_plan(false)),
            (ConstEvaluationResult::Int(v1), _) => Ok(Plan { left: None, right: Some(divided_bounds(bounds, v1)), right_first: false }),
            (_, ConstEvaluationResult::Int(v2)) => Ok(Plan { left: Some(divided_bounds(bounds, v2)), right: None, right_first: false }),
            _ => Ok(unknown_plan(false)),
        },
        ExprView::Addition(a, b, _) => match (const_value(*a), const_value(*b)) {
            (ConstEvaluationResult::Int(v1), ConstEvaluationResult::Int(_)) => Ok(unknown_plan(false)),
            (ConstEvaluationResult::Int(v1), _) => Ok(Plan { left: None, right: Some(mapped_bounds(bounds, |x: i64| i64_specs::wrapping_sub(x, v1))), right_first: false }),
            (_, ConstEvaluationResult::Int(v2)) => Ok(Plan { left: Some(mapped_bounds(bounds, |x: i64| i64_specs::wrapping_sub(x, v2))), right: None, right_first: false }),
            _ => Ok(unknown_plan(false)),
        },
        ExprView::Subtraction(a, b, _) => match (const_value(*a), const_value(*b)) {
            (ConstEvaluationResult::Int(v1), ConstEvaluationResult::Int(_)) => Ok(unknown_plan(false)),
            (ConstEvaluationResult::Int(v1), _) => Ok(Plan { left: None, right: Some(mapped_bounds(bounds, |x: i64| i64_specs::wrapping_sub(v1, x))), right_first: false }),
            (_, ConstEvaluationResult::Int(v2)) => Ok(Plan { left: Some(mapped_bounds(bounds, |x: i64| i64_specs::wrapping_add(x, v2))), right: None, right_first: false }),
            _ => Ok(unknown_plan(false)),
        },
        ExprView::LessThan(l, r, _) => comparison_plan_of(*l, *r, ranges, true, (0i64, 1i64), (-1i64, 0i64)),
        ExprView::GreaterThan(l, r, _) => comparison_plan_of(*r, *l, ranges, false, (0i64, 1i64), (-1i64, 0i64)),
        ExprView::LessOrEqual(l, r, _) => comparison_plan_of(*l, *r, ranges, true, (-1i64, 0i64), (0i64, 1i64)),
        ExprView::GreaterOrEqual(l, r, _) => comparison_plan_of(*r, *l, ranges, false, (-1i64, 0i64), (0i64, 1i64)),
        ExprView::Equals(l, r, _) => comparison_plan_of(*l, *r, ranges, true, (0i64, 1i64), (0i64, 1i64)),
        ExprView::NotEquals(l, r, _) => comparison_plan_of(*l, *r, ranges, true, (0i64, 1i64), (0i64, 1i64)),
        _ => Ok(unknown_plan(false)),
    }
}

/// Whether `b` is an integer range holding exactly the `i64` values `v` for which `f(v)`
/// lies within `[low, high]`: the values an operand may take so that the whole expression
/// stays within its bounds.
pub open spec fn passes_preimage(b: Option<PermissibleBounds>, f: spec_fn(int) -> int, low: i64, high: i64) -> bool {
    &&& b matches Some(PermissibleBounds::IntegerRange { min, max })
    &&& forall|v: i64| #[trigger] within(v as int, b->0->min as int, b->0->max as int) <==> within(f(v as int), low as int, high as int)
}

/// In a product with one integer constant `c` (not zero), the other operand is the one
/// repaired, and it may take exactly the values whose product with `c` stays within the
/// bounds of the product; the constant itself is left alone.
pub proof fn law_product_plan(other: ExprView, c: i64, cs: Span, s: Span, low: i64, high: i64, ranges: Seq<PermissibleBounds>)
    requires
        !(const_value(other) is Int),
        low <= high,
        c != 0,
        !(c == -1 && (low == i64::MIN || high == i64::MIN)),
    ensures
        binary_plan(ExprView::Multiplication(Box::new(ExprView::Int(c, cs)), Box::new(other), s),
            PermissibleBounds::IntegerRange { min: low, max: high }, ranges) matches Ok(p)
            && p.left is None && passes_preimage(p.right, |v: int| c * v, low, high),
        binary_plan(ExprView::Multiplication(Box::new(other), Box::new(ExprView::Int(c, cs)), s),
            PermissibleBounds::IntegerRange { min: low, max: high }, ranges) matches Ok(p)
            && p.right is None && passes_preimage(p.left, |v: int| v * c, low, high),
{
    law_divided_bounds_are_preimage(low, high, c);
    let d = divided_bounds(PermissibleBounds::IntegerRange { min: low, max: high }, c);
    assert forall|v: i64| #[trigger] within(v as int, d->min as int, d->max as int) <==> within(v * c, low as int, high as int) by {
        assert(v * c == c * v) by (nonlinear_arith);
    }
}

/// In a sum with one integer constant `c`, the other operand is the one repaired, and it may
/// take exactly the values whose sum with `c` stays within the bounds of the sum (where moving
/// the bounds by `c` does not leave `i64`).
pub proof fn law_sum_plan(other: ExprView, c: i64, cs: Span, s: Span, low: i64, high: i64, ranges: Seq<PermissibleBounds>)
    requires
        !(const_value(other) is Int),
        low <= high,
        i64::MIN <= low - c,
        high - c <= i64::MAX,
    ensures
        binary_plan(ExprView::Addition(Box::new(ExprView::Int(c, cs)), Box::new(other), s),
            PermissibleBounds::IntegerRange { min: low, max: high }, ranges) matches Ok(p)
            && p.left is None && passes_preimage(p.right, |v: int| c + v, low, high),
        binary_plan(ExprView::Addition(Box::new(other), Box::new(ExprView::Int(c, cs)), s),
            PermissibleBounds::IntegerRange { min: low, max: high }, ranges) matches Ok(p)
            && p.right is None && passes_preimage(p.left, |v: int| v + c, low, high),
{
}

/// In a difference `x - c` with an integer constant `c`, `x` is the one repaired, and it may
/// take exactly the values `v` with `v - c` within the bounds of the difference (where moving
/// the bounds by `c` does not leave `i64`); the constant is left alone.
pub proof fn law_difference_plan(other: ExprView, c: i64, cs: Span, s: Span, low: i64, high: i64, ranges: Seq<PermissibleBounds>)
    requires
        !(const_value(other) is Int),
        low <= high,
        i64::MIN <= low + c,
        high + c <= i64::MAX,
    ensures
        binary_plan(ExprView::Subtraction(Box::new(other), Box::new(ExprView::Int(c, cs)), s),
            PermissibleBounds::IntegerRange { min: low, max: high }, ranges) matches Ok(p)
            && p.right is None && passes_preimage(p.left, |v: int| v - c, low, high),
{
}

/// In a difference `c - x` with an integer constant `c`, `x` is the one repaired, and it may
/// take exactly the values `v` with `c - v` within the bounds of the difference (where the
/// moved bounds stay within `i64`); the constant is left alone.
pub proof fn law_reversed_difference_plan(other: ExprView, c: i64, cs: Span, s: Span, low: i64, high: i64, ranges: Seq<PermissibleBounds>)
    requires
        !(const_value(other) is Int),
        low <= high,
        i64::MIN <= c - high,
        c - low <= i64::MAX,
    ensures
        binary_plan(ExprView::Subtraction(Box::new(ExprView::Int(c, cs)), Box::new(other), s),
            PermissibleBounds::IntegerRange { min: low, max: high }, ranges) matches Ok(p)
            && p.left is None && passes_preimage(p.right, |v: int| c - v, low, high),
{
}

/// A binary expression with its operands replaced.
pub open spec fn with_operands(e: ExprView, l: ExprView, r: ExprView) -> ExprView {
    match e {
        ExprView::Multiplication(_, _, s) => ExprView::Multiplication(Box::new(l), Box::new(r), s),
        ExprView::Division(_, _, s) => ExprView::Division(Box::new(l), Box::new(r), s),
        ExprView::Addition(_, _, s) => ExprView::Addition(Box::new(l), Box::new(r), s),
        ExprView::Subtraction(_, _, s) => ExprView::Subtraction(Box::new(l), Box::new(r), s),
        ExprView::LessThan(_, _, s) => ExprView::LessThan(Box::new(l), Box::new(r), s),
        ExprView::LessOrEqual(_, _, s) => ExprView::LessOrEqual(Box::new(l), Box::new(r), s),
        ExprView::GreaterThan(_, _, s) => ExprView::GreaterThan(Box::new(l), Box::new(r), s),
        ExprView::GreaterOrEqual(_, _, s) => ExprView::GreaterOrEqual(Box::new(l), Box::new(r), s),
        ExprView::Equals(_, _, s) => ExprView::Equals(Box::new(l), Box::new(r), s),
        ExprView::NotEquals(_, _, s) => ExprView::NotEquals(Box::new(l), Box::new(r), s),
        ExprView::Conjunction(_, _, s) => ExprView::Conjunction(Box::new(l), Box::new(r), s),
        ExprView::Disjunction(_, _, s) => ExprView::Disjunction(Box::new(l), Box::new(r), s),
        ExprView::IfAndOnlyIf(_, _, s) => ExprView::IfAndOnlyIf(Box::new(l), Box::new(r), s),
        ExprView::Implies(_, _, s) => ExprView::Implies(Box::new(l), Box::new(r), s),
        _ => e,
    }
}

/// The expression that replaces a repaired place: the repair variable itself for an integer
/// literal; `(v = 0 ? min(args) : max(args))` for a `min`/`max` call.
pub open spec fn replacement(kind: RepairKindView<VariableReference>, span: Span) -> ExprView {
    match kind {
        RepairKindView::IntegerReplacement { variable, .. } => ExprView::VarOrConst(variable, span),
        RepairKindView::FunctionCall { function_type_variable, args, .. } => ExprView::Ternary(
            Box::new(ExprView::Equals(
                Box::new(ExprView::VarOrConst(function_type_variable, span)),
                Box::new(ExprView::Int(0, span)),
                span,
            )),
            Box::new(ExprView::Function("min"@, span, args, span)),
            Box::new(ExprView::Function("max"@, span, args, span)),
            span,
        ),
        _ => ExprView::Int(0, span),
    }
}

/// The cost function of a repair without given costs: linear with factor one for an integer,
/// uniform with cost one for a function choice.
pub open spec fn default_costs(kind: RepairKindView<VariableReference>) -> CostFunction {
    match kind {
        RepairKindView::FunctionCall { .. } => CostFunction::Uniform { costs: CostValue::Float(ONE_BITS) },
        _ => CostFunction::Linear { factor: CostValue::Float(ONE_BITS) },
    }
}

/// What is repaired by `repair(target, options...)` at a place with permissible bounds
/// `bounds`: an integer literal becomes a repair variable ranging over `bounds` (which must
/// be an integer range); a `min`/`max` call becomes a choice between both functions.
pub open spec fn requested_kind(target: ExprView, bounds: PermissibleBounds) -> Result<RepairKindView<RepairVariable>, RepairError> {
    match target {
        ExprView::Int(v, _) =>
            if bounds is IntegerRange {
                Ok(RepairKindView::IntegerReplacement {
                    variable: RepairVariable::Integer { min: bounds->min, max: bounds->max },
                    original_value: v,
                })
            } else {
                Err(RepairError::UnknownIntegerBounds)
            },
        ExprView::Function(name, _, args, _) =>
            if name == "min"@ || name == "max"@ {
                Ok(RepairKindView::FunctionCall {
                    function_type_variable: RepairVariable::Integer { min: 0, max: 1 },
                    args,
                    original_function: if name == "min"@ { FunctionKind::Min } else { FunctionKind::Max },
                })
            } else {
                Err(RepairError::UnsupportedRepairFunction)
            },
        _ => Err(RepairError::UnsupportedRepairTarget),
    }
}

/// What a `repair(args...)` call at `span` turns into, and the collection after it.
pub open spec fn repair_call(args: Seq<ExprView>, span: Span, bounds: PermissibleBounds, c: CollectionView)
    -> Result<(ExprView, CollectionView), RepairError>
{
    if args.len() == 0 {
        Err(RepairError::MissingRepairTarget)
    } else {
        match parameters_of(args.drop_first()) {
            Err(err) => Err(err),
            Ok(p) => match requested_kind(args[0], bounds) {
                Err(err) => Err(err),
                Ok(kind) => match request(c, p.grouped, kind) {
                    Err(err) => Err(err),
                    Ok((c1, k)) => {
                        let costs = match p.costs { Some(cf) => cf, None => default_costs(k) };
                        Ok((replacement(k, span), CollectionView {
                            repairs: c1.repairs.push(RepairView { original_span: span, kind: k, cost_function: costs }),
                            ..c1
                        }))
                    },
                },
            },
        }
    }
}

/// What repairing an expression with permissible bounds `bounds` gives: each `repair(...)`
/// call is replaced (see [`repair_call`]), from left to right, with the bounds that
/// [`binary_plan`] and negation pass on; the arguments of other calls, the operand of `!`,
/// and the parts of `? :` get unknown bounds.
pub open spec fn repaired(e: ExprView, bounds: PermissibleBounds, ranges: Seq<PermissibleBounds>, c: CollectionView)
    -> Result<(ExprView, CollectionView), RepairError>
    decreases e, 1nat,
{
    match e {
        ExprView::Function(name, nspan, args, span) =>
            if name == "repair"@ {
                repair_call(args, span, bounds, c)
            } else {
                match repaired_all(args, ranges, c) {
                    Err(err) => Err(err),
                    Ok((args2, c2)) => Ok((ExprView::Function(name, nspan, args2, span), c2)),
                }
            },
        ExprView::Minus(v, s) => match repaired(*v, negated_bounds(bounds), ranges, c) {
            Err(err) => Err(err),
            Ok((v2, c2)) => Ok((ExprView::Minus(Box::new(v2), s), c2)),
        },
        ExprView::Negation(v, s) => match repaired(*v, PermissibleBounds::Unknown, ranges, c) {
            Err(err) => Err(err),
            Ok((v2, c2)) => Ok((ExprView::Negation(Box::new(v2), s), c2)),
        },
        ExprView::Ternary(g, a, b, s) => match repaired(*g, PermissibleBounds::Unknown, ranges, c) {
            Err(err) => Err(err),
            Ok((g2, c1)) => match repaired(*a, PermissibleBounds::Unknown, ranges, c1) {
                Err(err) => Err(err),
                Ok((a2, c2)) => match repaired(*b, PermissibleBounds::Unknown, ranges, c2) {
                    Err(err) => Err(err),
                    Ok((b2, c3)) => Ok((ExprView::Ternary(Box::new(g2), Box::new(a2), Box::new(b2), s), c3)),
                },
            },
        },
        _ => match binary_operands(e) {
            Some(_) => match binary_plan(e, bounds, ranges) {
                Err(err) => Err(err),
                Ok(plan) => match repaired_operands(e, plan, ranges, c) {
                    Err(err) => Err(err),
                    Ok((l2, r2, c2)) => Ok((with_operands(e, l2, r2), c2)),
                },
            },
            None => Ok((e, c)),
        },
    }
}

/// Repairs each expression of a list with unknown bounds, from left to right.
pub open spec fn repaired_all(args: Seq<ExprView>, ranges: Seq<PermissibleBounds>, c: CollectionView)
    -> Result<(Seq<ExprView>, CollectionView), RepairError>
    decreases args, 0nat,
{
    if args.len() == 0 {
        Ok((Seq::empty(), c))
    } else {
        match repaired_all(args.drop_last(), ranges, c) {
            Err(err) => Err(err),
            Ok((done, c1)) => match repaired(args.last(), PermissibleBounds::Unknown, ranges, c1) {
                Err(err) => Err(err),
                Ok((x, c2)) => Ok((done.push(x), c2)),
            },
        }
    }
}

/// Repairs the two operands of a binary expression as `plan` says.
pub open spec fn repaired_operands(e: ExprView, plan: Plan, ranges: Seq<PermissibleBounds>, c: CollectionView)
    -> Result<(ExprView, ExprView, CollectionView), RepairError>
    decreases e, 0nat,
{
    match binary_operands(e) {
        Some((l, r)) => {
            proof { lemma_binary_operands_smaller(e); }
            if !plan.right_first {
                match (match plan.left { Some(bl) => repaired(l, bl, ranges, c), None => Ok((l, c)) }) {
                    Err(err) => Err(err),
                    Ok((l2, c1)) => match (match plan.right { Some(br) => repaired(r, br, ranges, c1), None => Ok((r, c1)) }) {
                        Err(err) => Err(err),
                        Ok((r2, c2)) => Ok((l2, r2, c2)),
                    },
                }
            } else {
                match (match plan.right { Some(br) => repaired(r, br, ranges, c), None => Ok((r, c)) }) {
                    Err(err) => Err(err),
                    Ok((r2, c1)) => match (match plan.left { Some(bl) => repaired(l, bl, ranges, c1), None => Ok((l, c1)) }) {
                        Err(err) => Err(err),
                        Ok((l2, c2)) => Ok((l2, r2, c2)),
                    },
                }
            }
        },
        None => Ok((e, e, c)),
    }
}

/// Whether an expression calls `repair` anywhere.
pub open spec fn calls_repair(e: ExprView) -> bool
    decreases e, 1nat,
{
    match e {
        ExprView::Function(name, _, args, _) => name == "repair"@ || calls_repair_in(args),
        ExprView::Minus(v, _) => calls_repair(*v),
        ExprView::Negation(v, _) => calls_repair(*v),
        ExprView::Ternary(g, a, b, _) => calls_repair(*g) || calls_repair(*a) || calls_repair(*b),
        _ => calls_repair_operands(e),
    }
}

/// Whether an expression of a list calls `repair` anywhere.
pub open spec fn calls_repair_in(args: Seq<ExprView>) -> bool
    decreases args, 0nat,
{
    if args.len() == 0 {
        false
    } else {
        calls_repair_in(args.drop_last()) || calls_repair(args.last())
    }
}

/// Whether an operand of a binary expression calls `repair` anywhere.
pub open spec fn calls_repair_operands(e: ExprView) -> bool
    decreases e, 0nat,
{
    match binary_operands(e) {
        Some((l, r)) => {
            proof { lemma_binary_operands_smaller(e); }
            calls_repair(l) || calls_repair(r)
        },
        None => false,
    }
}

/// Repairing an expression that calls `repair` nowhere changes neither the expression nor
/// the repairs, where it succeeds.
pub proof fn law_repair_free_expression_unchanged(
    e: ExprView,
    bounds: PermissibleBounds,
    ranges: Seq<PermissibleBounds>,
    c: CollectionView,
)
    requires
        !calls_repair(e),
    ensures
        repaired(e, bounds, ranges, c) matches Ok((e2, c2)) ==> e2 == e && c2 == c,
    decreases e, 1nat,
{
    match e {
        ExprView::Function(name, _, args, _) => {
            lemma_repair_free_list_unchanged(args, ranges, c);
        },
        ExprView::Minus(v, _) => {
            law_repair_free_expression_unchanged(*v, negated_bounds(bounds), ranges, c);
        },
        ExprView::Negation(v, _) => {
            law_repair_free_expression_unchanged(*v, PermissibleBounds::Unknown, ranges, c);
        },
        ExprView::Ternary(g, a, b, _) => {
            law_repair_free_expression_unchanged(*g, PermissibleBounds::Unknown, ranges, c);
            law_repair_free_expression_unchanged(*a, PermissibleBounds::Unknown, ranges, c);
            law_repair_free_expression_unchanged(*b, PermissibleBounds::Unknown, ranges, c);
        },
        _ => {
            if binary_operands(e) is Some {
                if let Ok(plan) = binary_plan(e, bounds, ranges) {
                    lemma_repair_free_operands_unchanged(e, plan, ranges, c);
                    let (l, r) = binary_operands(e)->0;
                    assert(with_operands(e, l, r) == e);
                }
            }
        },
    }
}

proof fn lemma_repair_free_list_unchanged(args: Seq<ExprView>, ranges: Seq<PermissibleBounds>, c: CollectionView)
    requires
        !calls_repair_in(args),
    ensures
        repaired_all(args, ranges, c) matches Ok((a2, c2)) ==> a2 == args && c2 == c,
    decreases args, 0nat,
{
    if args.len() > 0 {
        lemma_repair_free_list_unchanged(args.drop_last(), ranges, c);
        law_repair_free_expression_unchanged(args.last(), PermissibleBounds::Unknown, ranges, c);
        if let Ok((done, c1)) = repaired_all(args.drop_last(), ranges, c) {
            assert(done.push(args.last()) =~= args);
        }
    }
}

proof fn lemma_repair_free_operands_unchanged(e: ExprView, plan: Plan, ranges: Seq<PermissibleBounds>, c: CollectionView)
    requires
        !calls_repair_operands(e),
        binary_operands(e) is Some,
    ensures
        repaired_operands(e, plan, ranges, c) matches Ok((l2, r2, c2)) ==> (l2, r2) == binary_operands(e)->0 && c2 == c,
    decreases e, 0nat,
{
    let (l, r) = binary_operands(e)->0;
    lemma_binary_operands_smaller(e);
    if let Some(bl) = plan.left {
        law_repair_free_expression_unchanged(l, bl, ranges, c);
    }
    if let Some(br) = plan.right {
        law_repair_free_expression_unchanged(r, br, ranges, c);
    }
}

proof fn lemma_repaired_all_prefix_err(vs: Seq<ExprView>, n: int, ranges: Seq<PermissibleBounds>, c: CollectionView)
    requires
        0 <= n <= vs.len(),
        repaired_all(vs.subrange(0, n), ranges, c) is Err,
    ensures
        repaired_all(vs, ranges, c) == repaired_all(vs.subrange(0, n), ranges, c),
    decreases vs.len() - n,
{
    if n < vs.len() {
        assert(vs.subrange(0, n + 1).drop_last() =~= vs.subrange(0, n));
        lemma_repaired_all_prefix_err(vs, n + 1, ranges, c);
    } else {
        assert(vs.subrange(0, n) =~= vs);
    }
}

/// The values an expression may take, as [`achievable`] says.
pub fn evaluate_achievable_bounds(expression: &Expression, ranges: &VariableRanges) -> (r: Result<AchievableBounds, RepairError>)
    ensures
        r == achievable(expression@, ranges.bounds@),
    decreases expression,
{
    match expression {
        Expression::Int(v, _) => Ok(AchievableBounds::Integer { min: *v, max: *v }),
        Expression::VarOrConst(id, _) => {
            if id.index < ranges.bounds.len() {
                match ranges.bounds[id.index] {
                    PermissibleBounds::IntegerRange { min, max } => Ok(AchievableBounds::Integer { min, max }),
                    _ => Err(RepairError::VariableWithoutIntegerBounds { variable: *id }),
                }
            } else {
                Err(RepairError::VariableWithoutIntegerBounds { variable: *id })
            }
        },
        Expression::Addition(lhs, rhs, _) => {
            let a = evaluate_achievable_bounds(lhs, ranges)?;
            let b = evaluate_achievable_bounds(rhs, ranges)?;
            match (a, b) {
                (AchievableBounds::Integer { min: min_l, max: max_l }, AchievableBounds::Integer { min: min_r, max: max_r }) =>
                    Ok(AchievableBounds::Integer { min: min_l.wrapping_add(min_r), max: max_l.wrapping_add(max_r) }),
                _ => Ok(AchievableBounds::Unknown),
            }
        },
        _ => Ok(AchievableBounds::Unknown),
    }
}

fn comparison_plan_exec(
    first: &Expression,
    second: &Expression,
    ranges: &VariableRanges,
    first_is_left: bool,
    known_first: (i64, i64),
    known_second: (i64, i64),
) -> (r: Result<(Option<PermissibleBounds>, Option<PermissibleBounds>, bool), RepairError>)
    ensures
        match comparison_plan_of(first@, second@, ranges.bounds@, first_is_left, known_first, known_second) {
            Ok(p) => r == Ok::<(Option<PermissibleBounds>, Option<PermissibleBounds>, bool), RepairError>((p.left, p.right, p.right_first)),
            Err(e) => r == Err::<(Option<PermissibleBounds>, Option<PermissibleBounds>, bool), RepairError>(e),
        },
{
    let a = evaluate_achievable_bounds(first, ranges)?;
    let b = evaluate_achievable_bounds(second, ranges)?;
    match (a, b) {
        (AchievableBounds::Integer { min, max }, AchievableBounds::Unknown) => {
            let bounds = PermissibleBounds::IntegerRange {
                min: min.wrapping_add(known_first.0),
                max: max.wrapping_add(known_first.1),
            };
            if first_is_left { Ok((None, Some(bounds), false)) } else { Ok((Some(bounds), None, false)) }
        },
        (AchievableBounds::Unknown, AchievableBounds::Integer { min, max }) => {
            let bounds = PermissibleBounds::IntegerRange {
                min: min.wrapping_add(known_second.0),
                max: max.wrapping_add(known_second.1),
            };
            if first_is_left { Ok((Some(bounds), None, false)) } else { Ok((None, Some(bounds), false)) }
        },
        _ => Ok((Some(PermissibleBounds::Unknown), Some(PermissibleBounds::Unknown), !first_is_left)),
    }
}

/// Whether an expression has two operands.
fn is_binary(e: &Expression) -> (b: bool)
    ensures
        b == binary_operands(e@) is Some,
{
    match e {
        Expression::Multiplication(..) | Expression::Division(..) | Expression::Addition(..)
        | Expression::Subtraction(..) | Expression::LessThan(..) | Expression::LessOrEqual(..)
        | Expression::GreaterThan(..) | Expression::GreaterOrEqual(..) | Expression::Equals(..)
        | Expression::NotEquals(..) | Expression::Conjunction(..) | Expression::Disjunction(..)
        | Expression::IfAndOnlyIf(..) | Expression::Implies(..) => true,
        _ => false,
    }
}

/// Rewrites the `repair(...)` calls of expressions into repair variables.
pub struct Repairer<'a> {
    pub variable_ranges: &'a VariableRanges,
}

impl<'a> Repairer<'a> {
    pub fn new(variable_ranges: &'a VariableRanges) -> (r: Repairer<'a>)
        ensures
            r.variable_ranges == variable_ranges,
    {
        Repairer { variable_ranges }
    }

    fn plan(&self, e: &Expression, bounds: PermissibleBounds) -> (r: Result<(Option<PermissibleBounds>, Option<PermissibleBounds>, bool), RepairError>)
        ensures
            match binary_plan(e@, bounds, self.variable_ranges.bounds@) {
                Ok(p) => r == Ok::<(Option<PermissibleBounds>, Option<PermissibleBounds>, bool), RepairError>((p.left, p.right, p.right_first)),
                Err(err) => r == Err::<(Option<PermissibleBounds>, Option<PermissibleBounds>, bool), RepairError>(err),
            },
    {
        let unknown = Ok((Some(PermissibleBounds::Unknown), Some(PermissibleBounds::Unknown), false));
        match e {
            Expression::Multiplication(a, b, _) => match (evaluate_const(a).int_value(), evaluate_const(b).int_value()) {
                (Some(v1), None) => Ok((None, Some(bounds.apply_integer_operation_with_rounding(v1)), false)),
                (None, Some(v2)) => Ok((Some(bounds.apply_integer_operation_with_rounding(v2)), None, false)),
                _ => unknown,
            },
            Expression::Addition(a, b, _) => match (evaluate_const(a).int_value(), evaluate_const(b).int_value()) {
                (Some(v1), None) => {
                    let nb = bounds.apply_integer_operation(|x: i64| -> (y: i64)
                        ensures y == i64_specs::wrapping_sub(x, v1)
                        { x.wrapping_sub(v1) });
                    Ok((None, Some(nb), false))
                },
                (None, Some(v2)) => {
                    let nb = bounds.apply_integer_operation(|x: i64| -> (y: i64)
                        ensures y == i64_specs::wrapping_sub(x, v2)
                        { x.wrapping_sub(v2) });
                    Ok((Some(nb), None, false))
                },
                _ => unknown,
            },
            Expression::Subtraction(a, b, _) => match (evaluate_const(a).int_value(), evaluate_const(b).int_value()) {
                (Some(v1), None) => {
                    let nb = bounds.apply_integer_operation(|x: i64| -> (y: i64)
                        ensures y == i64_specs::wrapping_sub(v1, x)
                        { v1.wrapping_sub(x) });
                    Ok((None, Some(nb), false))
                },
                (None, Some(v2)) => {
                    let nb = bounds.apply_integer_operation(|x: i64| -> (y: i64)
                        ensures y == i64_specs::wrapping_add(x, v2)
                        { x.wrapping_add(v2) });
                    Ok((Some(nb), None, false))
                },
                _ => unknown,
            },
            Expression::LessThan(l, r, _) => comparison_plan_exec(l, r, self.variable_ranges, true, (0, 1), (-1, 0)),
            Expression::GreaterThan(l, r, _) => comparison_plan_exec(r, l, self.variable_ranges, false, (0, 1), (-1, 0)),
            Expression::LessOrEqual(l, r, _) => comparison_plan_exec(l, r, self.variable_ranges, true, (-1, 0), (0, 1)),
            Expression::GreaterOrEqual(l, r, _) => comparison_plan_exec(r, l, self.variable_ranges, false, (-1, 0), (0, 1)),
            Expression::Equals(l, r, _) => comparison_plan_exec(l, r, self.variable_ranges, true, (0, 1), (0, 1)),
            Expression::NotEquals(l, r, _) => comparison_plan_exec(l, r, self.variable_ranges, true, (0, 1), (0, 1)),
            _ => unknown,
        }
    }

    /// Turns a `repair(target, options...)` call at `span` into its replacement, as
    /// [`repair_call`] says.
    pub fn process_repair(
        &self,
        args: &Vec<Expression>,
        span: Span,
        bounds: PermissibleBounds,
        repairs: &mut RepairCollection,
    ) -> (r: Result<Expression, RepairError>)
        requires
            old(repairs)@.wf(),
        ensures
            match repair_call(views(args@), span, bounds, old(repairs)@) {
                Ok((e, c)) => r matches Ok(x) && x@ == e && final(repairs)@ == c && c.wf(),
                Err(err) => r matches Err(x) && x == err,
            },
    {
        proof { lemma_views(args@); }
        if args.len() == 0 {
            return Err(RepairError::MissingRepairTarget);
        }
        let rest = &args.as_slice()[1..args.len()];
        assert(views(rest@) =~= views(args@).drop_first()) by {
            lemma_views(rest@);
        }
        let parameters = RepairParameters::from_function_arguments(rest)?;
        let kind = match &args[0] {
            Expression::Int(val, _) => {
                match bounds {
                    PermissibleBounds::IntegerRange { min, max } => RepairKind::IntegerReplacement {
                        variable: RepairVariable::Integer { min, max },
                        original_value: *val,
                    },
                    _ => return Err(RepairError::UnknownIntegerBounds),
                }
            },
            Expression::Function(name, fargs, _) => {
                if str_eq_string("min", &name.name) || str_eq_string("max", &name.name) {
                    let original_function = if str_eq_string("min", &name.name) { FunctionKind::Min } else { FunctionKind::Max };
                    RepairKind::FunctionCall {
                        function_type_variable: RepairVariable::Integer { min: 0, max: 1 },
                        args: crate::prism::expression::clone_expressions(fargs),
                        original_function,
                    }
                } else {
                    return Err(RepairError::UnsupportedRepairFunction);
                }
            },
            _ => return Err(RepairError::UnsupportedRepairTarget),
        };
        let recorded = repairs.repairs.len();
        proof {
            assert(repairs@.repairs.len() == recorded);
            lemma_request_names(repairs@, parameters@.grouped, kind@);
        }
        let repair_kind = repairs.request_to_reference(parameters.grouped, kind)?;
        match repair_kind {
            RepairKind::IntegerReplacement { variable, original_value } => {
                let costs = match parameters.costs {
                    Some(c) => c,
                    None => CostFunction::Linear { factor: CostValue::Float(ONE_BITS) },
                };
                repairs.add_repair(span, RepairKind::IntegerReplacement { variable, original_value }, costs);
                Ok(Expression::VarOrConst(variable, span))
            },
            RepairKind::FunctionCall { function_type_variable, args: call_args, original_function } => {
                let costs = match parameters.costs {
                    Some(c) => c,
                    None => CostFunction::Uniform { costs: CostValue::Float(ONE_BITS) },
                };
                let min_args = crate::prism::expression::clone_expressions(&call_args);
                let max_args = crate::prism::expression::clone_expressions(&call_args);
                let min_name = Identifier::new("min".to_owned(), span);
                let max_name = Identifier::new("max".to_owned(), span);
                let chooser = Expression::VarOrConst(function_type_variable, span);
                let zero = Expression::Int(0, span);
                proof {
                    assert(chooser@ == ExprView::VarOrConst(function_type_variable, span));
                    assert(zero@ == ExprView::Int(0, span));
                }
                let guard = Expression::Equals(Box::new(chooser), Box::new(zero), span);
                let min_call = Expression::Function(min_name, min_args, span);
                let max_call = Expression::Function(max_name, max_args, span);
                proof {
                    assert(guard@ == ExprView::Equals(Box::new(ExprView::VarOrConst(function_type_variable, span)), Box::new(ExprView::Int(0, span)), span));
                    assert(min_call@ == ExprView::Function("min"@, span, views(call_args@), span));
                    assert(max_call@ == ExprView::Function("max"@, span, views(call_args@), span));
                }
                let replacement = Expression::Ternary(Box::new(guard), Box::new(min_call), Box::new(max_call), span);
                repairs.add_repair(
                    span,
                    RepairKind::FunctionCall { function_type_variable, args: call_args, original_function },
                    costs,
                );
                Ok(replacement)
            },
            _ => {
                proof { assert(false); }
                Err(RepairError::UnsupportedRepairTarget)
            },
        }
    }

    /// Repairs an expression with permissible bounds `bounds`, as [`repaired`] says.
    pub fn repair_expression(
        &self,
        expression: &mut Expression,
        bounds: PermissibleBounds,
        repairs: &mut RepairCollection,
    ) -> (r: Result<(), RepairError>)
        requires
            old(repairs)@.wf(),
        ensures
            match repaired(old(expression)@, bounds, self.variable_ranges.bounds@, old(repairs)@) {
                Ok((e, c)) => r is Ok && final(expression)@ == e && final(repairs)@ == c && c.wf(),
                Err(err) => r == Err::<(), RepairError>(err),
            },
        decreases *old(expression), 2nat,
    {
        let ghost parent = *expression;
        if let Expression::Function(name, args, span) = &*expression {
            if str_eq_string("repair", &name.name) {
                let replacement = self.process_repair(args, *span, bounds, repairs)?;
                *expression = replacement;
                return Ok(());
            }
        }
        if is_binary(expression) {
            let plan = self.plan(expression, bounds)?;
            return self.repair_binary(expression, plan, repairs);
        }
        match expression {
            Expression::Function(_, args, _) => {
                proof {
                    assert forall|i: int| 0 <= i < args@.len() implies decreases_to!(parent => #[trigger] args@[i]) by {
                        assert(decreases_to!(parent => *args));
                        assert(decreases_to!(*args => args@));
                        assert(decreases_to!(args@ => args@[i]));
                    }
                }
                self.repair_all(args, repairs, Ghost(parent))
            },
            Expression::Minus(v, _) => self.repair_expression(v, bounds.apply_numeric_negation(), repairs),
            Expression::Negation(v, _) => self.repair_expression(v, PermissibleBounds::Unknown, repairs),
            Expression::Ternary(g, a, b, _) => {
                self.repair_expression(g, PermissibleBounds::Unknown, repairs)?;
                self.repair_expression(a, PermissibleBounds::Unknown, repairs)?;
                self.repair_expression(b, PermissibleBounds::Unknown, repairs)
            },
            _ => Ok(()),
        }
    }

    fn repair_binary(
        &self,
        expression: &mut Expression,
        plan: (Option<PermissibleBounds>, Option<PermissibleBounds>, bool),
        repairs: &mut RepairCollection,
    ) -> (res: Result<(), RepairError>)
        requires
            old(repairs)@.wf(),
            binary_operands(old(expression)@) is Some,
        ensures
            match repaired_operands(old(expression)@, Plan { left: plan.0, right: plan.1, right_first: plan.2 }, self.variable_ranges.bounds@, old(repairs)@) {
                Ok((l2, r2, c)) => res is Ok && final(expression)@ == with_operands(old(expression)@, l2, r2) && final(repairs)@ == c && c.wf(),
                Err(err) => res == Err::<(), RepairError>(err),
            },
        decreases *old(expression), 1nat,
    {
        let ghost parent = *expression;
        proof { lemma_binary_operands_smaller(parent@); }
        match expression {
            Expression::Multiplication(l, r, _) => self.repair_pair(l, r, plan, repairs, Ghost(parent)),
            Expression::Division(l, r, _) => self.repair_pair(l, r, plan, repairs, Ghost(parent)),
            Expression::Addition(l, r, _) => self.repair_pair(l, r, plan, repairs, Ghost(parent)),
            Expression::Subtraction(l, r, _) => self.repair_pair(l, r, plan, repairs, Ghost(parent)),
            Expression::LessThan(l, r, _) => self.repair_pair(l, r, plan, repairs, Ghost(parent)),
            Expression::LessOrEqual(l, r, _) => self.repair_pair(l, r, plan, repairs, Ghost(parent)),
            Expression::GreaterThan(l, r, _) => self.repair_pair(l, r, plan, repairs, Ghost(parent)),
            Expression::GreaterOrEqual(l, r, _) => self.repair_pair(l, r, plan, repairs, Ghost(parent)),
            Expression::Equals(l, r, _) => self.repair_pair(l, r, plan, repairs, Ghost(parent)),
            Expression::NotEquals(l, r, _) => self.repair_pair(l, r, plan, repairs, Ghost(parent)),
            Expression::Conjunction(l, r, _) => self.repair_pair(l, r, plan, repairs, Ghost(parent)),
            Expression::Disjunction(l, r, _) => self.repair_pair(l, r, plan, repairs, Ghost(parent)),
            Expression::IfAndOnlyIf(l, r, _) => self.repair_pair(l, r, plan, repairs, Ghost(parent)),
            Expression::Implies(l, r, _) => self.repair_pair(l, r, plan, repairs, Ghost(parent)),
            _ => {
                proof { assert(false); }
                Ok(())
            },
        }
    }

    fn repair_pair(
        &self,
        l: &mut Expression,
        r: &mut Expression,
        plan: (Option<PermissibleBounds>, Option<PermissibleBounds>, bool),
        repairs: &mut RepairCollection,
        parent: Ghost<Expression>,
    ) -> (res: Result<(), RepairError>)
        requires
            old(repairs)@.wf(),
            binary_operands(parent@@) == Some((old(l)@, old(r)@)),
            decreases_to!(parent@ => *old(l)),
            decreases_to!(parent@ => *old(r)),
        ensures
            match repaired_operands(parent@@, Plan { left: plan.0, right: plan.1, right_first: plan.2 }, self.variable_ranges.bounds@, old(repairs)@) {
                Ok((l2, r2, c)) => res is Ok && final(l)@ == l2 && final(r)@ == r2 && final(repairs)@ == c && c.wf(),
                Err(err) => res == Err::<(), RepairError>(err),
            },
        decreases parent@, 0nat,
    {
        let (bl, br, right_first) = plan;
        if !right_first {
            if let Some(b) = bl {
                self.repair_expression(l, b, repairs)?;
            }
            if let Some(b) = br {
                self.repair_expression(r, b, repairs)?;
            }
        } else {
            if let Some(b) = br {
                self.repair_expression(r, b, repairs)?;
            }
            if let Some(b) = bl {
                self.repair_expression(l, b, repairs)?;
            }
        }
        Ok(())
    }

    fn repair_all(&self, args: &mut Vec<Expression>, repairs: &mut RepairCollection, parent: Ghost<Expression>) -> (r: Result<(), RepairError>)
        requires
            old(repairs)@.wf(),
            forall|i: int| 0 <= i < old(args)@.len() ==> decreases_to!(parent@ => #[trigger] old(args)@[i]),
        ensures
            match repaired_all(views(old(args)@), self.variable_ranges.bounds@, old(repairs)@) {
                Ok((a, c)) => r is Ok && views(final(args)@) == a && final(repairs)@ == c && c.wf(),
                Err(err) => r == Err::<(), RepairError>(err),
            },
        decreases parent@, 0nat,
    {
        let ghost orig = args@;
        let ghost c0 = repairs@;
        let n = args.len();
        let mut i: usize = 0;
        proof { lemma_views(orig); }
        assert(views(orig).subrange(0, 0) =~= Seq::<ExprView>::empty());
        while i < n
            invariant
                n == orig.len(),
                orig == old(args)@,
                c0 == old(repairs)@,
                i <= n,
                args@.len() == n,
                repairs@.wf(),
                forall|j: int| i <= j < n ==> #[trigger] args@[j] == orig[j],
                forall|j: int| 0 <= j < n ==> decreases_to!(parent@ => #[trigger] orig[j]),
                views(orig).len() == n,
                forall|j: int| 0 <= j < n ==> #[trigger] views(orig)[j] == orig[j]@,
                repaired_all(views(orig).subrange(0, i as int), self.variable_ranges.bounds@, c0)
                    == Ok::<(Seq<ExprView>, CollectionView), RepairError>((views(args@.subrange(0, i as int)), repairs@)),
            decreases n - i,
        {
            let ghost before_args = args@;
            let ghost before_c = repairs@;
            assert(views(orig).subrange(0, i + 1).drop_last() =~= views(orig).subrange(0, i as int));
            assert(views(orig).subrange(0, i + 1).last() == orig[i as int]@);
            let res = self.repair_expression(&mut args[i], PermissibleBounds::Unknown, repairs);
            match res {
                Ok(()) => {},
                Err(err) => {
                    proof {
                        let ranges = self.variable_ranges.bounds@;
                        assert(repaired(orig[i as int]@, PermissibleBounds::Unknown, ranges, before_c)
                            == Err::<(ExprView, CollectionView), RepairError>(err));
                        assert(repaired_all(views(orig).subrange(0, i + 1), ranges, c0)
                            == Err::<(Seq<ExprView>, CollectionView), RepairError>(err));
                        lemma_repaired_all_prefix_err(views(orig), i as int + 1, ranges, c0);
                    }
                    return Err(err);
                },
            }
            proof {
                lemma_views(args@.subrange(0, i + 1));
                lemma_views(before_args.subrange(0, i as int));
                assert(args@.subrange(0, i + 1).drop_last() =~= before_args.subrange(0, i as int));
                assert(views(args@.subrange(0, i + 1)) =~= views(before_args.subrange(0, i as int)).push(args@[i as int]@));
            }
            i += 1;
        }
        proof {
            assert(views(orig).subrange(0, n as int) =~= views(orig));
            assert(args@.subrange(0, n as int) =~= args@);
        }
        Ok(())
    }
}

} // verus!
