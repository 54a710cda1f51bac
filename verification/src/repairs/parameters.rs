use vstd::prelude::*;
use crate::prism::expression::{lemma_views, Expression, ExprView, VariableReference};
use crate::repairs::error::RepairError;
use crate::repairs::types::{cost_function_of, CostFunction};
use crate::text::str_eq_string;

verus! {

/// Which variables a repair may read.
pub enum Visibility {
    Sees(Vec<VariableReference>),
    Hidden(Vec<VariableReference>),
}

/// The mathematical value of a [`Visibility`].
pub ghost enum VisibilityView {
    Sees(Seq<VariableReference>),
    Hidden(Seq<VariableReference>),
}

/// The options given to a `repair(target, options...)` call.
pub struct RepairParameters {
    pub grouped: Option<String>,
    pub minimum: Option<i64>,
    pub maximum: Option<i64>,
    pub costs: Option<CostFunction>,
    pub visibility: Option<Visibility>,
}

/// The mathematical value of [`RepairParameters`].
pub ghost struct ParametersView {
    pub grouped: Option<Seq<char>>,
    pub minimum: Option<i64>,
    pub maximum: Option<i64>,
    pub costs: Option<CostFunction>,
    pub visibility: Option<VisibilityView>,
}

impl View for RepairParameters {
    type V = ParametersView;

    open spec fn view(&self) -> ParametersView {
        ParametersView {
            grouped: match self.grouped { Some(g) => Some(g@), None => None },
            minimum: self.minimum,
            maximum: self.maximum,
            costs: self.costs,
            visibility: match self.visibility {
                Some(Visibility::Sees(v)) => Some(VisibilityView::Sees(v@)),
                Some(Visibility::Hidden(v)) => Some(VisibilityView::Hidden(v@)),
                None => None,
            },
        }
    }
}

/// No option given.
pub open spec fn no_parameters() -> ParametersView {
    ParametersView { grouped: None, minimum: None, maximum: None, costs: None, visibility: None }
}

/// The variables that the arguments of `sees(...)` / `hidden(...)` name, or an error where
/// one of them is not a variable.
pub open spec fn visible_variables(args: Seq<ExprView>) -> Result<Seq<VariableReference>, RepairError>
    decreases args.len(),
{
    if args.len() == 0 {
        Ok(Seq::empty())
    } else {
        match visible_variables(args.drop_last()) {
            Err(e) => Err(e),
            Ok(vs) => match args.last() {
                ExprView::VarOrConst(v, _) => Ok(vs.push(v)),
                _ => Err(RepairError::VisibilityNotAVariable),
            },
        }
    }
}

/// What one option does to the options read so far.
///
/// Note that `max(...)` is refused whenever a minimum was given before it.
pub open spec fn parameter_step(p: ParametersView, arg: ExprView) -> Result<ParametersView, RepairError> {
    match arg {
        ExprView::Function(name, _, args, _) =>
            if name == "grouped"@ {
                if args.len() != 1 {
                    Err(RepairError::WrongParameterArity)
                } else {
                    match args[0] {
                        ExprView::Function(group, _, group_args, _) =>
                            if group_args.len() != 0 {
                                Err(RepairError::GroupNameWithArguments)
                            } else if p.grouped is Some {
                                Err(RepairError::GroupedTwice)
                            } else {
                                Ok(ParametersView { grouped: Some(group), ..p })
                            },
                        _ => Err(RepairError::GroupNameNotACall),
                    }
                }
            } else if name == "min"@ {
                if args.len() != 1 {
                    Err(RepairError::WrongParameterArity)
                } else {
                    match args[0] {
                        ExprView::Int(v, _) =>
                            if p.minimum is Some { Err(RepairError::MinimumTwice) } else { Ok(ParametersView { minimum: Some(v), ..p }) },
                        _ => Ok(p),
                    }
                }
            } else if name == "max"@ {
                if args.len() != 1 {
                    Err(RepairError::WrongParameterArity)
                } else {
                    match args[0] {
                        ExprView::Int(v, _) =>
                            if p.minimum is Some { Err(RepairError::MaximumTwice) } else { Ok(ParametersView { maximum: Some(v), ..p }) },
                        _ => Ok(p),
                    }
                }
            } else if name == "linear_costs"@ || name == "uniform_costs"@ {
                match cost_function_of(arg) {
                    Err(e) => Err(e),
                    Ok(costs) => if p.costs is Some { Err(RepairError::CostsTwice) } else { Ok(ParametersView { costs: Some(costs), ..p }) },
                }
            } else if name == "sees"@ || name == "hidden"@ {
                match visible_variables(args) {
                    Err(e) => Err(e),
                    Ok(vs) => if p.visibility is Some {
                        Err(RepairError::VisibilityTwice)
                    } else {
                        Ok(ParametersView {
                            visibility: Some(if name == "sees"@ { VisibilityView::Sees(vs) } else { VisibilityView::Hidden(vs) }),
                            ..p
                        })
                    },
                }
            } else {
                Err(RepairError::UnknownParameter)
            },
        _ => Err(RepairError::ParameterNotACall),
    }
}

/// The options that a list of arguments gives, read from left to right.
pub open spec fn parameters_of(args: Seq<ExprView>) -> Result<ParametersView, RepairError>
    decreases args.len(),
{
    if args.len() == 0 {
        Ok(no_parameters())
    } else {
        match parameters_of(args.drop_last()) {
            Err(e) => Err(e),
            Ok(p) => parameter_step(p, args.last()),
        }
    }
}

fn read_visible_variables(args: &Vec<Expression>) -> (r: Result<Vec<VariableReference>, RepairError>)
    ensures
        match visible_variables(crate::prism::expression::views(args@)) {
            Ok(vs) => r matches Ok(v) && v@ == vs,
            Err(e) => r == Err::<Vec<VariableReference>, RepairError>(e),
        },
{
    let ghost vs = crate::prism::expression::views(args@);
    proof { lemma_views(args@); }
    let mut res: Vec<VariableReference> = Vec::new();
    let mut i: usize = 0;
    while i < args.len()
        invariant
            i <= args@.len(),
            vs == crate::prism::expression::views(args@),
            vs.len() == args@.len(),
            forall|j: int| 0 <= j < args@.len() ==> #[trigger] vs[j] == args@[j]@,
            visible_variables(vs.subrange(0, i as int)) == Ok::<Seq<VariableReference>, RepairError>(res@),
        decreases args.len() - i,
    {
        assert(vs.subrange(0, i + 1).drop_last() =~= vs.subrange(0, i as int));
        match &args[i] {
            Expression::VarOrConst(v, _) => res.push(*v),
            _ => {
                proof { lemma_visible_variables_prefix_err(vs, i as int + 1); }
                return Err(RepairError::VisibilityNotAVariable);
            },
        }
        i += 1;
    }
    assert(vs.subrange(0, args@.len() as int) =~= vs);
    Ok(res)
}

proof fn lemma_visible_variables_prefix_err(vs: Seq<ExprView>, n: int)
    requires
        0 <= n <= vs.len(),
        visible_variables(vs.subrange(0, n)) is Err,
    ensures
        visible_variables(vs) == visible_variables(vs.subrange(0, n)),
    decreases vs.len() - n,
{
    if n < vs.len() {
        assert(vs.subrange(0, n + 1).drop_last() =~= vs.subrange(0, n));
        lemma_visible_variables_prefix_err(vs, n + 1);
    } else {
        assert(vs.subrange(0, n) =~= vs);
    }
}

proof fn lemma_parameters_prefix_err(vs: Seq<ExprView>, n: int)
    requires
        0 <= n <= vs.len(),
        parameters_of(vs.subrange(0, n)) is Err,
    ensures
        parameters_of(vs) == parameters_of(vs.subrange(0, n)),
    decreases vs.len() - n,
{
    if n < vs.len() {
        assert(vs.subrange(0, n + 1).drop_last() =~= vs.subrange(0, n));
        lemma_parameters_prefix_err(vs, n + 1);
    } else {
        assert(vs.subrange(0, n) =~= vs);
    }
}

impl RepairParameters {
    /// Reads the options of a repair call, from left to right, as [`parameters_of`] says.
    pub fn from_function_arguments(arguments: &[Expression]) -> (r: Result<RepairParameters, RepairError>)
        ensures
            match parameters_of(crate::prism::expression::views(arguments@)) {
                Ok(p) => r matches Ok(rp) && rp@ == p,
                Err(e) => r matches Err(re) && re == e,
            },
    {
        let ghost vs = crate::prism::expression::views(arguments@);
        proof { lemma_views(arguments@); }
        let mut parameters = RepairParameters { grouped: None, minimum: None, maximum: None, costs: None, visibility: None };
        let mut i: usize = 0;
        while i < arguments.len()
            invariant
                i <= arguments@.len(),
                vs == crate::prism::expression::views(arguments@),
                vs.len() == arguments@.len(),
                forall|j: int| 0 <= j < arguments@.len() ==> #[trigger] vs[j] == arguments@[j]@,
                parameters_of(vs.subrange(0, i as int)) == Ok::<ParametersView, RepairError>(parameters@),
            decreases arguments.len() - i,
        {
            assert(vs.subrange(0, i + 1).drop_last() =~= vs.subrange(0, i as int));
            assert(vs.subrange(0, i + 1).last() == arguments@[i as int]@);
            let step = Self::apply_argument(parameters, &arguments[i]);
            match step {
                Ok(p) => { parameters = p; },
                Err(e) => {
                    proof { lemma_parameters_prefix_err(vs, i as int + 1); }
                    return Err(e);
                },
            }
            i += 1;
        }
        assert(vs.subrange(0, arguments@.len() as int) =~= vs);
        Ok(parameters)
    }

    fn apply_argument(parameters: RepairParameters, argument: &Expression) -> (r: Result<RepairParameters, RepairError>)
        ensures
            match parameter_step(parameters@, argument@) {
                Ok(p) => r matches Ok(rp) && rp@ == p,
                Err(e) => r matches Err(re) && re == e,
            },
    {
        let mut parameters = parameters;
        match argument {
            Expression::Function(name, args, _) => {
                proof { lemma_views(args@); }
                if str_eq_string("grouped", &name.name) {
                    if args.len() != 1 {
                        return Err(RepairError::WrongParameterArity);
                    }
                    match &args[0] {
                        Expression::Function(group, group_args, _) => {
                            proof { lemma_views(group_args@); }
                            if group_args.len() != 0 {
                                return Err(RepairError::GroupNameWithArguments);
                            }
                            if parameters.grouped.is_some() {
                                return Err(RepairError::GroupedTwice);
                            }
                            parameters.grouped = Some(group.name.clone());
                            Ok(parameters)
                        },
                        _ => Err(RepairError::GroupNameNotACall),
                    }
                } else if str_eq_string("min", &name.name) {
                    if args.len() != 1 {
                        return Err(RepairError::WrongParameterArity);
                    }
                    if let Expression::Int(val, _) = &args[0] {
                        if parameters.minimum.is_some() {
                            return Err(RepairError::MinimumTwice);
                        }
                        parameters.minimum = Some(*val);
                    }
                    Ok(parameters)
                } else if str_eq_string("max", &name.name) {
                    if args.len() != 1 {
                        return Err(RepairError::WrongParameterArity);
                    }
                    if let Expression::Int(val, _) = &args[0] {
                        if parameters.minimum.is_some() {
                            return Err(RepairError::MaximumTwice);
                        }
                        parameters.maximum = Some(*val);
                    }
                    Ok(parameters)
                } else if str_eq_string("linear_costs", &name.name) || str_eq_string("uniform_costs", &name.name) {
                    let costs = CostFunction::from_expression(argument)?;
                    if parameters.costs.is_some() {
                        return Err(RepairError::CostsTwice);
                    }
                    parameters.costs = Some(costs);
                    Ok(parameters)
                } else if str_eq_string("sees", &name.name) || str_eq_string("hidden", &name.name) {
                    let variables = read_visible_variables(args)?;
                    let visibility = if str_eq_string("sees", &name.name) {
                        Visibility::Sees(variables)
                    } else {
                        Visibility::Hidden(variables)
                    };
                    if parameters.visibility.is_some() {
                        return Err(RepairError::VisibilityTwice);
                    }
                    parameters.visibility = Some(visibility);
                    Ok(parameters)
                } else {
                    Err(RepairError::UnknownParameter)
                }
            },
            _ => Err(RepairError::ParameterNotACall),
        }
    }
}

} // verus!
