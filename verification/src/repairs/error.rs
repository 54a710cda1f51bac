use vstd::prelude::*;
use crate::prism::expression::VariableReference;

verus! {

/// Why a model cannot be prepared for repair.
#[derive(Clone, Copy, PartialEq, Eq, Debug)]
pub enum RepairError {
    /// A repair parameter `grouped`, `min` or `max` does not have exactly one argument.
    WrongParameterArity,
    /// The group name of `grouped(...)` is not written as a call such as `grouped(name())`.
    GroupNameNotACall,
    /// The group name call of `grouped(name(...))` has arguments.
    GroupNameWithArguments,
    /// `grouped` is given twice.
    GroupedTwice,
    /// `min` is given twice.
    MinimumTwice,
    /// `max` is given after `min` or twice.
    MaximumTwice,
    /// Costs are given twice.
    CostsTwice,
    /// `sees` or `hidden` is given twice.
    VisibilityTwice,
    /// An argument of `sees` or `hidden` is not a variable.
    VisibilityNotAVariable,
    /// A repair parameter is a call of an unknown function.
    UnknownParameter,
    /// A repair parameter is not written as a function call.
    ParameterNotACall,
    /// A cost is neither an integer nor a floating-point literal.
    InvalidCostValue,
    /// A cost specifier has no argument.
    MissingCostValue,
    /// A cost specifier names an unknown cost function.
    UnknownCostFunction,
    /// A cost specifier is not a function call.
    InvalidCostSpecifier,
    /// `repair()` has no argument.
    MissingRepairTarget,
    /// An integer literal is repaired where its permissible values are not an integer range.
    UnknownIntegerBounds,
    /// A function other than `min` or `max` is repaired.
    UnsupportedRepairFunction,
    /// An expression other than an integer literal or a `min`/`max` call is repaired.
    UnsupportedRepairTarget,
    /// A grouped repair does not have the shape of the first repair of its group.
    IncompatibleGroupedRepair,
    /// A comparison reads a variable whose range is not a known integer range.
    VariableWithoutIntegerBounds { variable: VariableReference },
    /// More repair variables than indices.
    TooManyRepairVariables,
    /// The model already has a variable with the name of repair variable `index`.
    RepairVariableNameTaken { index: usize },
}

} // verus!
