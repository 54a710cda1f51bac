use vstd::prelude::*;
use crate::prism::expression::{clone_expressions, views, Expression, ExprView, Span, VariableReference};
use crate::prism::output::{OutputVariableValues, VariableReferenceToPrismIndex};
use crate::prism::results::{combination_views, CombinationView, FeasibleCombination, OutputError};
use crate::repairs::types::{CostFunction, CostValue, Repair, RepairCollection, RepairKind, RepairKindView, RepairView};
use crate::text::{i64_to_string, parse_i64, parsed_i64, signed_decimal, str_chars};

verus! {

/// Whether a fix changes the model.
#[derive(Clone, Copy, PartialEq, Eq, Debug)]
pub enum FixType {
    Fixed,
    NoChange,
}

/// The text that replaces a repaired place: a value, or a call of the chosen function with
/// the original arguments.
pub enum Replacement {
    Value(String),
    Call { function: String, args: Vec<Expression> },
}

/// The mathematical value of a [`Replacement`].
pub ghost enum ReplacementView {
    Value(Seq<char>),
    Call { function: Seq<char>, args: Seq<ExprView> },
}

impl View for Replacement {
    type V = ReplacementView;

    open spec fn view(&self) -> ReplacementView {
        match self {
            Replacement::Value(s) => ReplacementView::Value(s@),
            Replacement::Call { function, args } => ReplacementView::Call { function: function@, args: views(args@) },
        }
    }
}

/// What to write at a place of the model.
pub struct Fix {
    pub location: Span,
    pub replace_by: Replacement,
    pub fix_type: FixType,
}

/// The mathematical value of a [`Fix`].
pub ghost struct FixView {
    pub location: Span,
    pub replace_by: ReplacementView,
    pub fix_type: FixType,
}

impl View for Fix {
    type V = FixView;

    open spec fn view(&self) -> FixView {
        FixView { location: self.location, replace_by: self.replace_by@, fix_type: self.fix_type }
    }
}

impl Fix {
    pub fn new(location: Span, replace_by: Replacement, fix_type: FixType) -> (f: Fix)
        ensures
            f@ == (FixView { location, replace_by: replace_by@, fix_type }),
    {
        Fix { location, replace_by, fix_type }
    }
}

/// The cost of one repair: `units` times the cost parameter `rate`.
#[derive(Clone, Copy, PartialEq, Eq, Debug)]
pub struct Cost {
    pub units: u64,
    pub rate: CostValue,
}

/// The cost parameter of a cost function.
pub open spec fn rate_of(cf: CostFunction) -> CostValue {
    match cf {
        CostFunction::Uniform { costs } => costs,
        CostFunction::Linear { factor } => factor,
    }
}

/// The cost units of a change: one for any change under uniform costs, the distance under
/// linear costs.
pub open spec fn units_of(cf: CostFunction, original: i64, new: i64) -> int {
    match cf {
        CostFunction::Uniform { .. } => if original != new { 1int } else { 0int },
        CostFunction::Linear { .. } => crate::context::permissible_bounds::abs(original - new),
    }
}

/// Whether a repair is of a kind that can be applied: an integer replacement or a choice of
/// function.
pub open spec fn applicable_kind(r: RepairView) -> bool {
    r.kind is IntegerReplacement || r.kind is FunctionCall
}

/// The fix and the cost that a repair gets from the value the model checker chose for its
/// variable; refused where that value is missing, is not an integer, or (for a choice of
/// function) is neither 0 nor 1.
pub open spec fn applied_repair(r: RepairView, values: OutputVariableValues) -> Result<(FixView, Cost), OutputError> {
    let variable = match r.kind {
        RepairKindView::IntegerReplacement { variable, .. } => variable,
        RepairKindView::FunctionCall { function_type_variable, .. } => function_type_variable,
        _ => VariableReference { index: 0 },
    };
    let original = match r.kind {
        RepairKindView::IntegerReplacement { original_value, .. } => original_value,
        RepairKindView::FunctionCall { original_function, .. } => original_function.spec_to_integer(),
        _ => 0,
    };
    if !values.has_value(variable) {
        Err(OutputError::MissingValue)
    } else {
        match parsed_i64(values.value_of(variable)) {
            None => Err(OutputError::NotAnInteger),
            Some(n) => {
                let cost = Cost { units: units_of(r.cost_function, original, n) as u64, rate: rate_of(r.cost_function) };
                let fix_type = if original == n { FixType::NoChange } else { FixType::Fixed };
                match r.kind {
                    RepairKindView::FunctionCall { args, .. } =>
                        if n == 0 || n == 1 {
                            let function = if n == 0 { "min"@ } else { "max"@ };
                            Ok((FixView { location: r.original_span, replace_by: ReplacementView::Call { function, args }, fix_type }, cost))
                        } else {
                            Err(OutputError::UnknownFunctionChoice)
                        },
                    _ => Ok((FixView { location: r.original_span, replace_by: ReplacementView::Value(signed_decimal(n)), fix_type }, cost)),
                }
            },
        }
    }
}

/// The views of a list of fixes.
pub open spec fn fix_views(s: Seq<Fix>) -> Seq<FixView> {
    s.map_values(|f: Fix| f@)
}

impl Repair {
    /// The cost of this repair under the chosen values, with its fix appended to `fixes`, as
    /// [`applied_repair`] says.
    pub fn get_cost_and_fixes(&self, fixes: &mut Vec<Fix>, values: &OutputVariableValues) -> (r: Result<Cost, OutputError>)
        requires
            applicable_kind(self@),
        ensures
            match applied_repair(self@, *values) {
                Ok((f, c)) => r == Ok::<Cost, OutputError>(c) && fix_views(final(fixes)@) == fix_views(old(fixes)@).push(f),
                Err(e) => r == Err::<Cost, OutputError>(e) && final(fixes)@ == old(fixes)@,
            },
    {
        reveal(applied_repair);
        let (variable, original) = match &self.kind {
            RepairKind::IntegerReplacement { variable, original_value } => (*variable, *original_value),
            RepairKind::FunctionCall { function_type_variable, original_function, .. } => (*function_type_variable, original_function.to_integer()),
            _ => {
                proof { assert(false); }
                return Err(OutputError::MissingValue);
            },
        };
        let text = match values.lookup(variable) {
            Some(t) => t,
            None => return Err(OutputError::MissingValue),
        };
        let chars = str_chars(text.as_str());
        assert(chars@.subrange(0, chars@.len() as int) =~= chars@);
        let new_value = match parse_i64(&chars, 0, chars.len()) {
            Some(v) => v,
            None => return Err(OutputError::NotAnInteger),
        };
        let cost = Cost { units: self.cost_function.cost_units(original, new_value), rate: rate_value(&self.cost_function) };
        let fix_type = if original == new_value { FixType::NoChange } else { FixType::Fixed };
        let replacement = match &self.kind {
            RepairKind::FunctionCall { args, .. } => {
                if new_value != 0 && new_value != 1 {
                    return Err(OutputError::UnknownFunctionChoice);
                }
                let function = if new_value == 0 { "min".to_owned() } else { "max".to_owned() };
                Replacement::Call { function, args: clone_expressions(args) }
            },
            _ => Replacement::Value(i64_to_string(new_value)),
        };
        let ghost before = fixes@;
        fixes.push(Fix::new(self.original_span, replacement, fix_type));
        assert(fix_views(fixes@) =~= fix_views(before).push(fixes@.last()@));
        Ok(cost)
    }
}

fn rate_value(cf: &CostFunction) -> (r: CostValue)
    ensures
        r == rate_of(*cf),
{
    match cf {
        CostFunction::Uniform { costs } => *costs,
        CostFunction::Linear { factor } => *factor,
    }
}

/// One repaired variant of the model: the cost of each repair and the fixes to write.
pub struct AppliedRepair {
    pub costs: Vec<Cost>,
    pub fixes: Vec<Fix>,
}

/// The costs and fixes of the first `count` repairs under the chosen values, repair by repair.
pub open spec fn applied_repairs(rs: Seq<RepairView>, values: OutputVariableValues) -> Result<(Seq<Cost>, Seq<FixView>), OutputError>
    decreases rs.len(),
{
    if rs.len() == 0 {
        Ok((Seq::empty(), Seq::empty()))
    } else {
        match applied_repairs(rs.drop_last(), values) {
            Err(e) => Err(e),
            Ok((costs, fixes)) => match applied_repair(rs.last(), values) {
                Err(e) => Err(e),
                Ok((f, c)) => Ok((costs.push(c), fixes.push(f))),
            },
        }
    }
}

proof fn lemma_applied_repairs_err(rs: Seq<RepairView>, values: OutputVariableValues, n: int)
    requires
        0 <= n <= rs.len(),
        applied_repairs(rs.subrange(0, n), values) is Err,
    ensures
        applied_repairs(rs, values) == applied_repairs(rs.subrange(0, n), values),
    decreases rs.len() - n,
{
    if n < rs.len() {
        assert(rs.subrange(0, n + 1).drop_last() =~= rs.subrange(0, n));
        lemma_applied_repairs_err(rs, values, n + 1);
    } else {
        assert(rs.subrange(0, n) =~= rs);
    }
}

impl AppliedRepair {
    /// Applies every repair of the collection under the values of one feasible combination,
    /// as [`applied_repairs`] says.
    #[verifier::rlimit(40)]
    pub fn from_feasible_combination(
        feasible_combination: &FeasibleCombination,
        ref_to_prism: &VariableReferenceToPrismIndex,
        repair_collection: &RepairCollection,
    ) -> (r: Result<AppliedRepair, OutputError>)
        requires
            forall|i: int| 0 <= i < repair_collection@.repairs.len() ==> applicable_kind(#[trigger] repair_collection@.repairs[i]),
        ensures
            match applied_repairs(repair_collection@.repairs, OutputVariableValues { values: &feasible_combination.variables, ref_to_prism }) {
                Ok((costs, fixes)) => r matches Ok(x) && x.costs@ == costs && fix_views(x.fixes@) == fixes,
                Err(e) => r matches Err(x) && x == e,
            },
    {
        let values = OutputVariableValues::new(&feasible_combination.variables, ref_to_prism);
        let ghost rs = repair_collection@.repairs;
        let repairs = &repair_collection.repairs;
        let mut costs: Vec<Cost> = Vec::new();
        let mut fixes: Vec<Fix> = Vec::new();
        let mut i: usize = 0;
        assert(rs.subrange(0, 0) =~= Seq::<RepairView>::empty());
        assert(fix_views(fixes@) =~= Seq::<FixView>::empty());
        while i < repairs.len()
            invariant
                rs == repair_collection@.repairs,
                repairs == &repair_collection.repairs,
                forall|j: int| 0 <= j < rs.len() ==> applicable_kind(#[trigger] rs[j]),
                values == (OutputVariableValues { values: &feasible_combination.variables, ref_to_prism }),
                i <= repairs@.len(),
                applied_repairs(rs.subrange(0, i as int), values) == Ok::<(Seq<Cost>, Seq<FixView>), OutputError>((costs@, fix_views(fixes@))),
            decreases repairs.len() - i,
        {
            assert(rs.subrange(0, i + 1).drop_last() =~= rs.subrange(0, i as int));
            assert(rs[i as int] == repairs@[i as int]@);
            match repairs[i].get_cost_and_fixes(&mut fixes, &values) {
                Ok(c) => costs.push(c),
                Err(e) => {
                    proof { lemma_applied_repairs_err(rs, values, i + 1); }
                    return Err(e);
                },
            }
            i += 1;
        }
        assert(rs.subrange(0, repairs@.len() as int) =~= rs);
        Ok(AppliedRepair { costs, fixes })
    }
}

/// The repaired variants of the model, one per feasible combination.
pub struct AppliedRepairCollection {
    pub applied_repairs: Vec<AppliedRepair>,
}

impl AppliedRepairCollection {
    /// Applies the repairs under each feasible combination in turn; the first combination that
    /// cannot be applied gives the error.
    pub fn from_feasible_combinations(
        feasible_combinations: Vec<FeasibleCombination>,
        ref_to_prism: &VariableReferenceToPrismIndex,
        repair_collection: &RepairCollection,
    ) -> (r: Result<AppliedRepairCollection, OutputError>)
        requires
            forall|i: int| 0 <= i < repair_collection@.repairs.len() ==> applicable_kind(#[trigger] repair_collection@.repairs[i]),
        ensures
            r matches Ok(x) ==> x.applied_repairs@.len() == feasible_combinations@.len()
                && forall|k: int| 0 <= k < feasible_combinations@.len() ==>
                    applied_repairs(repair_collection@.repairs, OutputVariableValues { values: &feasible_combinations@[k].variables, ref_to_prism })
                        == Ok::<(Seq<Cost>, Seq<FixView>), OutputError>((#[trigger] x.applied_repairs@[k].costs@, fix_views(x.applied_repairs@[k].fixes@))),
            r matches Err(e) ==> exists|k: int| 0 <= k < feasible_combinations@.len()
                && applied_repairs(repair_collection@.repairs, OutputVariableValues { values: &#[trigger] feasible_combinations@[k].variables, ref_to_prism })
                    == Err::<(Seq<Cost>, Seq<FixView>), OutputError>(e)
                && forall|j: int| 0 <= j < k ==>
                    applied_repairs(repair_collection@.repairs, OutputVariableValues { values: &#[trigger] feasible_combinations@[j].variables, ref_to_prism }) is Ok,
    {
        let mut applied: Vec<AppliedRepair> = Vec::new();
        let mut k: usize = 0;
        while k < feasible_combinations.len()
            invariant
                forall|i: int| 0 <= i < repair_collection@.repairs.len() ==> applicable_kind(#[trigger] repair_collection@.repairs[i]),
                k <= feasible_combinations@.len(),
                applied@.len() == k,
                forall|j: int| 0 <= j < k ==>
                    applied_repairs(repair_collection@.repairs, OutputVariableValues { values: &feasible_combinations@[j].variables, ref_to_prism })
                        == Ok::<(Seq<Cost>, Seq<FixView>), OutputError>((#[trigger] applied@[j].costs@, fix_views(applied@[j].fixes@))),
            decreases feasible_combinations.len() - k,
        {
            match AppliedRepair::from_feasible_combination(&feasible_combinations[k], ref_to_prism, repair_collection) {
                Ok(a) => applied.push(a),
                Err(e) => {
                    proof {
                        assert forall|j: int| 0 <= j < k implies
                            applied_repairs(repair_collection@.repairs, OutputVariableValues { values: &#[trigger] feasible_combinations@[j].variables, ref_to_prism }) is Ok by {
                            assert(applied@[j].costs@ == applied@[j].costs@);
                        }
                    }
                    return Err(e);
                },
            }
            k += 1;
        }
        Ok(AppliedRepairCollection { applied_repairs: applied })
    }
}

} // verus!
