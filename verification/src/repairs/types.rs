use vstd::prelude::*;
use crate::prism::expression::{clone_expressions, views, Expression, ExprView, Span, VariableReference};
use crate::repairs::error::RepairError;
use crate::text::str_eq_string;

verus! {

/// The kind of a variable that a repair introduces.
#[derive(Clone, Copy, PartialEq, Eq, Debug)]
pub enum RepairVariable {
    Bool,
    Integer { min: i64, max: i64 },
}

/// A comparison operator that a repair may choose.
#[derive(Clone, Copy, PartialEq, Eq, Debug)]
pub enum ComparisonOperator {
    LessThan,
    LessOrEqual,
    GreaterThan,
    GreaterOrEqual,
}

/// A function that a repair of `min(...)` / `max(...)` may choose.
#[derive(Clone, Copy, PartialEq, Eq, Debug)]
pub enum FunctionKind {
    Min,
    Max,
}

impl FunctionKind {
    /// The value of the repair variable that selects this function.
    pub open spec fn spec_to_integer(&self) -> i64 {
        match self {
            FunctionKind::Min => 0,
            FunctionKind::Max => 1,
        }
    }

    #[verifier::when_used_as_spec(spec_to_integer)]
    pub fn to_integer(&self) -> (r: i64)
        ensures
            r == self.spec_to_integer(),
    {
        match self {
            FunctionKind::Min => 0,
            FunctionKind::Max => 1,
        }
    }
}

/// What a repair changes, with the repair variables (of type `V`) that choose the change.
pub enum RepairKind<V> {
    IntegerReplacement { variable: V, original_value: i64 },
    Comparison { operator_variable: V, offset_variable: V, original_operator: ComparisonOperator },
    FunctionCall { function_type_variable: V, args: Vec<Expression>, original_function: FunctionKind },
    Variable { variable_variable: V, offset_variable: V, original_variable: VariableReference },
}

/// The mathematical value of a [`RepairKind`].
pub ghost enum RepairKindView<V> {
    IntegerReplacement { variable: V, original_value: i64 },
    Comparison { operator_variable: V, offset_variable: V, original_operator: ComparisonOperator },
    FunctionCall { function_type_variable: V, args: Seq<ExprView>, original_function: FunctionKind },
    Variable { variable_variable: V, offset_variable: V, original_variable: VariableReference },
}

impl<V: Copy> RepairKind<V> {
    pub open spec fn view_kind(&self) -> RepairKindView<V> {
        match self {
            RepairKind::IntegerReplacement { variable, original_value } =>
                RepairKindView::IntegerReplacement { variable: *variable, original_value: *original_value },
            RepairKind::Comparison { operator_variable, offset_variable, original_operator } =>
                RepairKindView::Comparison {
                    operator_variable: *operator_variable,
                    offset_variable: *offset_variable,
                    original_operator: *original_operator,
                },
            RepairKind::FunctionCall { function_type_variable, args, original_function } =>
                RepairKindView::FunctionCall {
                    function_type_variable: *function_type_variable,
                    args: views(args@),
                    original_function: *original_function,
                },
            RepairKind::Variable { variable_variable, offset_variable, original_variable } =>
                RepairKindView::Variable {
                    variable_variable: *variable_variable,
                    offset_variable: *offset_variable,
                    original_variable: *original_variable,
                },
        }
    }
}

impl<V: Copy> View for RepairKind<V> {
    type V = RepairKindView<V>;

    open spec fn view(&self) -> RepairKindView<V> {
        self.view_kind()
    }
}

/// `kind` with the repair variables of `other`, where both are of the same shape.
pub open spec fn with_existing(
    kind: RepairKindView<RepairVariable>,
    other: RepairKindView<VariableReference>,
) -> Option<RepairKindView<VariableReference>> {
    match (kind, other) {
        (RepairKindView::IntegerReplacement { original_value, .. }, RepairKindView::IntegerReplacement { variable, .. }) =>
            Some(RepairKindView::IntegerReplacement { variable, original_value }),
        (RepairKindView::Comparison { original_operator, .. }, RepairKindView::Comparison { operator_variable, offset_variable, .. }) =>
            Some(RepairKindView::Comparison { operator_variable, offset_variable, original_operator }),
        (RepairKindView::FunctionCall { original_function, args, .. }, RepairKindView::FunctionCall { function_type_variable, .. }) =>
            Some(RepairKindView::FunctionCall { function_type_variable, args, original_function }),
        (RepairKindView::Variable { original_variable, .. }, RepairKindView::Variable { variable_variable, offset_variable, .. }) =>
            Some(RepairKindView::Variable { variable_variable, offset_variable, original_variable }),
        _ => None,
    }
}

impl RepairKind<RepairVariable> {
    /// This repair with the repair variables of `other`, which must have the same shape.
    pub fn with_existing_variables(self, other: &RepairKind<VariableReference>) -> (r: Result<RepairKind<VariableReference>, RepairError>)
        ensures
            match with_existing(self@, other@) {
                Some(k) => r matches Ok(rk) && rk@ == k,
                None => r == Err::<RepairKind<VariableReference>, RepairError>(RepairError::IncompatibleGroupedRepair),
            },
    {
        match self {
            RepairKind::IntegerReplacement { original_value, .. } => {
                if let RepairKind::IntegerReplacement { variable, .. } = other {
                    Ok(RepairKind::IntegerReplacement { variable: *variable, original_value })
                } else {
                    Err(RepairError::IncompatibleGroupedRepair)
                }
            },
            RepairKind::Comparison { original_operator, .. } => {
                if let RepairKind::Comparison { operator_variable, offset_variable, .. } = other {
                    Ok(RepairKind::Comparison {
                        operator_variable: *operator_variable,
                        offset_variable: *offset_variable,
                        original_operator,
                    })
                } else {
                    Err(RepairError::IncompatibleGroupedRepair)
                }
            },
            RepairKind::FunctionCall { original_function, args, .. } => {
                if let RepairKind::FunctionCall { function_type_variable, .. } = other {
                    Ok(RepairKind::FunctionCall { function_type_variable: *function_type_variable, original_function, args })
                } else {
                    Err(RepairError::IncompatibleGroupedRepair)
                }
            },
            RepairKind::Variable { original_variable, .. } => {
                if let RepairKind::Variable { variable_variable, offset_variable, .. } = other {
                    Ok(RepairKind::Variable {
                        original_variable,
                        variable_variable: *variable_variable,
                        offset_variable: *offset_variable,
                    })
                } else {
                    Err(RepairError::IncompatibleGroupedRepair)
                }
            },
        }
    }
}

/// A cost parameter as written: an integer or the bits of a double literal.
#[derive(Clone, Copy, PartialEq, Eq, Debug)]
pub enum CostValue {
    Int(i64),
    Float(u64),
}

/// The bits of the double `1.0`.
pub const ONE_BITS: u64 = 0x3FF0_0000_0000_0000u64;

/// How the cost of a repair grows with the change it makes.
#[derive(Clone, Copy, PartialEq, Eq, Debug)]
pub enum CostFunction {
    /// `costs` for any change, nothing for none.
    Uniform { costs: CostValue },
    /// `factor` times the distance between the original and the new value.
    Linear { factor: CostValue },
}

/// The cost value that a literal argument gives.
pub open spec fn cost_value(e: ExprView) -> Result<CostValue, RepairError> {
    match e {
        ExprView::Int(v, _) => Ok(CostValue::Int(v)),
        ExprView::Float(v, _) => Ok(CostValue::Float(v)),
        _ => Err(RepairError::InvalidCostValue),
    }
}

/// The cost function that `uniform_costs(c)` or `linear_costs(f)` denotes.
pub open spec fn cost_function_of(e: ExprView) -> Result<CostFunction, RepairError> {
    match e {
        ExprView::Function(name, _, args, _) =>
            if name == "uniform_costs"@ {
                if args.len() == 0 {
                    Err(RepairError::MissingCostValue)
                } else {
                    match cost_value(args[0]) {
                        Ok(v) => Ok(CostFunction::Uniform { costs: v }),
                        Err(err) => Err(err),
                    }
                }
            } else if name == "linear_costs"@ {
                if args.len() == 0 {
                    Err(RepairError::MissingCostValue)
                } else {
                    match cost_value(args[0]) {
                        Ok(v) => Ok(CostFunction::Linear { factor: v }),
                        Err(err) => Err(err),
                    }
                }
            } else {
                Err(RepairError::UnknownCostFunction)
            },
        _ => Err(RepairError::InvalidCostSpecifier),
    }
}

fn arg_to_cost_value(arg: &Expression) -> (r: Result<CostValue, RepairError>)
    ensures
        r == cost_value(arg@),
{
    match arg {
        Expression::Int(v, _) => Ok(CostValue::Int(*v)),
        Expression::Float(v, _) => Ok(CostValue::Float(*v)),
        _ => Err(RepairError::InvalidCostValue),
    }
}

impl CostFunction {
    /// Reads a cost specifier `uniform_costs(c)` or `linear_costs(f)`.
    pub fn from_expression(expression: &Expression) -> (r: Result<CostFunction, RepairError>)
        ensures
            r == cost_function_of(expression@),
    {
        match expression {
            Expression::Function(identifier, args, _) => {
                proof { crate::prism::expression::lemma_views(args@); }
                if str_eq_string("uniform_costs", &identifier.name) {
                    if args.len() == 0 {
                        return Err(RepairError::MissingCostValue);
                    }
                    match arg_to_cost_value(&args[0]) {
                        Ok(v) => Ok(CostFunction::Uniform { costs: v }),
                        Err(err) => Err(err),
                    }
                } else if str_eq_string("linear_costs", &identifier.name) {
                    if args.len() == 0 {
                        return Err(RepairError::MissingCostValue);
                    }
                    match arg_to_cost_value(&args[0]) {
                        Ok(v) => Ok(CostFunction::Linear { factor: v }),
                        Err(err) => Err(err),
                    }
                } else {
                    Err(RepairError::UnknownCostFunction)
                }
            },
            _ => Err(RepairError::InvalidCostSpecifier),
        }
    }

    /// How many cost units a change from `original_value` to `new_value` counts: for
    /// uniform costs one unit for any change, for linear costs the distance. The cost is
    /// this count times the cost parameter.
    pub fn cost_units(&self, original_value: i64, new_value: i64) -> (r: u64)
        ensures
            r as int == match self {
                CostFunction::Uniform { .. } => if original_value != new_value { 1int } else { 0int },
                CostFunction::Linear { .. } => crate::context::permissible_bounds::abs(original_value - new_value),
            },
    {
        match self {
            CostFunction::Uniform { .. } => if original_value != new_value { 1 } else { 0 },
            CostFunction::Linear { .. } => {
                if original_value >= new_value {
                    ((original_value as i128) - (new_value as i128)) as u64
                } else {
                    ((new_value as i128) - (original_value as i128)) as u64
                }
            },
        }
    }
}

/// A repair of one place of the model.
pub struct Repair {
    pub original_span: Span,
    pub kind: RepairKind<VariableReference>,
    pub cost_function: CostFunction,
}

/// The mathematical value of a [`Repair`].
pub ghost struct RepairView {
    pub original_span: Span,
    pub kind: RepairKindView<VariableReference>,
    pub cost_function: CostFunction,
}

impl View for Repair {
    type V = RepairView;

    open spec fn view(&self) -> RepairView {
        RepairView { original_span: self.original_span, kind: self.kind@, cost_function: self.cost_function }
    }
}

/// The repairs of a model and the variables they add to it.
///
/// Repair variable `i` gets the variable index `first_variable_index + i`. A group name
/// maps to the index of the first repair of its group.
pub struct RepairCollection {
    pub first_variable_index: usize,
    pub repair_variables: Vec<RepairVariable>,
    pub repairs: Vec<Repair>,
    pub name_representatives: Vec<(String, usize)>,
}

/// The mathematical value of a [`RepairCollection`].
pub ghost struct CollectionView {
    pub first_variable_index: usize,
    pub repair_variables: Seq<RepairVariable>,
    pub repairs: Seq<RepairView>,
    pub names: Seq<(Seq<char>, usize)>,
}

/// The views of a list of repairs.
pub open spec fn repair_views(s: Seq<Repair>) -> Seq<RepairView> {
    s.map_values(|r: Repair| r@)
}

/// The views of a list of group names.
pub open spec fn name_views(s: Seq<(String, usize)>) -> Seq<(Seq<char>, usize)> {
    s.map_values(|p: (String, usize)| (p.0@, p.1))
}

impl View for RepairCollection {
    type V = CollectionView;

    open spec fn view(&self) -> CollectionView {
        CollectionView {
            first_variable_index: self.first_variable_index,
            repair_variables: self.repair_variables@,
            repairs: repair_views(self.repairs@),
            names: name_views(self.name_representatives@),
        }
    }
}

/// The repair index that a group name maps to, if any.
pub open spec fn lookup_name(names: Seq<(Seq<char>, usize)>, name: Seq<char>) -> Option<usize>
    decreases names.len(),
{
    if names.len() == 0 {
        None
    } else if names[0].0 == name {
        Some(names[0].1)
    } else {
        lookup_name(names.drop_first(), name)
    }
}

/// The group names are distinct and map to repairs below `bound`.
pub open spec fn names_ok(names: Seq<(Seq<char>, usize)>, bound: nat) -> bool {
    &&& forall|i: int| 0 <= i < names.len() ==> #[trigger] names[i].1 < bound
    &&& forall|i: int, j: int| 0 <= i < names.len() && 0 <= j < names.len() && i != j
            ==> #[trigger] names[i].0 != #[trigger] names[j].0
}

impl CollectionView {
    /// Every group name maps to a recorded repair.
    pub open spec fn wf(self) -> bool {
        names_ok(self.names, self.repairs.len())
    }

    /// The index that the next repair variable gets.
    pub open spec fn next_index(self) -> int {
        self.first_variable_index + self.repair_variables.len()
    }
}

/// Adds the repair variables of `kind` and refers to them by their indices; refused where an
/// index would not fit in `usize`.
pub open spec fn allocate(c: CollectionView, kind: RepairKindView<RepairVariable>)
    -> Result<(CollectionView, RepairKindView<VariableReference>), RepairError>
{
    let next = c.next_index();
    match kind {
        RepairKindView::IntegerReplacement { variable, original_value } =>
            if next > usize::MAX { Err(RepairError::TooManyRepairVariables) } else {
                Ok((CollectionView { repair_variables: c.repair_variables.push(variable), ..c },
                    RepairKindView::IntegerReplacement { variable: VariableReference { index: next as usize }, original_value }))
            },
        RepairKindView::Comparison { operator_variable, offset_variable, original_operator } =>
            if next + 1 > usize::MAX { Err(RepairError::TooManyRepairVariables) } else {
                Ok((CollectionView { repair_variables: c.repair_variables.push(operator_variable).push(offset_variable), ..c },
                    RepairKindView::Comparison {
                        operator_variable: VariableReference { index: next as usize },
                        offset_variable: VariableReference { index: (next + 1) as usize },
                        original_operator,
                    }))
            },
        RepairKindView::FunctionCall { function_type_variable, args, original_function } =>
            if next > usize::MAX { Err(RepairError::TooManyRepairVariables) } else {
                Ok((CollectionView { repair_variables: c.repair_variables.push(function_type_variable), ..c },
                    RepairKindView::FunctionCall { function_type_variable: VariableReference { index: next as usize }, args, original_function }))
            },
        RepairKindView::Variable { variable_variable, offset_variable, original_variable } =>
            if next + 1 > usize::MAX { Err(RepairError::TooManyRepairVariables) } else {
                Ok((CollectionView { repair_variables: c.repair_variables.push(variable_variable).push(offset_variable), ..c },
                    RepairKindView::Variable {
                        variable_variable: VariableReference { index: next as usize },
                        offset_variable: VariableReference { index: (next + 1) as usize },
                        original_variable,
                    }))
            },
    }
}

/// What asking for the repair variables of `kind` under an optional group name does: a
/// known group reuses the variables of its first repair; a new group name is recorded for
/// the repair that comes next; without a group, or for a new group, fresh variables are
/// added.
pub open spec fn request(c: CollectionView, name: Option<Seq<char>>, kind: RepairKindView<RepairVariable>)
    -> Result<(CollectionView, RepairKindView<VariableReference>), RepairError>
{
    match name {
        Some(n) => match lookup_name(c.names, n) {
            Some(rep) => match with_existing(kind, c.repairs[rep as int].kind) {
                Some(k) => Ok((c, k)),
                None => Err(RepairError::IncompatibleGroupedRepair),
            },
            None => allocate(CollectionView { names: c.names.push((n, c.repairs.len() as usize)), ..c }, kind),
        },
        None => allocate(c, kind),
    }
}

proof fn lemma_lookup_name(names: Seq<(Seq<char>, usize)>, name: Seq<char>)
    ensures
        lookup_name(names, name) matches Some(r) ==> exists|i: int| 0 <= i < names.len() && #[trigger] names[i] == (name, r),
        lookup_name(names, name) is None ==> forall|i: int| 0 <= i < names.len() ==> #[trigger] names[i].0 != name,
    decreases names.len(),
{
    if names.len() > 0 {
        lemma_lookup_name(names.drop_first(), name);
        if names[0].0 != name {
            if let Some(r) = lookup_name(names, name) {
                let i = choose|i: int| 0 <= i < names.drop_first().len() && #[trigger] names.drop_first()[i] == (name, r);
                assert(names[i + 1] == (name, r));
            } else {
                assert forall|i: int| 0 <= i < names.len() implies #[trigger] names[i].0 != name by {
                    if i > 0 {
                        assert(names.drop_first()[i - 1] == names[i]);
                    }
                }
            }
        } else {
            assert(names[0] == (name, names[0].1));
        }
    }
}

/// A request leaves the group names distinct, mapping to repairs below one more than before.
pub proof fn lemma_request_names(c: CollectionView, name: Option<Seq<char>>, kind: RepairKindView<RepairVariable>)
    requires
        c.wf(),
        c.repairs.len() <= usize::MAX,
    ensures
        request(c, name, kind) matches Ok((c2, _)) ==> names_ok(c2.names, c.repairs.len() + 1)
            && c2.repairs == c.repairs && c2.first_variable_index == c.first_variable_index,
{
    if let Some(n) = name {
        lemma_lookup_name(c.names, n);
        if lookup_name(c.names, n) is None {
            let names2 = c.names.push((n, c.repairs.len() as usize));
            assert forall|i: int, j: int| 0 <= i < names2.len() && 0 <= j < names2.len() && i != j
                implies #[trigger] names2[i].0 != #[trigger] names2[j].0 by {
                if i < c.names.len() && j < c.names.len() {
                    assert(names2[i] == c.names[i]);
                    assert(names2[j] == c.names[j]);
                } else if i < c.names.len() {
                    assert(names2[i] == c.names[i]);
                } else {
                    assert(names2[j] == c.names[j]);
                }
            }
            assert forall|i: int| 0 <= i < names2.len() implies #[trigger] names2[i].1 < c.repairs.len() + 1 by {
                if i < c.names.len() {
                    assert(names2[i] == c.names[i]);
                }
            }
        }
    }
}

/// The repair variables that a repair refers to, in order.
pub open spec fn kind_variables(k: RepairKindView<VariableReference>) -> Seq<VariableReference> {
    match k {
        RepairKindView::IntegerReplacement { variable, .. } => seq![variable],
        RepairKindView::Comparison { operator_variable, offset_variable, .. } => seq![operator_variable, offset_variable],
        RepairKindView::FunctionCall { function_type_variable, .. } => seq![function_type_variable],
        RepairKindView::Variable { variable_variable, offset_variable, .. } => seq![variable_variable, offset_variable],
    }
}

proof fn lemma_lookup_pushed(names: Seq<(Seq<char>, usize)>, n: Seq<char>, r: usize)
    requires
        lookup_name(names, n) is None,
    ensures
        lookup_name(names.push((n, r)), n) == Some(r),
    decreases names.len(),
{
    if names.len() > 0 {
        assert(names.push((n, r)).drop_first() =~= names.drop_first().push((n, r)));
        lemma_lookup_pushed(names.drop_first(), n, r);
    }
}

/// Repairs of one group share their variables: a request under a known group name adds no
/// repair variable and refers to the variables of the group's first repair, or is refused
/// where its shape differs; a request under a new name records the name for the repair that
/// comes next.
pub proof fn law_grouped_requests_share_variables(c: CollectionView, n: Seq<char>, kind: RepairKindView<RepairVariable>)
    ensures
        lookup_name(c.names, n) matches Some(first) ==> match request(c, Some(n), kind) {
            Ok((c2, k)) => c2 == c && kind_variables(k) == kind_variables(c.repairs[first as int].kind),
            Err(e) => e == RepairError::IncompatibleGroupedRepair,
        },
        lookup_name(c.names, n) is None ==> (request(c, Some(n), kind) matches Ok((c2, _))
            ==> lookup_name(c2.names, n) == Some(c.repairs.len() as usize)),
{
    if lookup_name(c.names, n) is None {
        lemma_lookup_pushed(c.names, n, c.repairs.len() as usize);
    }
}

impl RepairCollection {
    /// A collection for a model with `existing_variable_count` variables.
    pub fn new(existing_variable_count: usize) -> (r: RepairCollection)
        ensures
            r@.first_variable_index == existing_variable_count,
            r@.repair_variables.len() == 0,
            r@.repairs.len() == 0,
            r@.names.len() == 0,
            r@.wf(),
    {
        let r = RepairCollection {
            first_variable_index: existing_variable_count,
            repair_variables: Vec::new(),
            repairs: Vec::new(),
            name_representatives: Vec::new(),
        };
        assert(r@.repairs =~= Seq::<RepairView>::empty());
        assert(r@.names =~= Seq::<(Seq<char>, usize)>::empty());
        r
    }

    fn find_name(&self, name: &String) -> (r: Option<usize>)
        ensures
            r == lookup_name(self@.names, name@),
    {
        let mut i: usize = 0;
        let ghost names = self@.names;
        assert(names.subrange(0, names.len() as int) =~= names);
        while i < self.name_representatives.len()
            invariant
                i <= self.name_representatives@.len(),
                names == name_views(self.name_representatives@),
                names.len() == self.name_representatives@.len(),
                lookup_name(names, name@) == lookup_name(names.subrange(i as int, names.len() as int), name@),
            decreases self.name_representatives.len() - i,
        {
            let ghost rest = names.subrange(i as int, names.len() as int);
            assert(rest[0] == (self.name_representatives@[i as int].0@, self.name_representatives@[i as int].1));
            assert(rest.drop_first() =~= names.subrange(i + 1, names.len() as int));
            if self.name_representatives[i].0 == *name {
                return Some(self.name_representatives[i].1);
            }
            i += 1;
        }
        None
    }

    fn add_variable(&mut self, variable: RepairVariable) -> (r: Result<VariableReference, RepairError>)
        ensures
            old(self)@.next_index() > usize::MAX ==> r is Err && r == Err::<VariableReference, RepairError>(RepairError::TooManyRepairVariables),
            old(self)@.next_index() <= usize::MAX ==> r == Ok::<VariableReference, RepairError>(VariableReference { index: old(self)@.next_index() as usize })
                && final(self)@ == (CollectionView { repair_variables: old(self)@.repair_variables.push(variable), ..old(self)@ }),
    {
        if self.repair_variables.len() > usize::MAX - self.first_variable_index {
            return Err(RepairError::TooManyRepairVariables);
        }
        let reference = VariableReference::new(self.first_variable_index + self.repair_variables.len());
        self.repair_variables.push(variable);
        Ok(reference)
    }

    /// The repair variables for a requested repair, as [`request`] describes.
    pub fn request_to_reference(&mut self, name: Option<String>, kind: RepairKind<RepairVariable>)
        -> (r: Result<RepairKind<VariableReference>, RepairError>)
        requires
            old(self)@.wf(),
        ensures
            match request(old(self)@, match name { Some(n) => Some(n@), None => None }, kind@) {
                Ok((c, k)) => r matches Ok(rk) && rk@ == k && final(self)@ == c,
                Err(e) => r == Err::<RepairKind<VariableReference>, RepairError>(e),
            },
    {
        let ghost c0 = self@;
        if let Some(name) = name {
            if let Some(representative) = self.find_name(&name) {
                proof { lemma_lookup_name(c0.names, name@); }
                let i = representative;
                proof {
                    let k = choose|k: int| 0 <= k < c0.names.len() && #[trigger] c0.names[k] == (name@, i);
                    assert(c0.names[k].1 < c0.repairs.len());
                }
                return kind.with_existing_variables(&self.repairs[i].kind);
            } else {
                let ghost before = self.name_representatives@;
                let len = self.repairs.len();
                self.name_representatives.push((name, len));
                assert(name_views(self.name_representatives@) =~= c0.names.push((name@, len)));
            }
        }
        let ghost c1 = self@;
        match kind {
            RepairKind::IntegerReplacement { variable, original_value } => {
                let v = self.add_variable(variable)?;
                Ok(RepairKind::IntegerReplacement { variable: v, original_value })
            },
            RepairKind::Comparison { operator_variable, offset_variable, original_operator } => {
                let a = self.add_variable(operator_variable)?;
                let b = self.add_variable(offset_variable)?;
                Ok(RepairKind::Comparison { operator_variable: a, offset_variable: b, original_operator })
            },
            RepairKind::FunctionCall { function_type_variable, original_function, args } => {
                let v = self.add_variable(function_type_variable)?;
                Ok(RepairKind::FunctionCall { function_type_variable: v, args, original_function })
            },
            RepairKind::Variable { variable_variable, offset_variable, original_variable } => {
                let a = self.add_variable(variable_variable)?;
                let b = self.add_variable(offset_variable)?;
                Ok(RepairKind::Variable { variable_variable: a, offset_variable: b, original_variable })
            },
        }
    }

    /// Records a repair.
    pub fn add_repair(&mut self, span: Span, kind: RepairKind<VariableReference>, cost_function: CostFunction)
        ensures
            final(self)@ == (CollectionView {
                repairs: old(self)@.repairs.push(RepairView { original_span: span, kind: kind@, cost_function }),
                ..old(self)@
            }),
    {
        let ghost before = self.repairs@;
        self.repairs.push(Repair { original_span: span, kind, cost_function });
        assert(repair_views(self.repairs@) =~= repair_views(before).push(RepairView { original_span: span, kind: kind@, cost_function }));
    }
}

} // verus!
