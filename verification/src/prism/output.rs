use vstd::prelude::*;
use crate::prism::expression::VariableReference;
use crate::prism::model::{Model, VariableManager, VariableScope, VariableView};
use crate::prism::results::OutputError;
use crate::text::{parse_i64, parsed_i64, str_chars};

verus! {

/// The variables of scope `scope` among the first `upto` that are not constants, in order.
pub open spec fn members(vs: Seq<VariableView>, scope: VariableScope, upto: nat) -> Seq<usize>
    decreases upto,
{
    if upto == 0 || upto > vs.len() {
        Seq::empty()
    } else {
        let prev = members(vs, scope, (upto - 1) as nat);
        let i = upto - 1;
        if !vs[i].is_constant && vs[i].scope == scope { prev.push(i as usize) } else { prev }
    }
}

/// The local variables of the first `count` modules, module by module.
pub open spec fn locals(vs: Seq<VariableView>, count: nat) -> Seq<usize>
    decreases count,
{
    if count == 0 {
        Seq::empty()
    } else {
        locals(vs, (count - 1) as nat) + members(vs, VariableScope::LocalVariable { module_index: (count - 1) as usize }, vs.len())
    }
}

/// The order in which the model checker lists the variables of a model with `module_count`
/// modules: the global variables, then the local variables of each module; constants are
/// not listed.
pub open spec fn prism_order(vs: Seq<VariableView>, module_count: nat) -> Seq<usize> {
    members(vs, VariableScope::GlobalVariable, vs.len()) + locals(vs, module_count)
}

/// Whether variable `i` is listed by the model checker for a model with `module_count`
/// modules: it is no constant, and it is global or local to one of the modules.
pub open spec fn listed(vs: Seq<VariableView>, module_count: nat, i: int) -> bool {
    &&& 0 <= i < vs.len()
    &&& !vs[i].is_constant
    &&& match vs[i].scope {
        VariableScope::GlobalVariable => true,
        VariableScope::LocalVariable { module_index } => module_index < module_count,
    }
}

proof fn lemma_members(vs: Seq<VariableView>, scope: VariableScope, upto: nat)
    requires
        upto <= vs.len(),
        vs.len() <= usize::MAX,
    ensures
        forall|k: int| 0 <= k < members(vs, scope, upto).len() ==> {
            let x = #[trigger] members(vs, scope, upto)[k];
            &&& x < upto
            &&& !vs[x as int].is_constant
            &&& vs[x as int].scope == scope
        },
        forall|x: int| 0 <= x < upto && !vs[x].is_constant && vs[x].scope == scope
            ==> #[trigger] members(vs, scope, upto).contains(x as usize),
        forall|a: int, b: int| 0 <= a < b < members(vs, scope, upto).len()
            ==> #[trigger] members(vs, scope, upto)[a] < #[trigger] members(vs, scope, upto)[b],
    decreases upto,
{
    if upto > 0 {
        let prev = members(vs, scope, (upto - 1) as nat);
        lemma_members(vs, scope, (upto - 1) as nat);
        let cur = members(vs, scope, upto);
        let i = upto - 1;
        if !vs[i].is_constant && vs[i].scope == scope {
            assert(cur == prev.push(i as usize));
            assert forall|x: int| 0 <= x < upto && !vs[x].is_constant && vs[x].scope == scope
                implies #[trigger] cur.contains(x as usize) by {
                if x == i {
                    assert(cur[prev.len() as int] == x as usize);
                } else {
                    assert(prev.contains(x as usize));
                    let k = choose|k: int| 0 <= k < prev.len() && prev[k] == x as usize;
                    assert(cur[k] == prev[k]);
                }
            }
            assert forall|a: int, b: int| 0 <= a < b < cur.len() implies #[trigger] cur[a] < #[trigger] cur[b] by {
                assert(cur[a] == prev[a]);
                if b < prev.len() {
                    assert(cur[b] == prev[b]);
                }
            }
        } else {
            assert(cur == prev);
            assert forall|x: int| 0 <= x < upto && !vs[x].is_constant && vs[x].scope == scope
                implies #[trigger] cur.contains(x as usize) by {
                assert(x != i);
            }
        }
    }
}

proof fn lemma_locals(vs: Seq<VariableView>, count: nat)
    requires
        vs.len() <= usize::MAX,
        count <= usize::MAX + 1,
    ensures
        forall|k: int| 0 <= k < locals(vs, count).len() ==> {
            let x = #[trigger] locals(vs, count)[k];
            &&& x < vs.len()
            &&& !vs[x as int].is_constant
            &&& vs[x as int].scope matches VariableScope::LocalVariable { module_index } && module_index < count
        },
        forall|x: int| 0 <= x < vs.len() && !vs[x].is_constant
            && (vs[x].scope matches VariableScope::LocalVariable { module_index } && module_index < count)
            ==> #[trigger] locals(vs, count).contains(x as usize),
        locals(vs, count).no_duplicates(),
    decreases count,
{
    if count > 0 {
        let m = (count - 1) as usize;
        let scope = VariableScope::LocalVariable { module_index: m };
        let prev = locals(vs, (count - 1) as nat);
        let own = members(vs, scope, vs.len());
        lemma_locals(vs, (count - 1) as nat);
        lemma_members(vs, scope, vs.len());
        let cur = locals(vs, count);
        assert(cur == prev + own);
        assert forall|k: int| 0 <= k < cur.len() implies {
            let x = #[trigger] cur[k];
            &&& x < vs.len()
            &&& !vs[x as int].is_constant
            &&& vs[x as int].scope matches VariableScope::LocalVariable { module_index } && module_index < count
        } by {
            if k < prev.len() {
                assert(cur[k] == prev[k]);
            } else {
                assert(cur[k] == own[k - prev.len()]);
            }
        }
        assert forall|x: int| 0 <= x < vs.len() && !vs[x].is_constant
            && (vs[x].scope matches VariableScope::LocalVariable { module_index } && module_index < count)
            implies #[trigger] cur.contains(x as usize) by {
            if vs[x].scope == scope {
                assert(own.contains(x as usize));
                let k = choose|k: int| 0 <= k < own.len() && own[k] == x as usize;
                assert(cur[prev.len() + k] == own[k]);
            } else {
                assert(prev.contains(x as usize));
                let k = choose|k: int| 0 <= k < prev.len() && prev[k] == x as usize;
                assert(cur[k] == prev[k]);
            }
        }
        assert forall|a: int, b: int| 0 <= a < cur.len() && 0 <= b < cur.len() && a != b implies cur[a] != cur[b] by {
            if a < prev.len() && b < prev.len() {
                assert(cur[a] == prev[a] && cur[b] == prev[b]);
            } else if a >= prev.len() && b >= prev.len() {
                assert(cur[a] == own[a - prev.len()] && cur[b] == own[b - prev.len()]);
                if a < b {
                    assert(own[a - prev.len()] < own[b - prev.len()]);
                } else {
                    assert(own[b - prev.len()] < own[a - prev.len()]);
                }
            } else if a < prev.len() {
                assert(cur[a] == prev[a]);
                assert(cur[b] == own[b - prev.len()]);
                assert(vs[own[b - prev.len()] as int].scope == scope);
                let x = prev[a];
                assert(vs[x as int].scope matches VariableScope::LocalVariable { module_index } && module_index < count - 1);
            } else {
                assert(cur[b] == prev[b]);
                assert(cur[a] == own[a - prev.len()]);
                assert(vs[own[a - prev.len()] as int].scope == scope);
                let x = prev[b];
                assert(vs[x as int].scope matches VariableScope::LocalVariable { module_index } && module_index < count - 1);
            }
        }
    }
}

/// The model checker lists each variable that is no constant and is global or local to one of
/// the modules exactly once, and nothing else.
pub proof fn law_prism_order_lists_each_variable_once(vs: Seq<VariableView>, module_count: nat)
    requires
        vs.len() <= usize::MAX,
        module_count <= usize::MAX,
    ensures
        prism_order(vs, module_count).no_duplicates(),
        forall|i: int| 0 <= i < vs.len() ==>
            (#[trigger] listed(vs, module_count, i) <==> prism_order(vs, module_count).contains(i as usize)),
        forall|k: int| 0 <= k < prism_order(vs, module_count).len() ==>
            listed(vs, module_count, #[trigger] prism_order(vs, module_count)[k] as int),
{
    let g = members(vs, VariableScope::GlobalVariable, vs.len());
    let l = locals(vs, module_count);
    let order = prism_order(vs, module_count);
    lemma_members(vs, VariableScope::GlobalVariable, vs.len());
    lemma_locals(vs, module_count);
    assert(order == g + l);
    assert forall|k: int| 0 <= k < order.len() implies listed(vs, module_count, #[trigger] order[k] as int) by {
        if k < g.len() {
            assert(order[k] == g[k]);
        } else {
            assert(order[k] == l[k - g.len()]);
        }
    }
    assert forall|i: int| 0 <= i < vs.len() implies
        (#[trigger] listed(vs, module_count, i) <==> order.contains(i as usize)) by {
        if listed(vs, module_count, i) {
            if vs[i].scope == VariableScope::GlobalVariable {
                assert(g.contains(i as usize));
                let k = choose|k: int| 0 <= k < g.len() && g[k] == i as usize;
                assert(order[k] == g[k]);
            } else {
                assert(l.contains(i as usize));
                let k = choose|k: int| 0 <= k < l.len() && l[k] == i as usize;
                assert(order[g.len() + k] == l[k]);
            }
        }
        if order.contains(i as usize) {
            let k = choose|k: int| 0 <= k < order.len() && order[k] == i as usize;
            assert(listed(vs, module_count, order[k] as int));
        }
    }
    assert forall|a: int, b: int| 0 <= a < order.len() && 0 <= b < order.len() && a != b implies order[a] != order[b] by {
        if a < g.len() && b < g.len() {
            assert(order[a] == g[a] && order[b] == g[b]);
            if a < b { assert(g[a] < g[b]); } else { assert(g[b] < g[a]); }
        } else if a >= g.len() && b >= g.len() {
            assert(order[a] == l[a - g.len()] && order[b] == l[b - g.len()]);
        } else if a < g.len() {
            assert(order[a] == g[a] && order[b] == l[b - g.len()]);
        } else {
            assert(order[b] == g[b] && order[a] == l[a - g.len()]);
        }
    }
}

/// Where each variable of a model stands in the valuations that the model checker prints.
pub struct VariableReferenceToPrismIndex {
    pub order: Vec<usize>,
}

impl VariableReferenceToPrismIndex {
    /// The positions of the variables of `model`, as [`prism_order`] says.
    pub fn from_model(model: &Model) -> (r: VariableReferenceToPrismIndex)
        ensures
            r.order@ == prism_order(model@.variables, model@.modules.len()),
    {
        let manager = &model.variable_manager;
        let ghost vs = model@.variables;
        let mut order: Vec<usize> = Vec::new();
        Self::append_members(manager, VariableScope::GlobalVariable, &mut order);
        let mut m: usize = 0;
        let ghost globals = members(vs, VariableScope::GlobalVariable, vs.len());
        assert(order@ =~= globals + locals(vs, 0));
        while m < model.modules.len()
            invariant
                vs == manager@,
                vs == model@.variables,
                globals == members(vs, VariableScope::GlobalVariable, vs.len()),
                m <= model.modules@.len(),
                order@ == globals + locals(vs, m as nat),
            decreases model.modules.len() - m,
        {
            let ghost before = order@;
            Self::append_members(manager, VariableScope::LocalVariable { module_index: m }, &mut order);
            assert(order@ =~= globals + locals(vs, (m + 1) as nat));
            m += 1;
        }
        VariableReferenceToPrismIndex { order }
    }

    fn append_members(manager: &VariableManager, scope: VariableScope, order: &mut Vec<usize>)
        ensures
            final(order)@ == old(order)@ + members(manager@, scope, manager@.len()),
    {
        let variables = &manager.variables;
        let ghost vs = manager@;
        let ghost start = old(order)@;
        let mut i: usize = 0;
        assert(start =~= start + members(vs, scope, 0));
        while i < variables.len()
            invariant
                i <= variables@.len(),
                vs == manager@,
                variables == &manager.variables,
                order@ == start + members(vs, scope, i as nat),
            decreases variables.len() - i,
        {
            assert(vs[i as int] == variables@[i as int]@);
            if !variables[i].is_constant && variables[i].scope == scope {
                order.push(i);
                assert(order@ =~= start + members(vs, scope, (i + 1) as nat));
            }
            i += 1;
        }
    }

    /// The position of a listed variable.
    pub fn ref_to_index(&self, reference: &VariableReference) -> (r: usize)
        requires
            self.order@.contains(reference.index),
        ensures
            r < self.order@.len(),
            self.order@[r as int] == reference.index,
            forall|j: int| 0 <= j < r ==> self.order@[j] != reference.index,
    {
        let mut i: usize = 0;
        while i < self.order.len()
            invariant
                i <= self.order@.len(),
                self.order@.contains(reference.index),
                forall|j: int| 0 <= j < i ==> self.order@[j] != reference.index,
            decreases self.order.len() - i,
        {
            if self.order[i] == reference.index {
                return i;
            }
            i += 1;
        }
        proof {
            let k = choose|k: int| 0 <= k < self.order@.len() && self.order@[k] == reference.index;
            assert(self.order@[k] != reference.index);
        }
        0
    }
}

/// The first position of `v` in `order`.
pub open spec fn position_of(order: Seq<usize>, v: usize) -> int {
    choose|k: int| 0 <= k < order.len() && order[k] == v && forall|j: int| 0 <= j < k ==> order[j] != v
}

/// The values of one valuation printed by the model checker, read by variable.
pub struct OutputVariableValues<'a, 'b> {
    pub values: &'a Vec<String>,
    pub ref_to_prism: &'b VariableReferenceToPrismIndex,
}

impl<'a, 'b> OutputVariableValues<'a, 'b> {
    pub fn new(values: &'a Vec<String>, ref_to_prism: &'b VariableReferenceToPrismIndex) -> (r: Self)
        ensures
            r.values == values,
            r.ref_to_prism == ref_to_prism,
    {
        OutputVariableValues { values, ref_to_prism }
    }

    /// Whether the valuation holds a value for `reference`.
    pub open spec fn has_value(&self, reference: VariableReference) -> bool {
        &&& self.ref_to_prism.order@.contains(reference.index)
        &&& position_of(self.ref_to_prism.order@, reference.index) < self.values@.len()
    }

    /// The printed value of `reference`.
    pub open spec fn value_of(&self, reference: VariableReference) -> Seq<char> {
        self.values@[position_of(self.ref_to_prism.order@, reference.index)]@
    }

    /// The printed value of a variable, if the valuation holds one.
    pub fn lookup(&self, reference: VariableReference) -> (r: Option<&String>)
        ensures
            self.has_value(reference) ==> (r matches Some(x) && x@ == self.value_of(reference)),
            !self.has_value(reference) ==> r is None,
    {
        let mut i: usize = 0;
        let order = &self.ref_to_prism.order;
        while i < order.len()
            invariant
                i <= order@.len(),
                order@ == self.ref_to_prism.order@,
                forall|j: int| 0 <= j < i ==> order@[j] != reference.index,
            decreases order.len() - i,
        {
            if order[i] == reference.index {
                proof {
                    let p = position_of(order@, reference.index);
                    assert(order@.contains(reference.index));
                    if p < i {
                        assert(order@[p] != reference.index);
                    } else if i < p {
                        assert(order@[i as int] != reference.index);
                    }
                }
                if i < self.values.len() {
                    return Some(&self.values[i]);
                } else {
                    return None;
                }
            }
            i += 1;
        }
        None
    }

    /// The printed value of a variable.
    pub fn get_value(&self, reference: VariableReference) -> (r: &String)
        requires
            self.has_value(reference),
        ensures
            r@ == self.value_of(reference),
    {
        let k = self.ref_to_prism.ref_to_index(&reference);
        proof {
            let p = position_of(self.ref_to_prism.order@, reference.index);
            if p < k {
                assert(self.ref_to_prism.order@[p] != reference.index);
            } else if k < p {
                assert(self.ref_to_prism.order@[k as int] != reference.index);
            }
        }
        &self.values[k]
    }

    /// The value of an integer variable; refused where the printed value is not an integer.
    /// Such a value is reported as an error, by design, for the caller to act on; the
    /// library never stops the program.
    pub fn get_int(&self, reference: VariableReference) -> (r: Result<i64, OutputError>)
        requires
            self.has_value(reference),
        ensures
            match parsed_i64(self.value_of(reference)) {
                Some(v) => r == Ok::<i64, OutputError>(v),
                None => r == Err::<i64, OutputError>(OutputError::NotAnInteger),
            },
    {
        let value = self.get_value(reference);
        let chars = str_chars(value.as_str());
        assert(chars@.subrange(0, chars@.len() as int) =~= chars@);
        match parse_i64(&chars, 0, chars.len()) {
            Some(v) => Ok(v),
            None => Err(OutputError::NotAnInteger),
        }
    }

    /// The value of a Boolean variable; refused where the printed value is neither `true` nor
    /// `false`. Such a value is reported as an error, by design, for the caller to act on; the
    /// library never stops the program.
    pub fn get_bool(&self, reference: VariableReference) -> (r: Result<bool, OutputError>)
        requires
            self.has_value(reference),
        ensures
            self.value_of(reference) == "true"@ ==> r == Ok::<bool, OutputError>(true),
            self.value_of(reference) == "false"@ ==> r == Ok::<bool, OutputError>(false),
            self.value_of(reference) != "true"@ && self.value_of(reference) != "false"@
                ==> r == Err::<bool, OutputError>(OutputError::NotABoolean),
    {
        let value = self.get_value(reference);
        proof {
            reveal_strlit("true");
            reveal_strlit("false");
            assert("true"@.len() != "false"@.len());
        }
        if crate::text::str_eq_string("true", value) {
            Ok(true)
        } else if crate::text::str_eq_string("false", value) {
            Ok(false)
        } else {
            Err(OutputError::NotABoolean)
        }
    }
}

} // verus!
