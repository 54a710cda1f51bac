//! The values that a variable of a synthesised module can take, and every valuation of a list
//! of variables.
use vstd::prelude::*;
use crate::engine::synthesis::interface::no_span;
use crate::prism::expression::{ExprView, Expression, Span};
use crate::prism::model::{RangeView, VariableInfo, VariableRange};
use crate::text::{append_i64, append_str, signed_decimal};

verus! {

/// A value of a bounded integer or a Boolean variable.
#[derive(Clone, Copy, PartialEq, Eq, Structural, Debug)]
pub enum Literal {
    Int(i64),
    Bool(bool),
}

/// The expression that writes the value.
pub open spec fn literal_expr(l: Literal) -> ExprView {
    match l {
        Literal::Int(v) => ExprView::Int(v, no_span()),
        Literal::Bool(b) => ExprView::Bool(b, no_span()),
    }
}

/// How the value is printed: `-3`, `true`.
pub open spec fn literal_text(l: Literal) -> Seq<char> {
    match l {
        Literal::Int(v) => signed_decimal(v),
        Literal::Bool(b) => if b { "true"@ } else { "false"@ },
    }
}

impl Literal {
    /// The expression that writes the value.
    pub fn to_expression(&self) -> (e: Expression)
        ensures
            e@ == literal_expr(*self),
    {
        match self {
            Literal::Int(v) => Expression::Int(*v, Span { start: 0, end: 0 }),
            Literal::Bool(b) => Expression::Bool(*b, Span { start: 0, end: 0 }),
        }
    }

    /// Appends the value as [`literal_text`] prints it.
    pub fn append_text(&self, out: &mut Vec<char>)
        ensures
            final(out)@ == old(out)@ + literal_text(*self),
    {
        match self {
            Literal::Int(v) => append_i64(out, *v),
            Literal::Bool(b) => {
                if *b {
                    append_str(out, "true");
                } else {
                    append_str(out, "false");
                }
            },
        }
    }
}

/// Why a variable has no finite list of values.
#[derive(Clone, Copy, PartialEq, Eq, Structural, Debug)]
pub enum DomainError {
    /// A bounded integer whose bounds are not integer literals.
    NonLiteralBounds,
    /// An integer without bounds.
    UnboundedInteger,
    /// A floating-point variable.
    FloatVariable,
}

/// The integers from `min` to `max`, both included.
pub open spec fn int_range(min: i64, max: i64) -> Seq<Literal> {
    Seq::new(if max >= min { (max - min + 1) as nat } else { 0 }, |k: int| Literal::Int((min + k) as i64))
}

/// The values of a variable with this range, in increasing order.
pub open spec fn domain_of(r: RangeView) -> Result<Seq<Literal>, DomainError> {
    match r {
        RangeView::BoundedInt { min, max, .. } => match (min, max) {
            (ExprView::Int(a, _), ExprView::Int(b, _)) => Ok(int_range(a, b)),
            _ => Err(DomainError::NonLiteralBounds),
        },
        RangeView::UnboundedInt { .. } => Err(DomainError::UnboundedInteger),
        RangeView::Boolean { .. } => Ok(seq![Literal::Bool(false), Literal::Bool(true)]),
        RangeView::Float { .. } => Err(DomainError::FloatVariable),
    }
}

/// The values of the variable, as [`domain_of`] says.
pub fn variable_domain(v: &VariableInfo) -> (r: Result<Vec<Literal>, DomainError>)
    ensures
        match domain_of(v@.range) {
            Ok(d) => r matches Ok(x) && x@ == d,
            Err(e) => r == Err::<Vec<Literal>, DomainError>(e),
        },
{
    match &v.range {
        VariableRange::BoundedInt { min, max, .. } => {
            let (a, b) = match (min, max) {
                (Expression::Int(a, _), Expression::Int(b, _)) => (*a, *b),
                _ => return Err(DomainError::NonLiteralBounds),
            };
            let mut values: Vec<Literal> = Vec::new();
            if a <= b {
                let mut i: i64 = a;
                loop
                    invariant_except_break
                        a <= i <= b,
                        values@.len() == i - a,
                        forall|k: int| 0 <= k < values@.len() ==> #[trigger] values@[k] == Literal::Int((a + k) as i64),
                    ensures
                        values@.len() == b - a + 1,
                        forall|k: int| 0 <= k < values@.len() ==> #[trigger] values@[k] == Literal::Int((a + k) as i64),
                    decreases b - i,
                {
                    values.push(Literal::Int(i));
                    if i == b {
                        break;
                    }
                    i += 1;
                }
            }
            assert(values@ =~= int_range(a, b));
            Ok(values)
        },
        VariableRange::UnboundedInt { .. } => Err(DomainError::UnboundedInteger),
        VariableRange::Boolean { .. } => {
            let mut values: Vec<Literal> = Vec::new();
            values.push(Literal::Bool(false));
            values.push(Literal::Bool(true));
            assert(values@ =~= seq![Literal::Bool(false), Literal::Bool(true)]);
            Ok(values)
        },
        VariableRange::Float { .. } => Err(DomainError::FloatVariable),
    }
}

/// The valuations that extend each of the first `j` valuations of `rest` by a value of `d`,
/// the value changing fastest.
pub open spec fn extended(d: Seq<Literal>, rest: Seq<Seq<Literal>>, j: nat) -> Seq<Seq<Literal>>
    decreases j,
{
    if j == 0 || j > rest.len() {
        Seq::empty()
    } else {
        extended(d, rest, (j - 1) as nat) + d.map_values(|x: Literal| seq![x] + rest[j - 1])
    }
}

/// Every valuation of the domains from `from` on: one value of each domain, in order, the
/// value of the first domain changing fastest. Without domains there is one empty valuation.
pub open spec fn valuations(ds: Seq<Seq<Literal>>, from: nat) -> Seq<Seq<Literal>>
    decreases ds.len() - from,
{
    if from >= ds.len() {
        seq![Seq::empty()]
    } else {
        let rest = valuations(ds, from + 1);
        extended(ds[from as int], rest, rest.len())
    }
}

/// Whether `v` takes one value of each domain from `from` on, in order.
pub open spec fn is_valuation(ds: Seq<Seq<Literal>>, from: nat, v: Seq<Literal>) -> bool {
    &&& v.len() + from == ds.len()
    &&& forall|i: int| 0 <= i < v.len() ==> #[trigger] ds[from + i].contains(v[i])
}

proof fn lemma_extended(d: Seq<Literal>, rest: Seq<Seq<Literal>>, j: nat)
    requires
        j <= rest.len(),
    ensures
        forall|v: Seq<Literal>| #[trigger] extended(d, rest, j).contains(v) <==>
            (v.len() > 0 && d.contains(v[0]) && exists|k: int| 0 <= k < j && #[trigger] rest[k] == v.drop_first()),
    decreases j,
{
    if j > 0 {
        lemma_extended(d, rest, (j - 1) as nat);
        let prev = extended(d, rest, (j - 1) as nat);
        let f = |x: Literal| seq![x] + rest[j - 1];
        let added = d.map_values(f);
        let cur = extended(d, rest, j);
        assert(cur == prev + added);
        assert forall|v: Seq<Literal>| #[trigger] cur.contains(v) <==>
            (v.len() > 0 && d.contains(v[0]) && exists|k: int| 0 <= k < j && #[trigger] rest[k] == v.drop_first()) by {
            if cur.contains(v) {
                let p = choose|p: int| 0 <= p < cur.len() && cur[p] == v;
                if p < prev.len() {
                    assert(prev[p] == cur[p]);
                    assert(prev.contains(v));
                    let k = choose|k: int| 0 <= k < j - 1 && #[trigger] rest[k] == v.drop_first();
                    assert(rest[k] == v.drop_first());
                } else {
                    let q = p - prev.len();
                    assert(cur[p] == added[q]);
                    assert(added[q] == seq![d[q]] + rest[j - 1]);
                    assert(v[0] == d[q]);
                    assert(v.drop_first() =~= rest[j - 1]);
                    assert(rest[j - 1] == v.drop_first());
                }
            }
            if v.len() > 0 && d.contains(v[0]) && exists|k: int| 0 <= k < j && #[trigger] rest[k] == v.drop_first() {
                let k = choose|k: int| 0 <= k < j && #[trigger] rest[k] == v.drop_first();
                if k < j - 1 {
                    assert(prev.contains(v));
                    let p = choose|p: int| 0 <= p < prev.len() && prev[p] == v;
                    assert(cur[p] == prev[p]);
                } else {
                    let q = choose|q: int| 0 <= q < d.len() && d[q] == v[0];
                    assert(added[q] == seq![d[q]] + rest[j - 1]);
                    assert(added[q] =~= v);
                    assert(cur[prev.len() + q] == added[q]);
                }
            }
        }
    }
}

/// The valuations of the domains are exactly the ways to take one value of each domain, in
/// order.
pub proof fn law_valuations_are_all_combinations(ds: Seq<Seq<Literal>>, from: nat)
    requires
        from <= ds.len(),
    ensures
        forall|v: Seq<Literal>| #[trigger] valuations(ds, from).contains(v) <==> is_valuation(ds, from, v),
    decreases ds.len() - from,
{
    if from >= ds.len() {
        assert forall|v: Seq<Literal>| #[trigger] valuations(ds, from).contains(v) <==> is_valuation(ds, from, v) by {
            if is_valuation(ds, from, v) {
                assert(v =~= Seq::<Literal>::empty());
                assert(valuations(ds, from)[0] == v);
            }
        }
    } else {
        law_valuations_are_all_combinations(ds, from + 1);
        let rest = valuations(ds, from + 1);
        lemma_extended(ds[from as int], rest, rest.len());
        assert forall|v: Seq<Literal>| #[trigger] valuations(ds, from).contains(v) <==> is_valuation(ds, from, v) by {
            if valuations(ds, from).contains(v) {
                let k = choose|k: int| 0 <= k < rest.len() && #[trigger] rest[k] == v.drop_first();
                assert(rest.contains(rest[k]));
                assert(is_valuation(ds, from + 1, v.drop_first()));
                assert forall|i: int| 0 <= i < v.len() implies #[trigger] ds[from + i].contains(v[i]) by {
                    if i > 0 {
                        assert(v[i] == v.drop_first()[i - 1]);
                        assert(ds[(from + 1) + (i - 1)].contains(v.drop_first()[i - 1]));
                    }
                }
            }
            if is_valuation(ds, from, v) {
                assert(ds[from + 0int].contains(v[0]));
                assert forall|i: int| 0 <= i < v.drop_first().len() implies #[trigger] ds[(from + 1) + i].contains(v.drop_first()[i]) by {
                    assert(ds[from + (i + 1)].contains(v[i + 1]));
                }
                assert(is_valuation(ds, from + 1, v.drop_first()));
                assert(rest.contains(v.drop_first()));
                let k = choose|k: int| 0 <= k < rest.len() && rest[k] == v.drop_first();
                assert(rest[k] == v.drop_first());
            }
        }
    }
}

/// The views of a list of valuations.
pub open spec fn valuation_views(v: Seq<Vec<Literal>>) -> Seq<Seq<Literal>> {
    v.map_values(|x: Vec<Literal>| x@)
}

/// The views of a list of domains.
pub open spec fn domain_views(v: Seq<Vec<Literal>>) -> Seq<Seq<Literal>> {
    v.map_values(|x: Vec<Literal>| x@)
}

/// Every valuation of the domains from `from` on, as [`valuations`] lists them.
pub fn all_valuations(ds: &Vec<Vec<Literal>>, from: usize) -> (r: Vec<Vec<Literal>>)
    requires
        from <= ds@.len(),
    ensures
        valuation_views(r@) == valuations(domain_views(ds@), from as nat),
    decreases ds@.len() - from,
{
    let ghost dv = domain_views(ds@);
    if from >= ds.len() {
        let mut r: Vec<Vec<Literal>> = Vec::new();
        r.push(Vec::new());
        assert(valuation_views(r@) =~= valuations(dv, from as nat));
        return r;
    }
    let rest = all_valuations(ds, from + 1);
    let ghost rv = valuation_views(rest@);
    let d = &ds[from];
    assert(d@ == dv[from as int]);
    let mut r: Vec<Vec<Literal>> = Vec::new();
    let mut j: usize = 0;
    while j < rest.len()
        invariant
            j <= rest@.len(),
            rv == valuation_views(rest@),
            from < dv.len(),
            d@ == dv[from as int],
            valuation_views(r@) == extended(d@, rv, j as nat),
        decreases rest.len() - j,
    {
        let ghost before = valuation_views(r@);
        let mut i: usize = 0;
        assert(d@.subrange(0, 0).map_values(|x: Literal| seq![x] + rv[j as int]) =~= Seq::<Seq<Literal>>::empty());
        assert(before + Seq::<Seq<Literal>>::empty() =~= before);
        while i < d.len()
            invariant
                i <= d@.len(),
                j < rest@.len(),
                rv == valuation_views(rest@),
                valuation_views(r@) == before + d@.subrange(0, i as int).map_values(|x: Literal| seq![x] + rv[j as int]),
            decreases d.len() - i,
        {
            let mut val: Vec<Literal> = Vec::new();
            val.push(d[i]);
            let mut k: usize = 0;
            while k < rest[j].len()
                invariant
                    j < rest@.len(),
                    k <= rest@[j as int]@.len(),
                    val@ == seq![d@[i as int]] + rest@[j as int]@.subrange(0, k as int),
                decreases rest@[j as int]@.len() - k,
            {
                val.push(rest[j][k]);
                assert(val@ =~= seq![d@[i as int]] + rest@[j as int]@.subrange(0, k + 1));
                k += 1;
            }
            assert(rest@[j as int]@.subrange(0, k as int) =~= rest@[j as int]@);
            assert(rv[j as int] == rest@[j as int]@);
            let ghost f = |x: Literal| seq![x] + rv[j as int];
            let ghost r_before = valuation_views(r@);
            r.push(val);
            assert(d@.subrange(0, i + 1).map_values(f) =~= d@.subrange(0, i as int).map_values(f).push(seq![d@[i as int]] + rv[j as int]));
            assert(valuation_views(r@) =~= r_before.push(val@));
            assert(valuation_views(r@) =~= before + d@.subrange(0, i + 1).map_values(|x: Literal| seq![x] + rv[j as int]));
            i += 1;
        }
        assert(d@.subrange(0, d@.len() as int) =~= d@);
        assert(valuation_views(r@) =~= extended(d@, rv, (j + 1) as nat));
        j += 1;
    }
    r
}

} // verus!
