use vstd::prelude::*;

verus! {

/// A position range in the source text of a model.
#[derive(Clone, Copy, PartialEq, Eq, Debug)]
pub struct Span {
    pub start: usize,
    pub end: usize,
}

impl Span {
    pub fn new(start: usize, end: usize) -> (s: Span)
        ensures
            s.start == start,
            s.end == end,
    {
        Span { start, end }
    }
}

/// A reference to a variable or constant of a model, by its index in the variable list.
#[derive(Clone, Copy, PartialEq, Eq, Debug)]
pub struct VariableReference {
    pub index: usize,
}

impl VariableReference {
    pub fn new(index: usize) -> (r: VariableReference)
        ensures
            r.index == index,
    {
        VariableReference { index }
    }
}

/// A name in the model source, with the place where it stands.
pub struct Identifier {
    pub name: String,
    pub span: Span,
}

impl Identifier {
    pub fn new(name: String, span: Span) -> (id: Identifier)
        ensures
            id.name@ == name@,
            id.span == span,
    {
        Identifier { name, span }
    }
}

impl Clone for Identifier {
    fn clone(&self) -> (res: Self)
        ensures
            res.name@ == self.name@,
            res.span == self.span,
    {
        Identifier { name: self.name.clone(), span: self.span }
    }
}

/// An expression of the PRISM language.
///
/// A floating-point literal is held by the bits of its IEEE-754 double.
pub enum Expression {
    Int(i64, Span),
    Float(u64, Span),
    Bool(bool, Span),
    VarOrConst(VariableReference, Span),
    Label(String, Span),
    Function(Identifier, Vec<Expression>, Span),
    Minus(Box<Expression>, Span),
    Negation(Box<Expression>, Span),
    Multiplication(Box<Expression>, Box<Expression>, Span),
    Division(Box<Expression>, Box<Expression>, Span),
    Addition(Box<Expression>, Box<Expression>, Span),
    Subtraction(Box<Expression>, Box<Expression>, Span),
    LessThan(Box<Expression>, Box<Expression>, Span),
    LessOrEqual(Box<Expression>, Box<Expression>, Span),
    GreaterThan(Box<Expression>, Box<Expression>, Span),
    GreaterOrEqual(Box<Expression>, Box<Expression>, Span),
    Equals(Box<Expression>, Box<Expression>, Span),
    NotEquals(Box<Expression>, Box<Expression>, Span),
    Conjunction(Box<Expression>, Box<Expression>, Span),
    Disjunction(Box<Expression>, Box<Expression>, Span),
    IfAndOnlyIf(Box<Expression>, Box<Expression>, Span),
    Implies(Box<Expression>, Box<Expression>, Span),
    Ternary(Box<Expression>, Box<Expression>, Box<Expression>, Span),
}

/// The mathematical value of an [`Expression`]: names are character sequences and the
/// arguments of a function call a sequence.
pub ghost enum ExprView {
    Int(i64, Span),
    Float(u64, Span),
    Bool(bool, Span),
    VarOrConst(VariableReference, Span),
    Label(Seq<char>, Span),
    Function(Seq<char>, Span, Seq<ExprView>, Span),
    Minus(Box<ExprView>, Span),
    Negation(Box<ExprView>, Span),
    Multiplication(Box<ExprView>, Box<ExprView>, Span),
    Division(Box<ExprView>, Box<ExprView>, Span),
    Addition(Box<ExprView>, Box<ExprView>, Span),
    Subtraction(Box<ExprView>, Box<ExprView>, Span),
    LessThan(Box<ExprView>, Box<ExprView>, Span),
    LessOrEqual(Box<ExprView>, Box<ExprView>, Span),
    GreaterThan(Box<ExprView>, Box<ExprView>, Span),
    GreaterOrEqual(Box<ExprView>, Box<ExprView>, Span),
    Equals(Box<ExprView>, Box<ExprView>, Span),
    NotEquals(Box<ExprView>, Box<ExprView>, Span),
    Conjunction(Box<ExprView>, Box<ExprView>, Span),
    Disjunction(Box<ExprView>, Box<ExprView>, Span),
    IfAndOnlyIf(Box<ExprView>, Box<ExprView>, Span),
    Implies(Box<ExprView>, Box<ExprView>, Span),
    Ternary(Box<ExprView>, Box<ExprView>, Box<ExprView>, Span),
}

/// The views of a list of expressions.
pub open spec fn views(s: Seq<Expression>) -> Seq<ExprView>
    decreases s, 1nat,
{
    if s.len() == 0 {
        Seq::empty()
    } else {
        views(s.drop_last()).push(s.last().view_expr())
    }
}

impl Expression {
    /// The mathematical value of this expression.
    pub open spec fn view_expr(&self) -> ExprView
        decreases *self, 0nat,
    {
        match self {
            Expression::Int(v, s) => ExprView::Int(*v, *s),
            Expression::Float(v, s) => ExprView::Float(*v, *s),
            Expression::Bool(v, s) => ExprView::Bool(*v, *s),
            Expression::VarOrConst(v, s) => ExprView::VarOrConst(*v, *s),
            Expression::Label(l, s) => ExprView::Label(l@, *s),
            Expression::Function(n, args, s) => ExprView::Function(n.name@, n.span, views(args@), *s),
            Expression::Minus(a, s) => ExprView::Minus(Box::new(a.view_expr()), *s),
            Expression::Negation(a, s) => ExprView::Negation(Box::new(a.view_expr()), *s),
            Expression::Multiplication(a, b, s) => ExprView::Multiplication(Box::new(a.view_expr()), Box::new(b.view_expr()), *s),
            Expression::Division(a, b, s) => ExprView::Division(Box::new(a.view_expr()), Box::new(b.view_expr()), *s),
            Expression::Addition(a, b, s) => ExprView::Addition(Box::new(a.view_expr()), Box::new(b.view_expr()), *s),
            Expression::Subtraction(a, b, s) => ExprView::Subtraction(Box::new(a.view_expr()), Box::new(b.view_expr()), *s),
            Expression::LessThan(a, b, s) => ExprView::LessThan(Box::new(a.view_expr()), Box::new(b.view_expr()), *s),
            Expression::LessOrEqual(a, b, s) => ExprView::LessOrEqual(Box::new(a.view_expr()), Box::new(b.view_expr()), *s),
            Expression::GreaterThan(a, b, s) => ExprView::GreaterThan(Box::new(a.view_expr()), Box::new(b.view_expr()), *s),
            Expression::GreaterOrEqual(a, b, s) => ExprView::GreaterOrEqual(Box::new(a.view_expr()), Box::new(b.view_expr()), *s),
            Expression::Equals(a, b, s) => ExprView::Equals(Box::new(a.view_expr()), Box::new(b.view_expr()), *s),
            Expression::NotEquals(a, b, s) => ExprView::NotEquals(Box::new(a.view_expr()), Box::new(b.view_expr()), *s),
            Expression::Conjunction(a, b, s) => ExprView::Conjunction(Box::new(a.view_expr()), Box::new(b.view_expr()), *s),
            Expression::Disjunction(a, b, s) => ExprView::Disjunction(Box::new(a.view_expr()), Box::new(b.view_expr()), *s),
            Expression::IfAndOnlyIf(a, b, s) => ExprView::IfAndOnlyIf(Box::new(a.view_expr()), Box::new(b.view_expr()), *s),
            Expression::Implies(a, b, s) => ExprView::Implies(Box::new(a.view_expr()), Box::new(b.view_expr()), *s),
            Expression::Ternary(g, a, b, s) => ExprView::Ternary(Box::new(g.view_expr()), Box::new(a.view_expr()), Box::new(b.view_expr()), *s),
        }
    }
}

impl View for Expression {
    type V = ExprView;

    open spec fn view(&self) -> ExprView {
        self.view_expr()
    }
}

/// The two operands of a binary expression.
pub open spec fn binary_operands(e: ExprView) -> Option<(ExprView, ExprView)> {
    match e {
        ExprView::Multiplication(l, r, _) => Some((*l, *r)),
        ExprView::Division(l, r, _) => Some((*l, *r)),
        ExprView::Addition(l, r, _) => Some((*l, *r)),
        ExprView::Subtraction(l, r, _) => Some((*l, *r)),
        ExprView::LessThan(l, r, _) => Some((*l, *r)),
        ExprView::LessOrEqual(l, r, _) => Some((*l, *r)),
        ExprView::GreaterThan(l, r, _) => Some((*l, *r)),
        ExprView::GreaterOrEqual(l, r, _) => Some((*l, *r)),
        ExprView::Equals(l, r, _) => Some((*l, *r)),
        ExprView::NotEquals(l, r, _) => Some((*l, *r)),
        ExprView::Conjunction(l, r, _) => Some((*l, *r)),
        ExprView::Disjunction(l, r, _) => Some((*l, *r)),
        ExprView::IfAndOnlyIf(l, r, _) => Some((*l, *r)),
        ExprView::Implies(l, r, _) => Some((*l, *r)),
        _ => None,
    }
}

/// The operands of a binary expression are smaller than it.
pub proof fn lemma_binary_operands_smaller(e: ExprView)
    ensures
        binary_operands(e) matches Some((l, r)) ==> decreases_to!(e => l) && decreases_to!(e => r),
{
    match e {
        ExprView::Multiplication(l, r, _) => { assert(decreases_to!(e => *l)); assert(decreases_to!(e => *r)); },
        ExprView::Division(l, r, _) => { assert(decreases_to!(e => *l)); assert(decreases_to!(e => *r)); },
        ExprView::Addition(l, r, _) => { assert(decreases_to!(e => *l)); assert(decreases_to!(e => *r)); },
        ExprView::Subtraction(l, r, _) => { assert(decreases_to!(e => *l)); assert(decreases_to!(e => *r)); },
        ExprView::LessThan(l, r, _) => { assert(decreases_to!(e => *l)); assert(decreases_to!(e => *r)); },
        ExprView::LessOrEqual(l, r, _) => { assert(decreases_to!(e => *l)); assert(decreases_to!(e => *r)); },
        ExprView::GreaterThan(l, r, _) => { assert(decreases_to!(e => *l)); assert(decreases_to!(e => *r)); },
        ExprView::GreaterOrEqual(l, r, _) => { assert(decreases_to!(e => *l)); assert(decreases_to!(e => *r)); },
        ExprView::Equals(l, r, _) => { assert(decreases_to!(e => *l)); assert(decreases_to!(e => *r)); },
        ExprView::NotEquals(l, r, _) => { assert(decreases_to!(e => *l)); assert(decreases_to!(e => *r)); },
        ExprView::Conjunction(l, r, _) => { assert(decreases_to!(e => *l)); assert(decreases_to!(e => *r)); },
        ExprView::Disjunction(l, r, _) => { assert(decreases_to!(e => *l)); assert(decreases_to!(e => *r)); },
        ExprView::IfAndOnlyIf(l, r, _) => { assert(decreases_to!(e => *l)); assert(decreases_to!(e => *r)); },
        ExprView::Implies(l, r, _) => { assert(decreases_to!(e => *l)); assert(decreases_to!(e => *r)); },
        _ => {},
    }
}

/// The direct subexpressions of an expression, in the order they are written.
pub open spec fn children(e: ExprView) -> Seq<ExprView> {
    match e {
        ExprView::Function(_, _, args, _) => args,
        ExprView::Minus(a, _) => seq![*a],
        ExprView::Negation(a, _) => seq![*a],
        ExprView::Ternary(g, a, b, _) => seq![*g, *a, *b],
        _ => match binary_operands(e) {
            Some((l, r)) => seq![l, r],
            None => Seq::empty(),
        },
    }
}

/// The expression with its direct subexpressions replaced by `cs`, one for one.
pub open spec fn with_children(e: ExprView, cs: Seq<ExprView>) -> ExprView {
    match e {
        ExprView::Function(n, ns, _, s) => ExprView::Function(n, ns, cs, s),
        ExprView::Minus(_, s) => ExprView::Minus(Box::new(cs[0]), s),
        ExprView::Negation(_, s) => ExprView::Negation(Box::new(cs[0]), s),
        ExprView::Multiplication(_, _, s) => ExprView::Multiplication(Box::new(cs[0]), Box::new(cs[1]), s),
        ExprView::Division(_, _, s) => ExprView::Division(Box::new(cs[0]), Box::new(cs[1]), s),
        ExprView::Addition(_, _, s) => ExprView::Addition(Box::new(cs[0]), Box::new(cs[1]), s),
        ExprView::Subtraction(_, _, s) => ExprView::Subtraction(Box::new(cs[0]), Box::new(cs[1]), s),
        ExprView::LessThan(_, _, s) => ExprView::LessThan(Box::new(cs[0]), Box::new(cs[1]), s),
        ExprView::LessOrEqual(_, _, s) => ExprView::LessOrEqual(Box::new(cs[0]), Box::new(cs[1]), s),
        ExprView::GreaterThan(_, _, s) => ExprView::GreaterThan(Box::new(cs[0]), Box::new(cs[1]), s),
        ExprView::GreaterOrEqual(_, _, s) => ExprView::GreaterOrEqual(Box::new(cs[0]), Box::new(cs[1]), s),
        ExprView::Equals(_, _, s) => ExprView::Equals(Box::new(cs[0]), Box::new(cs[1]), s),
        ExprView::NotEquals(_, _, s) => ExprView::NotEquals(Box::new(cs[0]), Box::new(cs[1]), s),
        ExprView::Conjunction(_, _, s) => ExprView::Conjunction(Box::new(cs[0]), Box::new(cs[1]), s),
        ExprView::Disjunction(_, _, s) => ExprView::Disjunction(Box::new(cs[0]), Box::new(cs[1]), s),
        ExprView::IfAndOnlyIf(_, _, s) => ExprView::IfAndOnlyIf(Box::new(cs[0]), Box::new(cs[1]), s),
        ExprView::Implies(_, _, s) => ExprView::Implies(Box::new(cs[0]), Box::new(cs[1]), s),
        ExprView::Ternary(_, _, _, s) => ExprView::Ternary(Box::new(cs[0]), Box::new(cs[1]), Box::new(cs[2]), s),
        _ => e,
    }
}

/// Every direct subexpression is smaller than the expression; putting the children back
/// gives the expression; and the children of a rebuilt expression are those put in.
pub proof fn lemma_children(e: ExprView)
    ensures
        forall|i: int| 0 <= i < children(e).len() ==> decreases_to!(e => #[trigger] children(e)[i]),
        with_children(e, children(e)) == e,
        forall|cs: Seq<ExprView>| cs.len() == children(e).len() ==> #[trigger] children(with_children(e, cs)) == cs,
{
    lemma_binary_operands_smaller(e);
    match e {
        ExprView::Function(_, _, args, _) => {
            assert forall|i: int| 0 <= i < children(e).len() implies decreases_to!(e => #[trigger] children(e)[i]) by {
                assert(decreases_to!(e => args));
                assert(decreases_to!(args => args[i]));
            }
        },
        _ => {
            assert forall|cs: Seq<ExprView>| cs.len() == children(e).len() implies #[trigger] children(with_children(e, cs)) == cs by {
                assert(children(with_children(e, cs)) =~= cs);
            }
        },
    }
}

/// Each element of `views(s)` is the view of the element of `s` at the same place.
pub proof fn lemma_views(s: Seq<Expression>)
    ensures
        views(s).len() == s.len(),
        forall|i: int| 0 <= i < s.len() ==> #[trigger] views(s)[i] == s[i]@,
    decreases s.len(),
{
    if s.len() > 0 {
        lemma_views(s.drop_last());
    }
}

/// Clones every expression of a list.
pub fn clone_expressions(v: &Vec<Expression>) -> (res: Vec<Expression>)
    ensures
        views(res@) == views(v@),
    decreases v@, 1nat,
{
    let mut res: Vec<Expression> = Vec::new();
    let mut i: usize = 0;
    proof { lemma_views(v@); }
    while i < v.len()
        invariant
            i <= v.len(),
            views(v@).len() == v@.len(),
            forall|j: int| 0 <= j < v@.len() ==> #[trigger] views(v@)[j] == v@[j]@,
            views(res@) == views(v@).subrange(0, i as int),
        decreases v.len() - i,
    {
        assert(decreases_to!(v@ => v@[i as int]));
        let c = v[i].clone();
        let ghost old_res = res@;
        res.push(c);
        assert(res@.drop_last() == old_res);
        assert(views(res@) =~= views(v@).subrange(0, i + 1));
        i += 1;
    }
    assert(views(v@).subrange(0, v@.len() as int) =~= views(v@));
    res
}

impl Clone for Expression {
    fn clone(&self) -> (res: Self)
        ensures
            res@ == self@,
        decreases *self, 0nat,
    {
        match self {
            Expression::Int(v, s) => Expression::Int(*v, *s),
            Expression::Float(v, s) => Expression::Float(*v, *s),
            Expression::Bool(v, s) => Expression::Bool(*v, *s),
            Expression::VarOrConst(v, s) => Expression::VarOrConst(*v, *s),
            Expression::Label(l, s) => Expression::Label(l.clone(), *s),
            Expression::Function(n, args, s) => {
                assert(decreases_to!(*self => args@));
                Expression::Function(n.clone(), clone_expressions(args), *s)
            }
            Expression::Minus(a, s) => Expression::Minus(Box::new((**a).clone()), *s),
            Expression::Negation(a, s) => Expression::Negation(Box::new((**a).clone()), *s),
            Expression::Multiplication(a, b, s) => Expression::Multiplication(Box::new((**a).clone()), Box::new((**b).clone()), *s),
            Expression::Division(a, b, s) => Expression::Division(Box::new((**a).clone()), Box::new((**b).clone()), *s),
            Expression::Addition(a, b, s) => Expression::Addition(Box::new((**a).clone()), Box::new((**b).clone()), *s),
            Expression::Subtraction(a, b, s) => Expression::Subtraction(Box::new((**a).clone()), Box::new((**b).clone()), *s),
            Expression::LessThan(a, b, s) => Expression::LessThan(Box::new((**a).clone()), Box::new((**b).clone()), *s),
            Expression::LessOrEqual(a, b, s) => Expression::LessOrEqual(Box::new((**a).clone()), Box::new((**b).clone()), *s),
            Expression::GreaterThan(a, b, s) => Expression::GreaterThan(Box::new((**a).clone()), Box::new((**b).clone()), *s),
            Expression::GreaterOrEqual(a, b, s) => Expression::GreaterOrEqual(Box::new((**a).clone()), Box::new((**b).clone()), *s),
            Expression::Equals(a, b, s) => Expression::Equals(Box::new((**a).clone()), Box::new((**b).clone()), *s),
            Expression::NotEquals(a, b, s) => Expression::NotEquals(Box::new((**a).clone()), Box::new((**b).clone()), *s),
            Expression::Conjunction(a, b, s) => Expression::Conjunction(Box::new((**a).clone()), Box::new((**b).clone()), *s),
            Expression::Disjunction(a, b, s) => Expression::Disjunction(Box::new((**a).clone()), Box::new((**b).clone()), *s),
            Expression::IfAndOnlyIf(a, b, s) => Expression::IfAndOnlyIf(Box::new((**a).clone()), Box::new((**b).clone()), *s),
            Expression::Implies(a, b, s) => Expression::Implies(Box::new((**a).clone()), Box::new((**b).clone()), *s),
            Expression::Ternary(g, a, b, s) => Expression::Ternary(Box::new((**g).clone()), Box::new((**a).clone()), Box::new((**b).clone()), *s),
        }
    }
}

} // verus!
