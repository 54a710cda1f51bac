use vstd::prelude::*;
use crate::prism::expression::{Expression, ExprView, Identifier, Span, VariableReference};
use crate::text::str_eq_string;

verus! {

/// An annotation `{name}` (a flag) or `{name = ...}` on a module or a variable.
pub struct Attribute {
    pub name: String,
    pub is_flag: bool,
}

impl Attribute {
    /// A flag attribute with the given name.
    pub fn flag(name: String) -> (a: Attribute)
        ensures
            a.name@ == name@,
            a.is_flag,
    {
        Attribute { name, is_flag: true }
    }
}

/// The annotations of a module or a variable, in the order they were written.
pub struct Attributes {
    pub list: Vec<Attribute>,
}

impl Attributes {
    pub fn new() -> (a: Attributes)
        ensures
            a.list@.len() == 0,
    {
        Attributes { list: Vec::new() }
    }

    /// Whether some annotation has this name.
    pub open spec fn has(&self, name: Seq<char>) -> bool {
        exists|i: int| 0 <= i < self.list@.len() && #[trigger] self.list@[i].name@ == name
    }

    /// Whether a flag annotation has this name.
    pub open spec fn has_flag(&self, name: Seq<char>) -> bool {
        exists|i: int|
            0 <= i < self.list@.len() && #[trigger] self.list@[i].name@ == name
                && self.list@[i].is_flag
    }

    /// Whether a flag with this name is set.
    pub fn is_flag_set(&self, name: &str) -> (b: bool)
        ensures
            b == self.has_flag(name@),
            b == flag_in(self@, name@),
    {
        proof { lemma_attribute_views(self); }
        let mut i: usize = 0;
        while i < self.list.len()
            invariant
                i <= self.list@.len(),
                forall|j: int|
                    0 <= j < i ==> !(#[trigger] self.list@[j].name@ == name@ && self.list@[j].is_flag),
            decreases self.list.len() - i,
        {
            if self.list[i].is_flag && str_eq_string(name, &self.list[i].name) {
                proof { lemma_attribute_views(self); }
                return true;
            }
            i += 1;
        }
        false
    }

    /// Whether an annotation (flag or not) has this name.
    pub fn contains(&self, name: &str) -> (b: bool)
        ensures
            b == self.has(name@),
            b == named_in(self@, name@),
    {
        proof { lemma_attribute_views(self); }
        let mut i: usize = 0;
        while i < self.list.len()
            invariant
                i <= self.list@.len(),
                forall|j: int| 0 <= j < i ==> !(#[trigger] self.list@[j].name@ == name@),
            decreases self.list.len() - i,
        {
            if str_eq_string(name, &self.list[i].name) {
                proof { lemma_attribute_views(self); }
                return true;
            }
            i += 1;
        }
        false
    }

    /// Appends a flag with this name.
    pub fn push_flag(&mut self, name: &str)
        ensures
            final(self)@ == old(self)@.push((name@, true)),
    {
        self.list.push(Attribute::flag(name.to_owned()));
        assert(self@ =~= old(self)@.push((name@, true)));
    }

    /// Adds a flag, refusing a name that is already present.
    pub fn add_flag(&mut self, name: &str) -> (r: Result<(), ()>)
        ensures
            r is Ok <==> !old(self).has(name@),
            r is Ok ==> final(self).list@.len() == old(self).list@.len() + 1
                && final(self).list@.drop_last() == old(self).list@
                && final(self).list@.last().name@ == name@
                && final(self).list@.last().is_flag,
            r is Err ==> final(self).list@ == old(self).list@,
            r is Ok <==> !named_in(old(self)@, name@),
            r is Ok ==> final(self)@ == old(self)@.push((name@, true)),
            r is Err ==> final(self)@ == old(self)@,
    {
        proof { lemma_attribute_views(old(self)); }
        if self.contains(name) {
            return Err(());
        }
        let ghost before = self.list@;
        self.list.push(Attribute::flag(name.to_owned()));
        assert(self.list@.drop_last() =~= before);
        assert(self@ =~= old(self)@.push((name@, true)));
        Ok(())
    }
}

/// Where a variable lives.
#[derive(Clone, Copy, PartialEq, Eq, Structural, Debug)]
pub enum VariableScope {
    GlobalVariable,
    LocalVariable { module_index: usize },
}

/// The values a variable may take.
pub enum VariableRange {
    BoundedInt { min: Expression, max: Expression, span: Span },
    UnboundedInt { span: Span },
    Boolean { span: Span },
    Float { span: Span },
}

/// A variable or constant declaration.
pub struct VariableInfo {
    pub name: Identifier,
    pub range: VariableRange,
    pub is_constant: bool,
    pub scope: VariableScope,
    pub initial_value: Option<Expression>,
    pub attributes: Attributes,
    pub span: Span,
}

/// All variables and constants of a model, referred to by their index.
pub struct VariableManager {
    pub variables: Vec<VariableInfo>,
}

/// `target' = value` in an update.
pub struct Assignment {
    pub target: VariableReference,
    pub value: Expression,
    pub span: Span,
}

/// `probability : assignments` of a command.
pub struct Update {
    pub probability: Expression,
    pub assignments: Vec<Assignment>,
    pub span: Span,
}

/// `[action] guard -> updates;`
pub struct Command {
    pub action: Option<Identifier>,
    pub guard: Expression,
    pub updates: Vec<Update>,
    pub span: Span,
}

/// A module with its commands.
pub struct Module {
    pub name: Identifier,
    pub commands: Vec<Command>,
    pub attributes: Attributes,
    pub span: Span,
}

/// `formula name = condition;`
pub struct Formula {
    pub name: Identifier,
    pub condition: Expression,
}

/// `label "name" = condition;`
pub struct Label {
    pub name: Identifier,
    pub condition: Expression,
}

/// A PRISM model.
pub struct Model {
    pub variable_manager: VariableManager,
    pub modules: Vec<Module>,
    pub formulas: Vec<Formula>,
    pub labels: Vec<Label>,
    pub span: Span,
}

impl View for Attribute {
    type V = (Seq<char>, bool);

    open spec fn view(&self) -> (Seq<char>, bool) {
        (self.name@, self.is_flag)
    }
}

impl View for Attributes {
    type V = Seq<(Seq<char>, bool)>;

    open spec fn view(&self) -> Seq<(Seq<char>, bool)> {
        self.list@.map_values(|a: Attribute| a@)
    }
}

/// Whether some annotation of the list has this name.
pub open spec fn named_in(attrs: Seq<(Seq<char>, bool)>, name: Seq<char>) -> bool {
    exists|i: int| 0 <= i < attrs.len() && #[trigger] attrs[i].0 == name
}

/// Whether some flag of the list has this name.
pub open spec fn flag_in(attrs: Seq<(Seq<char>, bool)>, name: Seq<char>) -> bool {
    exists|i: int| 0 <= i < attrs.len() && #[trigger] attrs[i].0 == name && attrs[i].1
}

/// A flag that is added (as `add_flag` and `push_flag` add it) is then set and present, and
/// adding it changes no flag of another name.
pub proof fn law_added_flag_is_set(attrs: Seq<(Seq<char>, bool)>, name: Seq<char>)
    ensures
        flag_in(attrs.push((name, true)), name),
        named_in(attrs.push((name, true)), name),
        forall|other: Seq<char>| other != name ==>
            (flag_in(attrs.push((name, true)), other) == flag_in(attrs, other)),
{
    let pushed = attrs.push((name, true));
    assert(pushed[attrs.len() as int].0 == name && pushed[attrs.len() as int].1);
    assert forall|other: Seq<char>| other != name implies
        (flag_in(pushed, other) == flag_in(attrs, other)) by {
        if flag_in(attrs, other) {
            let i = choose|i: int| 0 <= i < attrs.len() && #[trigger] attrs[i].0 == other && attrs[i].1;
            assert(pushed[i] == attrs[i]);
        }
        if flag_in(pushed, other) {
            let i = choose|i: int| 0 <= i < pushed.len() && #[trigger] pushed[i].0 == other && pushed[i].1;
            assert(i < attrs.len());
            assert(pushed[i] == attrs[i]);
        }
    }
}

proof fn lemma_attribute_views(a: &Attributes)
    ensures
        forall|name: Seq<char>| #[trigger] a.has(name) == named_in(a@, name),
        forall|name: Seq<char>| #[trigger] a.has_flag(name) == flag_in(a@, name),
{
    assert forall|name: Seq<char>| #[trigger] a.has(name) == named_in(a@, name) by {
        if a.has(name) {
            let i = choose|i: int| 0 <= i < a.list@.len() && #[trigger] a.list@[i].name@ == name;
            assert(a@[i].0 == name);
        }
        if named_in(a@, name) {
            let i = choose|i: int| 0 <= i < a@.len() && #[trigger] a@[i].0 == name;
            assert(a.list@[i].name@ == name);
        }
    }
    assert forall|name: Seq<char>| #[trigger] a.has_flag(name) == flag_in(a@, name) by {
        if a.has_flag(name) {
            let i = choose|i: int| 0 <= i < a.list@.len() && #[trigger] a.list@[i].name@ == name && a.list@[i].is_flag;
            assert(a@[i].0 == name && a@[i].1);
        }
        if flag_in(a@, name) {
            let i = choose|i: int| 0 <= i < a@.len() && #[trigger] a@[i].0 == name && a@[i].1;
            assert(a.list@[i].name@ == name);
        }
    }
}

/// The mathematical value of a [`VariableRange`].
pub ghost enum RangeView {
    BoundedInt { min: ExprView, max: ExprView, span: Span },
    UnboundedInt { span: Span },
    Boolean { span: Span },
    Float { span: Span },
}

impl View for VariableRange {
    type V = RangeView;

    open spec fn view(&self) -> RangeView {
        match self {
            VariableRange::BoundedInt { min, max, span } => RangeView::BoundedInt { min: min@, max: max@, span: *span },
            VariableRange::UnboundedInt { span } => RangeView::UnboundedInt { span: *span },
            VariableRange::Boolean { span } => RangeView::Boolean { span: *span },
            VariableRange::Float { span } => RangeView::Float { span: *span },
        }
    }
}

/// The mathematical value of a [`VariableInfo`].
pub ghost struct VariableView {
    pub name: (Seq<char>, Span),
    pub range: RangeView,
    pub is_constant: bool,
    pub scope: VariableScope,
    pub initial_value: Option<ExprView>,
    pub attributes: Seq<(Seq<char>, bool)>,
    pub span: Span,
}

impl View for VariableInfo {
    type V = VariableView;

    open spec fn view(&self) -> VariableView {
        VariableView {
            name: (self.name.name@, self.name.span),
            range: self.range@,
            is_constant: self.is_constant,
            scope: self.scope,
            initial_value: match self.initial_value { Some(e) => Some(e@), None => None },
            attributes: self.attributes@,
            span: self.span,
        }
    }
}

impl View for VariableManager {
    type V = Seq<VariableView>;

    open spec fn view(&self) -> Seq<VariableView> {
        self.variables@.map_values(|v: VariableInfo| v@)
    }
}

/// The mathematical value of an [`Assignment`].
pub ghost struct AssignmentView {
    pub target: VariableReference,
    pub value: ExprView,
    pub span: Span,
}

impl View for Assignment {
    type V = AssignmentView;

    open spec fn view(&self) -> AssignmentView {
        AssignmentView { target: self.target, value: self.value@, span: self.span }
    }
}

/// The mathematical value of an [`Update`].
pub ghost struct UpdateView {
    pub probability: ExprView,
    pub assignments: Seq<AssignmentView>,
    pub span: Span,
}

impl View for Update {
    type V = UpdateView;

    open spec fn view(&self) -> UpdateView {
        UpdateView {
            probability: self.probability@,
            assignments: self.assignments@.map_values(|a: Assignment| a@),
            span: self.span,
        }
    }
}

/// The mathematical value of a [`Command`].
pub ghost struct CommandView {
    pub action: Option<(Seq<char>, Span)>,
    pub guard: ExprView,
    pub updates: Seq<UpdateView>,
    pub span: Span,
}

impl View for Command {
    type V = CommandView;

    open spec fn view(&self) -> CommandView {
        CommandView {
            action: match self.action { Some(a) => Some((a.name@, a.span)), None => None },
            guard: self.guard@,
            updates: self.updates@.map_values(|u: Update| u@),
            span: self.span,
        }
    }
}

/// The mathematical value of a [`Module`].
pub ghost struct ModuleView {
    pub name: (Seq<char>, Span),
    pub commands: Seq<CommandView>,
    pub attributes: Seq<(Seq<char>, bool)>,
    pub span: Span,
}

impl View for Module {
    type V = ModuleView;

    open spec fn view(&self) -> ModuleView {
        ModuleView {
            name: (self.name.name@, self.name.span),
            commands: self.commands@.map_values(|c: Command| c@),
            attributes: self.attributes@,
            span: self.span,
        }
    }
}

/// The mathematical value of a [`Formula`] or a [`Label`].
pub ghost struct NamedView {
    pub name: (Seq<char>, Span),
    pub condition: ExprView,
}

impl View for Formula {
    type V = NamedView;

    open spec fn view(&self) -> NamedView {
        NamedView { name: (self.name.name@, self.name.span), condition: self.condition@ }
    }
}

impl View for Label {
    type V = NamedView;

    open spec fn view(&self) -> NamedView {
        NamedView { name: (self.name.name@, self.name.span), condition: self.condition@ }
    }
}

/// The mathematical value of a [`Model`].
pub ghost struct ModelView {
    pub variables: Seq<VariableView>,
    pub modules: Seq<ModuleView>,
    pub formulas: Seq<NamedView>,
    pub labels: Seq<NamedView>,
    pub span: Span,
}

impl View for Model {
    type V = ModelView;

    open spec fn view(&self) -> ModelView {
        ModelView {
            variables: self.variable_manager@,
            modules: self.modules@.map_values(|m: Module| m@),
            formulas: self.formulas@.map_values(|f: Formula| f@),
            labels: self.labels@.map_values(|l: Label| l@),
            span: self.span,
        }
    }
}

} // verus!
