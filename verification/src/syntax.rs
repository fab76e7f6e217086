//! The shape of a parsed module, as far as dependency discovery reads it,
//! and the extraction of the specifiers a module refers to.
//!
//! Only one shape counts as a reference: a top-level variable declaration
//! whose declarator binds a plain identifier and is initialized by a call of
//! the bare identifier `require` with exactly one argument, a string literal.
//! Everything else is passed over in silence.

use vstd::prelude::*;
use vstd::string::*;

verus! {

/// The texts of a sequence of strings.
pub open spec fn texts(strings: Seq<String>) -> Seq<Seq<char>> {
    strings.map_values(|s: String| s@)
}

/// One argument of a call.
#[derive(Debug, Clone, PartialEq, Eq)]
pub enum Argument {
    /// A string literal, with its value.
    StringLiteral(String),
    /// Any other expression, or a spread.
    Other,
}

pub enum ArgumentView {
    StringLiteral(Seq<char>),
    Other,
}

impl View for Argument {
    type V = ArgumentView;

    open spec fn view(&self) -> ArgumentView {
        match self {
            Argument::StringLiteral(value) => ArgumentView::StringLiteral(value@),
            Argument::Other => ArgumentView::Other,
        }
    }
}

/// What a call expression calls.
#[derive(Debug, Clone, PartialEq, Eq)]
pub enum Callee {
    /// A bare identifier, with its name.
    Identifier(String),
    /// A member access, `super`, `import`, or any other expression.
    Other,
}

pub enum CalleeView {
    Identifier(Seq<char>),
    Other,
}

impl View for Callee {
    type V = CalleeView;

    open spec fn view(&self) -> CalleeView {
        match self {
            Callee::Identifier(name) => CalleeView::Identifier(name@),
            Callee::Other => CalleeView::Other,
        }
    }
}

/// The initializer of a declarator.
#[derive(Debug, Clone, PartialEq, Eq)]
pub enum Initializer {
    /// The declarator has no initializer.
    Absent,
    /// A call expression.
    Call { callee: Callee, arguments: Vec<Argument> },
    /// Any other expression.
    Other,
}

pub enum InitializerView {
    Absent,
    Call { callee: CalleeView, arguments: Seq<ArgumentView> },
    Other,
}

impl View for Initializer {
    type V = InitializerView;

    open spec fn view(&self) -> InitializerView {
        match self {
            Initializer::Absent => InitializerView::Absent,
            Initializer::Call { callee, arguments } => InitializerView::Call {
                callee: callee@,
                arguments: arguments@.map_values(|a: Argument| a@),
            },
            Initializer::Other => InitializerView::Other,
        }
    }
}

/// What a declarator binds.
#[derive(Debug, Clone, Copy, PartialEq, Eq, Structural)]
pub enum Binding {
    /// A single identifier.
    Identifier,
    /// A destructuring pattern or anything else.
    Pattern,
}

/// One declarator of a variable declaration.
#[derive(Debug, Clone, PartialEq, Eq)]
pub struct Declarator {
    pub binding: Binding,
    pub init: Initializer,
}

pub struct DeclaratorView {
    pub binding: Binding,
    pub init: InitializerView,
}

impl View for Declarator {
    type V = DeclaratorView;

    open spec fn view(&self) -> DeclaratorView {
        DeclaratorView { binding: self.binding, init: self.init@ }
    }
}

/// One top-level item of a module.
#[derive(Debug, Clone, PartialEq, Eq)]
pub enum Statement {
    /// A `var`, `let` or `const` declaration, with its declarators in order.
    Declaration(Vec<Declarator>),
    /// Any other statement or module declaration.
    Other,
}

pub enum StatementView {
    Declaration(Seq<DeclaratorView>),
    Other,
}

impl View for Statement {
    type V = StatementView;

    open spec fn view(&self) -> StatementView {
        match self {
            Statement::Declaration(declarators) => StatementView::Declaration(
                declarators@.map_values(|d: Declarator| d@),
            ),
            Statement::Other => StatementView::Other,
        }
    }
}

/// A parsed module: its top-level items in source order.
#[derive(Debug, Clone, PartialEq, Eq)]
pub struct SyntaxTree {
    pub body: Vec<Statement>,
}

pub struct SyntaxTreeView {
    pub body: Seq<StatementView>,
}

impl View for SyntaxTree {
    type V = SyntaxTreeView;

    open spec fn view(&self) -> SyntaxTreeView {
        SyntaxTreeView { body: self.body@.map_values(|s: Statement| s@) }
    }
}

/// The name a callee must have for its call to be a reference.
pub open spec fn require_name() -> Seq<char> {
    seq!['r', 'e', 'q', 'u', 'i', 'r', 'e']
}

/// The specifier that a declarator refers to, if it has the one shape that
/// counts.
pub open spec fn reference_of(declarator: DeclaratorView) -> Option<Seq<char>> {
    match declarator.init {
        InitializerView::Call { callee: CalleeView::Identifier(name), arguments } => {
            if declarator.binding == Binding::Identifier && name == require_name()
                && arguments.len() == 1 {
                match arguments[0] {
                    ArgumentView::StringLiteral(value) => Some(value),
                    ArgumentView::Other => None,
                }
            } else {
                None
            }
        },
        _ => None,
    }
}

/// The specifiers of a run of declarators, in order, duplicates kept.
pub open spec fn references_in(declarators: Seq<DeclaratorView>) -> Seq<Seq<char>>
    decreases declarators.len(),
{
    if declarators.len() == 0 {
        Seq::empty()
    } else {
        let before = references_in(declarators.drop_last());
        match reference_of(declarators.last()) {
            Some(specifier) => before.push(specifier),
            None => before,
        }
    }
}

/// The specifiers of one top-level item.
pub open spec fn statement_references(statement: StatementView) -> Seq<Seq<char>> {
    match statement {
        StatementView::Declaration(declarators) => references_in(declarators),
        StatementView::Other => Seq::empty(),
    }
}

/// The specifiers of a run of top-level items, in source order.
pub open spec fn body_references(body: Seq<StatementView>) -> Seq<Seq<char>>
    decreases body.len(),
{
    if body.len() == 0 {
        Seq::empty()
    } else {
        body_references(body.drop_last()) + statement_references(body.last())
    }
}

/// Every specifier a module refers to, in source order, duplicates kept.
pub open spec fn references_of(tree: SyntaxTreeView) -> Seq<Seq<char>> {
    body_references(tree.body)
}

/// The specifier that `declarator` refers to, if any.
pub fn declarator_reference(declarator: &Declarator) -> (specifier: Option<String>)
    ensures
        match specifier {
            Some(s) => reference_of(declarator@) == Some(s@),
            None => reference_of(declarator@) is None,
        },
{
    match &declarator.init {
        Initializer::Call { callee: Callee::Identifier(name), arguments } => {
            proof {
                reveal_strlit("require");
                assert("require"@ =~= require_name());
            }
            let wanted = "require".to_owned();
            if declarator.binding == Binding::Identifier && *name == wanted && arguments.len()
                == 1 {
                match &arguments[0] {
                    Argument::StringLiteral(value) => Some(value.clone()),
                    Argument::Other => None,
                }
            } else {
                None
            }
        },
        _ => None,
    }
}

/// Collects the specifiers that `tree` refers to: those of its top-level
/// declarations, in source order. A module that requires the same specifier
/// twice yields it twice.
pub fn extract(tree: &SyntaxTree) -> (specifiers: Vec<String>)
    ensures
        texts(specifiers@) == references_of(tree@),
{
    let mut specifiers: Vec<String> = Vec::new();
    let mut i: usize = 0;
    assert(tree@.body.take(0) =~= Seq::empty());
    assert(texts(specifiers@) =~= Seq::empty());
    while i < tree.body.len()
        invariant
            i <= tree.body.len(),
            texts(specifiers@) == body_references(tree@.body.take(i as int)),
        decreases tree.body.len() - i,
    {
        let ghost done = texts(specifiers@);
        let ghost statement = tree@.body[i as int];
        assert(statement == tree.body@[i as int]@);
        match &tree.body[i] {
            Statement::Declaration(declarators) => {
                let ghost views = declarators@.map_values(|d: Declarator| d@);
                let mut j: usize = 0;
                assert(views.take(0) =~= Seq::empty());
                assert(texts(specifiers@) =~= done + references_in(views.take(0)));
                while j < declarators.len()
                    invariant
                        j <= declarators.len(),
                        views == declarators@.map_values(|d: Declarator| d@),
                        texts(specifiers@) == done + references_in(views.take(j as int)),
                    decreases declarators.len() - j,
                {
                    let ghost before = specifiers@;
                    assert(views.take(j + 1).drop_last() =~= views.take(j as int));
                    assert(views.take(j + 1).last() == declarators@[j as int]@);
                    match declarator_reference(&declarators[j]) {
                        Some(specifier) => {
                            specifiers.push(specifier);
                            assert(texts(specifiers@) =~= texts(before).push(specifier@));
                        },
                        None => {},
                    }
                    j = j + 1;
                }
                assert(views.take(j as int) =~= views);
            },
            Statement::Other => {
                assert(texts(specifiers@) =~= done + Seq::<Seq<char>>::empty());
            },
        }
        assert(tree@.body.take(i + 1).drop_last() =~= tree@.body.take(i as int));
        assert(tree@.body.take(i + 1).last() == statement);
        i = i + 1;
    }
    assert(tree@.body.take(i as int) =~= tree@.body);
    specifiers
}

} // verus!
