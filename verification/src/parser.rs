//! From source text to a [`SyntaxTree`].
//!
//! The grammar is that of `swc_ecma_parser`. Its tree is read here one level
//! at a time: each trusted function below looks at a single node and tells
//! which variant it is or hands out one of its fields, and the verified
//! functions around them build the library's own tree from the answers.
//!
//! What a node holds has a name, and so has what the parser makes of a
//! text. The names say nothing about the grammar; they say that the same
//! node, and the same text, always give the same answer. The shape that the
//! library reads into a node is a function with a body, built on the names.

use crate::syntax::{
    Argument,
    ArgumentView,
    Binding,
    Callee,
    CalleeView,
    Declarator,
    DeclaratorView,
    Initializer,
    InitializerView,
    Statement,
    StatementView,
    SyntaxTree,
    SyntaxTreeView,
};
use vstd::prelude::*;
use vstd::string::*;
use vstd::utf8::encode_utf8;

verus! {

/// `swc_ecma_ast::ModuleItem`, a top-level item of a module. Opaque.
#[verifier::external_type_specification]
#[verifier::external_body]
pub struct ExModuleItem(swc_ecma_ast::ModuleItem);

/// `swc_ecma_ast::VarDeclarator`, one declarator of a variable declaration.
/// Opaque.
#[verifier::external_type_specification]
#[verifier::external_body]
pub struct ExVarDeclarator(swc_ecma_ast::VarDeclarator);

/// `swc_ecma_ast::Expr`, an expression. Opaque.
#[verifier::external_type_specification]
#[verifier::external_body]
pub struct ExExpr(swc_ecma_ast::Expr);

/// `swc_ecma_ast::CallExpr`, a call expression. Opaque.
#[verifier::external_type_specification]
#[verifier::external_body]
pub struct ExCallExpr(swc_ecma_ast::CallExpr);

/// `swc_ecma_ast::ExprOrSpread`, an argument of a call. Opaque.
#[verifier::external_type_specification]
#[verifier::external_body]
pub struct ExExprOrSpread(swc_ecma_ast::ExprOrSpread);

/// `swc_ecma_parser::error::Error`, a syntax error with its position. Opaque.
#[verifier::external_type_specification]
#[verifier::external_body]
pub struct ExError(swc_ecma_parser::error::Error);

/// Why a source text could not be turned into a tree.
#[derive(Debug, Clone, PartialEq, Eq)]
pub struct ParseError {
    /// A description of the failure, for display.
    pub message: String,
}

/// The number of bytes from which on a source is not handed to the parser.
/// The parser counts byte positions in 32 bits, starting at one, and keeps
/// the positions above `u32::MAX - 2^16` for uses of its own.
pub const MAX_SOURCE_BYTES: usize = 0xfffe_fffe;

/// Whether the field `spread` of a `swc_ecma_ast::ExprOrSpread` is set.
pub uninterp spec fn spread_of(argument: swc_ecma_ast::ExprOrSpread) -> bool;

/// The value of the string literal that a `swc_ecma_ast::ExprOrSpread`
/// holds as its expression, if it holds one.
pub uninterp spec fn literal_of(argument: swc_ecma_ast::ExprOrSpread) -> Option<Seq<char>>;

/// The name of the identifier that a `swc_ecma_ast::CallExpr` calls, if it
/// calls a bare identifier.
pub uninterp spec fn callee_of(call: swc_ecma_ast::CallExpr) -> Option<Seq<char>>;

/// The arguments that a `swc_ecma_ast::CallExpr` holds, in order, each as
/// the library reads it.
pub uninterp spec fn arguments_of(call: swc_ecma_ast::CallExpr) -> Seq<ArgumentView>;

/// The call that a `swc_ecma_ast::Expr` is, as the library reads it, if the
/// expression is a call.
pub uninterp spec fn call_in(expression: swc_ecma_ast::Expr) -> Option<InitializerView>;

/// Whether a `swc_ecma_ast::VarDeclarator` binds a single identifier.
pub uninterp spec fn binds_identifier_of(declarator: swc_ecma_ast::VarDeclarator) -> bool;

/// The initializer that a `swc_ecma_ast::VarDeclarator` holds, if it holds
/// one: the call it is, if it is a call.
pub uninterp spec fn initializer_of(declarator: swc_ecma_ast::VarDeclarator) -> Option<
    Option<InitializerView>,
>;

/// The declarators that a `swc_ecma_ast::ModuleItem` holds, in order, each
/// as the library reads it, if the item is a variable declaration.
pub uninterp spec fn declarators_of(item: swc_ecma_ast::ModuleItem) -> Option<
    Seq<DeclaratorView>,
>;

/// The text that describes a `swc_ecma_parser::error::Error`.
pub uninterp spec fn description_of(error: swc_ecma_parser::error::Error) -> Seq<char>;

/// What the parser makes of a source text: the top-level items of the
/// module, in order, each as the library reads it, or the description of a
/// syntax error.
pub uninterp spec fn parsed_source(source: Seq<char>) -> Result<Seq<StatementView>, Seq<char>>;

/// An argument as the library reads it: a string literal with its value,
/// unless it is spread; anything else is not told apart.
pub open spec fn argument_view(argument: swc_ecma_ast::ExprOrSpread) -> ArgumentView {
    if spread_of(argument) {
        ArgumentView::Other
    } else {
        match literal_of(argument) {
            Some(value) => ArgumentView::StringLiteral(value),
            None => ArgumentView::Other,
        }
    }
}

/// A run of arguments as the library reads it.
pub open spec fn arguments_view(arguments: Seq<swc_ecma_ast::ExprOrSpread>) -> Seq<ArgumentView> {
    arguments.map_values(|a: swc_ecma_ast::ExprOrSpread| argument_view(a))
}

/// A call as the library reads it: its callee, told apart only as a bare
/// identifier or not, and its arguments.
pub open spec fn call_view(call: swc_ecma_ast::CallExpr) -> InitializerView {
    InitializerView::Call {
        callee: match callee_of(call) {
            Some(name) => CalleeView::Identifier(name),
            None => CalleeView::Other,
        },
        arguments: arguments_of(call),
    }
}

/// A declarator as the library reads it: what it binds, told apart only as
/// a single identifier or not, and its initializer, told apart only as
/// absent, a call, or anything else.
pub open spec fn declarator_view(declarator: swc_ecma_ast::VarDeclarator) -> DeclaratorView {
    DeclaratorView {
        binding: if binds_identifier_of(declarator) {
            Binding::Identifier
        } else {
            Binding::Pattern
        },
        init: match initializer_of(declarator) {
            None => InitializerView::Absent,
            Some(None) => InitializerView::Other,
            Some(Some(call)) => call,
        },
    }
}

/// A run of declarators as the library reads it.
pub open spec fn declarators_view(declarators: Seq<swc_ecma_ast::VarDeclarator>) -> Seq<
    DeclaratorView,
> {
    declarators.map_values(|d: swc_ecma_ast::VarDeclarator| declarator_view(d))
}

/// A top-level item as the library reads it: a variable declaration with
/// its declarators, or anything else.
pub open spec fn statement_view(item: swc_ecma_ast::ModuleItem) -> StatementView {
    match declarators_of(item) {
        Some(declarators) => StatementView::Declaration(declarators),
        None => StatementView::Other,
    }
}

/// A run of top-level items as the library reads it.
pub open spec fn statements_view(items: Seq<swc_ecma_ast::ModuleItem>) -> Seq<StatementView> {
    items.map_values(|i: swc_ecma_ast::ModuleItem| statement_view(i))
}

/// The message with which a text that is too large is refused.
pub open spec fn too_large_message() -> Seq<char> {
    "source text too large"@
}

/// What parsing a source text gives: the tree of the module, or the message
/// of the failure. A text whose UTF-8 encoding has [`MAX_SOURCE_BYTES`]
/// bytes or more is refused; for any other text the parser decides.
pub open spec fn parse_outcome(text: Seq<char>) -> Result<SyntaxTreeView, Seq<char>> {
    if encode_utf8(text).len() >= MAX_SOURCE_BYTES {
        Err(too_large_message())
    } else {
        match parsed_source(text) {
            Ok(body) => Ok(SyntaxTreeView { body }),
            Err(description) => Err(description),
        }
    }
}

/// Calls `swc_ecma_parser::parse_file_as_module` on `source` as an anonymous
/// file, with the default ECMAScript syntax and target, and hands out the
/// field `body` of the module it returns. Errors the parser recovered from
/// are dropped. The claim: the outcome depends on the text alone, so that it
/// is what [`parsed_source`] names.
#[verifier::external_body]
fn parse_file_as_module(source: &str) -> (parsed: Result<
    Vec<swc_ecma_ast::ModuleItem>,
    swc_ecma_parser::error::Error,
>)
    requires
        source.spec_bytes().len() < MAX_SOURCE_BYTES,
    ensures
        match parsed {
            Ok(items) => parsed_source(source@) == Ok::<Seq<StatementView>, Seq<char>>(
                statements_view(items@),
            ),
            Err(error) => parsed_source(source@) == Err::<Seq<StatementView>, Seq<char>>(
                description_of(error),
            ),
        },
{
    let files = swc_common::SourceMap::default();
    let name = swc_common::sync::Lrc::new(swc_common::FileName::Anon);
    let file = files.new_source_file(name, source.to_string());
    let syntax = swc_ecma_parser::Syntax::Es(Default::default());
    let mut recovered = Vec::new();
    swc_ecma_parser::parse_file_as_module(&file, syntax, Default::default(), None, &mut recovered)
        .map(|module| module.body)
}

/// The `Debug` rendering of the `SyntaxError` inside a
/// `swc_ecma_parser::error::Error`, as given by `Error::kind`. The claim:
/// the text depends on the error alone, so that it is what
/// [`description_of`] names.
#[verifier::external_body]
fn error_text(error: &swc_ecma_parser::error::Error) -> (text: String)
    ensures
        text@ == description_of(*error),
{
    format!("{:?}", error.kind())
}

/// The field `decls` of the `VarDecl` inside a `swc_ecma_ast::ModuleItem`
/// that is `ModuleItem::Stmt(Stmt::Decl(Decl::Var(..)))`; `None` for every
/// other item. The claim: the answer depends on the item alone, so that
/// [`declarators_of`] names what is handed out, each declarator as the
/// library reads it.
#[verifier::external_body]
fn variable_declarators(item: &swc_ecma_ast::ModuleItem) -> (declarators: Option<
    &Vec<swc_ecma_ast::VarDeclarator>,
>)
    ensures
        match declarators {
            Some(found) => declarators_of(*item) == Some(declarators_view(found@)),
            None => declarators_of(*item) is None,
        },
{
    match item {
        swc_ecma_ast::ModuleItem::Stmt(swc_ecma_ast::Stmt::Decl(swc_ecma_ast::Decl::Var(var))) => {
            Some(&var.decls)
        },
        _ => None,
    }
}

/// Whether the field `name` of a `swc_ecma_ast::VarDeclarator` is
/// `Pat::Ident(..)`. The claim: the answer depends on the declarator alone,
/// so that it is what [`binds_identifier_of`] names.
#[verifier::external_body]
fn binds_identifier(declarator: &swc_ecma_ast::VarDeclarator) -> (plain: bool)
    ensures
        plain == binds_identifier_of(*declarator),
{
    match &declarator.name {
        swc_ecma_ast::Pat::Ident(_) => true,
        _ => false,
    }
}

/// The field `init` of a `swc_ecma_ast::VarDeclarator`, unboxed. The claim:
/// the answer depends on the declarator alone, so that [`initializer_of`]
/// names whether there is an initializer and the call that it is.
#[verifier::external_body]
fn initializer(declarator: &swc_ecma_ast::VarDeclarator) -> (init: Option<&swc_ecma_ast::Expr>)
    ensures
        match init {
            Some(expression) => initializer_of(*declarator) == Some(call_in(*expression)),
            None => initializer_of(*declarator) is None,
        },
{
    declarator.init.as_deref()
}

/// The `CallExpr` inside a `swc_ecma_ast::Expr` that is `Expr::Call(..)`;
/// `None` for every other expression. The claim: the answer depends on the
/// expression alone, so that [`call_in`] names the call that is handed out,
/// as the library reads it.
#[verifier::external_body]
fn as_call(expression: &swc_ecma_ast::Expr) -> (call: Option<&swc_ecma_ast::CallExpr>)
    ensures
        match call {
            Some(found) => call_in(*expression) == Some(call_view(*found)),
            None => call_in(*expression) is None,
        },
{
    match expression {
        swc_ecma_ast::Expr::Call(call) => Some(call),
        _ => None,
    }
}

/// The field `sym` of the `Ident`, as a string, where the field `callee` of a
/// `swc_ecma_ast::CallExpr` is `Callee::Expr(..)` of an `Expr::Ident(..)`;
/// `None` for every other callee. The claim: the answer depends on the call
/// alone, so that it is what [`callee_of`] names.
#[verifier::external_body]
fn callee_identifier(call: &swc_ecma_ast::CallExpr) -> (name: Option<String>)
    ensures
        match name {
            Some(text) => callee_of(*call) == Some(text@),
            None => callee_of(*call) is None,
        },
{
    match &call.callee {
        swc_ecma_ast::Callee::Expr(callee) => match &**callee {
            swc_ecma_ast::Expr::Ident(identifier) => Some(identifier.sym.to_string()),
            _ => None,
        },
        _ => None,
    }
}

/// The field `args` of a `swc_ecma_ast::CallExpr`. The claim: the answer
/// depends on the call alone, so that [`arguments_of`] names what is handed
/// out, each argument as the library reads it.
#[verifier::external_body]
fn call_arguments(call: &swc_ecma_ast::CallExpr) -> (arguments: &Vec<swc_ecma_ast::ExprOrSpread>)
    ensures
        arguments_view(arguments@) == arguments_of(*call),
{
    &call.args
}

/// Whether the field `spread` of a `swc_ecma_ast::ExprOrSpread` is `Some(..)`.
/// The claim: the answer depends on the argument alone, so that it is what
/// [`spread_of`] names.
#[verifier::external_body]
fn is_spread(argument: &swc_ecma_ast::ExprOrSpread) -> (spread: bool)
    ensures
        spread == spread_of(*argument),
{
    argument.spread.is_some()
}

/// The field `value` of the `Str`, as a string in which an unpaired
/// surrogate is replaced by U+FFFD, where the field `expr` of a
/// `swc_ecma_ast::ExprOrSpread` is `Expr::Lit(Lit::Str(..))`; `None` for
/// every other expression. The claim: the answer depends on the argument
/// alone, so that it is what [`literal_of`] names.
#[verifier::external_body]
fn string_literal(argument: &swc_ecma_ast::ExprOrSpread) -> (value: Option<String>)
    ensures
        match value {
            Some(text) => literal_of(*argument) == Some(text@),
            None => literal_of(*argument) is None,
        },
{
    match &*argument.expr {
        swc_ecma_ast::Expr::Lit(swc_ecma_ast::Lit::Str(literal)) => {
            Some(literal.value.to_string_lossy().into_owned())
        },
        _ => None,
    }
}

fn lower_argument(argument: &swc_ecma_ast::ExprOrSpread) -> (lowered: Argument)
    ensures
        lowered@ == argument_view(*argument),
{
    if is_spread(argument) {
        return Argument::Other;
    }
    match string_literal(argument) {
        Some(value) => Argument::StringLiteral(value),
        None => Argument::Other,
    }
}

fn lower_call(call: &swc_ecma_ast::CallExpr) -> (lowered: Initializer)
    ensures
        lowered@ == call_view(*call),
{
    let callee = match callee_identifier(call) {
        Some(name) => Callee::Identifier(name),
        None => Callee::Other,
    };
    let outside = call_arguments(call);
    let mut arguments: Vec<Argument> = Vec::new();
    let mut i: usize = 0;
    while i < outside.len()
        invariant
            i <= outside.len(),
            arguments@.map_values(|a: Argument| a@) == arguments_view(outside@).take(i as int),
        decreases outside.len() - i,
    {
        let ghost before = arguments@;
        let argument = lower_argument(&outside[i]);
        arguments.push(argument);
        proof {
            let views = arguments_view(outside@);
            assert(views[i as int] == argument@);
            assert(arguments@.map_values(|a: Argument| a@) =~= before.map_values(
                |a: Argument| a@,
            ).push(argument@));
            assert(views.take(i + 1) =~= views.take(i as int).push(views[i as int]));
        }
        i = i + 1;
    }
    proof {
        assert(arguments_view(outside@).take(i as int) =~= arguments_view(outside@));
    }
    Initializer::Call { callee, arguments }
}

fn lower_declarator(declarator: &swc_ecma_ast::VarDeclarator) -> (lowered: Declarator)
    ensures
        lowered@ == declarator_view(*declarator),
{
    let binding = if binds_identifier(declarator) {
        Binding::Identifier
    } else {
        Binding::Pattern
    };
    let init = match initializer(declarator) {
        None => Initializer::Absent,
        Some(expression) => match as_call(expression) {
            Some(call) => lower_call(call),
            None => Initializer::Other,
        },
    };
    Declarator { binding, init }
}

fn lower_item(item: &swc_ecma_ast::ModuleItem) -> (lowered: Statement)
    ensures
        lowered@ == statement_view(*item),
{
    match variable_declarators(item) {
        None => Statement::Other,
        Some(outside) => {
            let mut declarators: Vec<Declarator> = Vec::new();
            let mut i: usize = 0;
            while i < outside.len()
                invariant
                    i <= outside.len(),
                    declarators@.map_values(|d: Declarator| d@) == declarators_view(outside@).take(
                        i as int,
                    ),
                decreases outside.len() - i,
            {
                let ghost before = declarators@;
                let declarator = lower_declarator(&outside[i]);
                declarators.push(declarator);
                proof {
                    let views = declarators_view(outside@);
                    assert(views[i as int] == declarator@);
                    assert(declarators@.map_values(|d: Declarator| d@) =~= before.map_values(
                        |d: Declarator| d@,
                    ).push(declarator@));
                    assert(views.take(i + 1) =~= views.take(i as int).push(views[i as int]));
                }
                i = i + 1;
            }
            proof {
                assert(declarators_view(outside@).take(i as int) =~= declarators_view(outside@));
            }
            Statement::Declaration(declarators)
        },
    }
}

fn lower_items(outside: &Vec<swc_ecma_ast::ModuleItem>) -> (tree: SyntaxTree)
    ensures
        tree@ == (SyntaxTreeView { body: statements_view(outside@) }),
{
    let mut body: Vec<Statement> = Vec::new();
    let mut i: usize = 0;
    while i < outside.len()
        invariant
            i <= outside.len(),
            body@.map_values(|s: Statement| s@) == statements_view(outside@).take(i as int),
        decreases outside.len() - i,
    {
        let ghost before = body@;
        let statement = lower_item(&outside[i]);
        body.push(statement);
        proof {
            let views = statements_view(outside@);
            assert(views[i as int] == statement@);
            assert(body@.map_values(|s: Statement| s@) =~= before.map_values(
                |s: Statement| s@,
            ).push(statement@));
            assert(views.take(i + 1) =~= views.take(i as int).push(views[i as int]));
        }
        i = i + 1;
    }
    proof {
        assert(statements_view(outside@).take(i as int) =~= statements_view(outside@));
    }
    SyntaxTree { body }
}

/// Parses `source` as an ECMAScript module, and says what comes back: the
/// tree or the failure that [`parse_outcome`] gives for this text. A text of
/// [`MAX_SOURCE_BYTES`] bytes or more is refused without being parsed; for
/// any other text the parser decides, and decides the same every time.
pub fn parse(source: &str) -> (parsed: Result<SyntaxTree, ParseError>)
    ensures
        match parsed {
            Ok(tree) => parse_outcome(source@) == Ok::<SyntaxTreeView, Seq<char>>(tree@),
            Err(error) => parse_outcome(source@) == Err::<SyntaxTreeView, Seq<char>>(
                error.message@,
            ),
        },
{
    if source.as_bytes().len() >= MAX_SOURCE_BYTES {
        return Err(ParseError { message: "source text too large".to_owned() });
    }
    match parse_file_as_module(source) {
        Ok(items) => Ok(lower_items(&items)),
        Err(error) => Err(ParseError { message: error_text(&error) }),
    }
}

} // verus!
