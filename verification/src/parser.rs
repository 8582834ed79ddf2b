//! Reading a script with the `full_moon` parser, and bringing what the
//! bundler needs of the tree into the plain model of [`crate::syntax`].
//!
//! The tree itself stays opaque: each item below that is marked
//! `external_body` hands out one part of it, and nothing is proved of what it
//! hands out. The functions that walk a statement of the tree are verified.
//! What the parser and that walk make of a text depends on the text alone,
//! and has the name [`parsed`].

use crate::syntax::{statements_view, Call, Expr, QuoteKind, Statement, StatementView, Token};
use full_moon::node::Node;
use vstd::prelude::*;

verus! {

/// `full_moon::ast::Stmt`, a statement of the tree.
#[verifier::external_type_specification]
#[verifier::external_body]
pub struct ExStmt(full_moon::ast::Stmt);

/// `full_moon::ast::Assignment`, the statement `x = ...`.
#[verifier::external_type_specification]
#[verifier::external_body]
pub struct ExAssignment(full_moon::ast::Assignment);

/// `full_moon::ast::LocalAssignment`, the statement `local x = ...`.
#[verifier::external_type_specification]
#[verifier::external_body]
pub struct ExLocalAssignment(full_moon::ast::LocalAssignment);

/// `full_moon::ast::Expression`, an expression of the tree.
#[verifier::external_type_specification]
#[verifier::external_body]
pub struct ExExpression(full_moon::ast::Expression);

/// `full_moon::ast::FunctionCall`, a call with its callee and suffixes.
#[verifier::external_type_specification]
#[verifier::external_body]
pub struct ExFunctionCall(full_moon::ast::FunctionCall);

/// `full_moon::ast::Suffix`, one suffix of a call.
#[verifier::external_type_specification]
#[verifier::external_body]
pub struct ExSuffix(full_moon::ast::Suffix);

/// `full_moon::tokenizer::TokenReference`, a token with the trivia around it.
#[verifier::external_type_specification]
#[verifier::external_body]
pub struct ExTokenReference(full_moon::tokenizer::TokenReference);

/// `full_moon::tokenizer::Symbol`, a keyword or a punctuation mark.
#[verifier::external_type_specification]
#[verifier::external_body]
pub struct ExSymbol(full_moon::tokenizer::Symbol);

/// `full_moon::tokenizer::StringLiteralQuoteType`, the quotes of a literal.
#[verifier::external_type_specification]
#[verifier::external_body]
pub struct ExStringLiteralQuoteType(full_moon::tokenizer::StringLiteralQuoteType);

/// The three statement forms that can hold a module load at the top level.
enum StmtForm {
    Assignment(full_moon::ast::Assignment),
    LocalAssignment(full_moon::ast::LocalAssignment),
    FunctionCall(full_moon::ast::FunctionCall),
    Other,
}

/// Tells the variants of `full_moon::ast::Stmt` apart.
#[verifier::external_body]
fn stmt_form(stmt: &full_moon::ast::Stmt) -> (r: StmtForm) {
    match stmt {
        full_moon::ast::Stmt::Assignment(assignment) => StmtForm::Assignment(assignment.clone()),
        full_moon::ast::Stmt::LocalAssignment(local) => StmtForm::LocalAssignment(local.clone()),
        full_moon::ast::Stmt::FunctionCall(call) => StmtForm::FunctionCall(call.clone()),
        _ => StmtForm::Other,
    }
}

/// `Assignment::expressions`: the right-hand expressions, in source order.
#[verifier::external_body]
fn assignment_expressions(assignment: &full_moon::ast::Assignment) -> (r: Vec<
    full_moon::ast::Expression,
>) {
    assignment.expressions().iter().cloned().collect()
}

/// `LocalAssignment::expressions`: the initializer expressions, in source
/// order.
#[verifier::external_body]
fn local_expressions(local: &full_moon::ast::LocalAssignment) -> (r: Vec<
    full_moon::ast::Expression,
>) {
    local.expressions().iter().cloned().collect()
}

/// Tells `Expression::FunctionCall` from the other variants of
/// `full_moon::ast::Expression`.
#[verifier::external_body]
fn expression_call(expression: &full_moon::ast::Expression) -> (r: Option<
    full_moon::ast::FunctionCall,
>) {
    match expression {
        full_moon::ast::Expression::FunctionCall(call) => Some(call.clone()),
        _ => None,
    }
}

/// `FunctionCall::prefix` and `Node::tokens`: the tokens of the callee, in
/// the order in which the parser hands them out.
#[verifier::external_body]
fn prefix_tokens(call: &full_moon::ast::FunctionCall) -> (r: Vec<
    full_moon::tokenizer::TokenReference,
>) {
    call.prefix().tokens().cloned().collect()
}

/// `FunctionCall::suffixes`: the suffixes of the call, in source order.
#[verifier::external_body]
fn call_suffixes(call: &full_moon::ast::FunctionCall) -> (r: Vec<full_moon::ast::Suffix>) {
    call.suffixes().cloned().collect()
}

/// `Node::tokens` of a suffix: its tokens, in the order in which the parser
/// hands them out. That is the order of the fields of the node, which for a
/// parenthesized argument list puts both parentheses before the arguments.
#[verifier::external_body]
fn suffix_tokens(suffix: &full_moon::ast::Suffix) -> (r: Vec<
    full_moon::tokenizer::TokenReference,
>) {
    suffix.tokens().cloned().collect()
}

/// `Node::range` of a call, with `Position::bytes` of both ends.
#[verifier::external_body]
fn call_span(call: &full_moon::ast::FunctionCall) -> (r: Option<(usize, usize)>) {
    match call.range() {
        Some((start, end)) => Some((start.bytes(), end.bytes())),
        None => None,
    }
}

/// Tells the variants of `full_moon::tokenizer::StringLiteralQuoteType` apart.
#[verifier::external_body]
fn quote_kind(quote_type: &full_moon::tokenizer::StringLiteralQuoteType) -> (r: QuoteKind) {
    match quote_type {
        full_moon::tokenizer::StringLiteralQuoteType::Brackets => QuoteKind::Brackets,
        full_moon::tokenizer::StringLiteralQuoteType::Double => QuoteKind::Double,
        full_moon::tokenizer::StringLiteralQuoteType::Single => QuoteKind::Single,
        _ => QuoteKind::Other,
    }
}

/// Tells the two parentheses from the other variants of
/// `full_moon::tokenizer::Symbol`.
#[verifier::external_body]
fn symbol_token(symbol: &full_moon::tokenizer::Symbol) -> (r: Token) {
    match symbol {
        full_moon::tokenizer::Symbol::LeftParen => Token::LeftParen,
        full_moon::tokenizer::Symbol::RightParen => Token::RightParen,
        _ => Token::Other,
    }
}

/// The token forms that the bundler tells apart, with what each holds.
enum TokenForm {
    Identifier(String),
    StringLiteral(String, full_moon::tokenizer::StringLiteralQuoteType),
    Symbol(full_moon::tokenizer::Symbol),
    Other,
}

/// `Token::token_type`: tells the variants of `TokenType` apart and moves the
/// text of an identifier, the text and the quotes of a string literal, and
/// the symbol out.
#[verifier::external_body]
fn token_form(token: &full_moon::tokenizer::TokenReference) -> (r: TokenForm) {
    match token.token_type() {
        full_moon::tokenizer::TokenType::Identifier { identifier } => TokenForm::Identifier(
            identifier.to_string(),
        ),
        full_moon::tokenizer::TokenType::StringLiteral { literal, quote_type, .. } => {
            TokenForm::StringLiteral(literal.to_string(), *quote_type)
        },
        full_moon::tokenizer::TokenType::Symbol { symbol } => TokenForm::Symbol(*symbol),
        _ => TokenForm::Other,
    }
}

/// A token of the tree in the model.
fn model_token(token: &full_moon::tokenizer::TokenReference) -> (r: Token) {
    match token_form(token) {
        TokenForm::Identifier(identifier) => Token::Identifier { identifier },
        TokenForm::StringLiteral(literal, quote_type) => Token::StringLiteral {
            literal,
            quote_type: quote_kind(&quote_type),
        },
        TokenForm::Symbol(symbol) => symbol_token(&symbol),
        TokenForm::Other => Token::Other,
    }
}

/// The tokens of a list, each in the model.
fn model_tokens(tokens: &Vec<full_moon::tokenizer::TokenReference>) -> (r: Vec<Token>)
    ensures
        r.len() == tokens.len(),
{
    let mut out: Vec<Token> = Vec::new();
    let mut i: usize = 0;
    while i < tokens.len()
        invariant
            i <= tokens.len(),
            out.len() == i,
        decreases tokens.len() - i,
    {
        out.push(model_token(&tokens[i]));
        i = i + 1;
    }
    out
}

/// A call of the tree in the model: the tokens of its callee, the tokens of
/// each suffix, and its span.
fn model_call(call: &full_moon::ast::FunctionCall) -> (r: Call) {
    let prefix = model_tokens(&prefix_tokens(call));
    let parts = call_suffixes(call);
    let mut suffixes: Vec<Vec<Token>> = Vec::new();
    let mut i: usize = 0;
    while i < parts.len()
        invariant
            i <= parts.len(),
            suffixes.len() == i,
        decreases parts.len() - i,
    {
        suffixes.push(model_tokens(&suffix_tokens(&parts[i])));
        i = i + 1;
    }
    Call { prefix, suffixes, span: call_span(call) }
}

/// The expressions of a list in the model: each is a call or something else.
fn model_expressions(expressions: &Vec<full_moon::ast::Expression>) -> (r: Vec<Expr>)
    ensures
        r.len() == expressions.len(),
{
    let mut out: Vec<Expr> = Vec::new();
    let mut i: usize = 0;
    while i < expressions.len()
        invariant
            i <= expressions.len(),
            out.len() == i,
        decreases expressions.len() - i,
    {
        match expression_call(&expressions[i]) {
            Some(call) => out.push(Expr::FunctionCall(model_call(&call))),
            None => out.push(Expr::Other),
        }
        i = i + 1;
    }
    out
}

/// A statement of the tree in the model.
fn model_statement(stmt: &full_moon::ast::Stmt) -> (r: Statement) {
    match stmt_form(stmt) {
        StmtForm::Assignment(assignment) => Statement::Assignment(
            model_expressions(&assignment_expressions(&assignment)),
        ),
        StmtForm::LocalAssignment(local) => Statement::LocalAssignment(
            model_expressions(&local_expressions(&local)),
        ),
        StmtForm::FunctionCall(call) => Statement::FunctionCall(model_call(&call)),
        StmtForm::Other => Statement::Other,
    }
}

/// The top-level statements of a text as `full_moon::parse` finds them,
/// each in the model, or `None` where the parser takes the text for no
/// script.
pub uninterp spec fn parsed(code: Seq<char>) -> Option<Seq<StatementView>>;

/// The statements of a list that may be missing, each by its view.
pub open spec fn parsed_view(statements: Option<Vec<Statement>>) -> Option<Seq<StatementView>> {
    match statements {
        Some(list) => Some(statements_view(list@)),
        None => None,
    }
}

/// `full_moon::parse`, then `Ast::nodes` and `Block::stmts`: the statements
/// at the top level of the tree, in source order and without the closing
/// `return`, each in the model; `None` where the parser returns an error.
/// The result depends on the text alone; the contract gives it the name
/// [`parsed`] and claims no more.
#[verifier::external_body]
pub(crate) fn parse_statements(code: &str) -> (r: Option<Vec<Statement>>)
    ensures
        parsed_view(r) == parsed(code@),
{
    match full_moon::parse(code) {
        Ok(ast) => Some(ast.nodes().stmts().map(|stmt| model_statement(stmt)).collect()),
        Err(_) => None,
    }
}

} // verus!
