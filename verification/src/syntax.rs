//! The part of a Lua syntax tree that the bundler reads, as plain values.

use vstd::prelude::*;

verus! {

/// How a string literal was quoted in the source.
#[derive(Clone, Copy, Debug, PartialEq, Eq, Structural)]
pub enum QuoteKind {
    /// `[[long brackets]]`, with any number of `=`.
    Brackets,
    /// `"double quotes"`.
    Double,
    /// `'single quotes'`.
    Single,
    /// A quoting style that this library has no name for.
    Other,
}

/// One token of a call, without the whitespace and comments around it.
#[derive(Debug)]
pub enum Token {
    /// A name, such as `require`.
    Identifier { identifier: String },
    /// A string literal: its text without the quotes, and the quotes used.
    StringLiteral { literal: String, quote_type: QuoteKind },
    /// The symbol `(`.
    LeftParen,
    /// The symbol `)`.
    RightParen,
    /// Any other token.
    Other,
}

/// What a [`Token`] is, with its text as a sequence of characters.
pub enum TokenView {
    Identifier { identifier: Seq<char> },
    StringLiteral { literal: Seq<char>, quote_type: QuoteKind },
    LeftParen,
    RightParen,
    Other,
}

impl View for Token {
    type V = TokenView;

    open spec fn view(&self) -> TokenView {
        match *self {
            Token::Identifier { identifier } => TokenView::Identifier { identifier: identifier@ },
            Token::StringLiteral { literal, quote_type } => TokenView::StringLiteral {
                literal: literal@,
                quote_type,
            },
            Token::LeftParen => TokenView::LeftParen,
            Token::RightParen => TokenView::RightParen,
            Token::Other => TokenView::Other,
        }
    }
}

impl Token {
    /// A copy of this token.
    pub fn duplicate(&self) -> (r: Token)
        ensures
            r@ == self@,
    {
        match self {
            Token::Identifier { identifier } => Token::Identifier { identifier: identifier.clone() },
            Token::StringLiteral { literal, quote_type } => Token::StringLiteral {
                literal: literal.clone(),
                quote_type: *quote_type,
            },
            Token::LeftParen => Token::LeftParen,
            Token::RightParen => Token::RightParen,
            Token::Other => Token::Other,
        }
    }
}

/// The tokens of a sequence of [`Token`]s, each by its view.
pub open spec fn tokens_view(tokens: Seq<Token>) -> Seq<TokenView> {
    Seq::new(tokens.len(), |i: int| tokens[i]@)
}

/// The views of a sequence of token lists, one list for each suffix of a call.
pub open spec fn suffixes_view(suffixes: Seq<Vec<Token>>) -> Seq<Seq<TokenView>> {
    Seq::new(suffixes.len(), |i: int| tokens_view(suffixes[i]@))
}

/// A copy of a list of tokens.
pub fn duplicate_tokens(tokens: &Vec<Token>) -> (r: Vec<Token>)
    ensures
        tokens_view(r@) == tokens_view(tokens@),
{
    let mut out: Vec<Token> = Vec::new();
    let mut i: usize = 0;
    while i < tokens.len()
        invariant
            i <= tokens.len(),
            out.len() == i,
            forall|j: int| 0 <= j < i ==> out[j]@ == tokens[j]@,
        decreases tokens.len() - i,
    {
        out.push(tokens[i].duplicate());
        i = i + 1;
    }
    assert(tokens_view(out@) =~= tokens_view(tokens@));
    out
}

/// A call expression: a callee followed by one or more suffixes, such as the
/// argument list in `require("m")`.
#[derive(Debug)]
pub struct Call {
    /// The tokens of the callee, the part before the first suffix.
    pub prefix: Vec<Token>,
    /// The tokens of each suffix; the suffixes are in source order, the
    /// tokens of one suffix in the order in which the parser hands them out.
    pub suffixes: Vec<Vec<Token>>,
    /// The byte offsets at which the call starts and ends in its source text,
    /// where the parser knows them.
    pub span: Option<(usize, usize)>,
}

/// What a [`Call`] holds, over sequences.
pub struct CallView {
    pub prefix: Seq<TokenView>,
    pub suffixes: Seq<Seq<TokenView>>,
    pub span: Option<(usize, usize)>,
}

impl View for Call {
    type V = CallView;

    open spec fn view(&self) -> CallView {
        CallView {
            prefix: tokens_view(self.prefix@),
            suffixes: suffixes_view(self.suffixes@),
            span: self.span,
        }
    }
}

impl Call {
    /// A copy of this call.
    pub fn duplicate(&self) -> (r: Call)
        ensures
            r@ == self@,
    {
        let prefix = duplicate_tokens(&self.prefix);
        let mut suffixes: Vec<Vec<Token>> = Vec::new();
        let mut i: usize = 0;
        while i < self.suffixes.len()
            invariant
                i <= self.suffixes.len(),
                suffixes.len() == i,
                forall|j: int|
                    0 <= j < i ==> tokens_view(suffixes[j]@) == tokens_view(self.suffixes[j]@),
            decreases self.suffixes.len() - i,
        {
            suffixes.push(duplicate_tokens(&self.suffixes[i]));
            i = i + 1;
        }
        assert(suffixes_view(suffixes@) =~= suffixes_view(self.suffixes@));
        Call { prefix, suffixes, span: self.span }
    }
}

/// An expression on the right-hand side of an assignment.
#[derive(Debug)]
pub enum Expr {
    /// The expression is itself a call.
    FunctionCall(Call),
    /// Anything else, a call nested inside a larger expression included.
    Other,
}

/// What an [`Expr`] holds, over sequences.
pub enum ExprView {
    FunctionCall(CallView),
    Other,
}

impl View for Expr {
    type V = ExprView;

    open spec fn view(&self) -> ExprView {
        match *self {
            Expr::FunctionCall(call) => ExprView::FunctionCall(call@),
            Expr::Other => ExprView::Other,
        }
    }
}

/// The expressions of a list, each by its view.
pub open spec fn expressions_view(expressions: Seq<Expr>) -> Seq<ExprView> {
    Seq::new(expressions.len(), |i: int| expressions[i]@)
}

/// A top-level statement of a script.
#[derive(Debug)]
pub enum Statement {
    /// `x = ...`, with its right-hand expressions.
    Assignment(Vec<Expr>),
    /// `local x = ...`, with its initializer expressions.
    LocalAssignment(Vec<Expr>),
    /// A call that stands alone as a statement.
    FunctionCall(Call),
    /// Any other statement: a block, a loop, a function declaration.
    Other,
}

/// What a [`Statement`] holds, over sequences.
pub enum StatementView {
    Assignment(Seq<ExprView>),
    LocalAssignment(Seq<ExprView>),
    FunctionCall(CallView),
    Other,
}

impl View for Statement {
    type V = StatementView;

    open spec fn view(&self) -> StatementView {
        match *self {
            Statement::Assignment(expressions) => StatementView::Assignment(
                expressions_view(expressions@),
            ),
            Statement::LocalAssignment(expressions) => StatementView::LocalAssignment(
                expressions_view(expressions@),
            ),
            Statement::FunctionCall(call) => StatementView::FunctionCall(call@),
            Statement::Other => StatementView::Other,
        }
    }
}

/// The statements of a list, each by its view.
pub open spec fn statements_view(statements: Seq<Statement>) -> Seq<StatementView> {
    Seq::new(statements.len(), |i: int| statements[i]@)
}

} // verus!
