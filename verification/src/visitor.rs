//! Finding the module loads of a script: the questions asked of the tokens of
//! a call, and the walk over the top-level statements that asks them.

use crate::syntax::{
    expressions_view, statements_view, tokens_view, Call, CallView, Expr, ExprView, QuoteKind,
    Statement, StatementView, Token, TokenView,
};
use vstd::prelude::*;
use vstd::string::*;

verus! {

/// Walks statements and tokens. It holds no state of its own.
#[derive(Default, Clone, Copy, Debug)]
pub struct Visitor;

/// Where a module load stands, which decides how its module is put in its
/// place.
#[derive(Debug, Clone, Copy, PartialEq, Eq, Structural)]
pub enum ParentType {
    /// On the right-hand side of an assignment: the value of the call is used.
    Assignment,
    /// Alone as a statement: the call is made for its effects only.
    Stmt,
}

/// A call found to name the load keyword in its callee, with where it stands.
#[derive(Debug)]
pub struct Require {
    pub function_call: Call,
    pub parent_type: ParentType,
}

/// What a [`Require`] holds, over sequences.
pub struct RequireView {
    pub function_call: CallView,
    pub parent_type: ParentType,
}

impl View for Require {
    type V = RequireView;

    open spec fn view(&self) -> RequireView {
        RequireView { function_call: self.function_call@, parent_type: self.parent_type }
    }
}

impl Require {
    /// The call together with where it stands.
    pub fn from(function_call: Call, parent_type: ParentType) -> (r: Self)
        ensures
            r.function_call == function_call,
            r.parent_type == parent_type,
    {
        Self { function_call, parent_type }
    }
}

/// The module loads of a list, each by its view.
pub open spec fn sites_view(sites: Seq<Require>) -> Seq<RequireView> {
    Seq::new(sites.len(), |i: int| sites[i]@)
}

/// The two statement forms whose right-hand expressions are searched.
#[derive(Debug)]
pub enum Assignments<'a> {
    Assignment(&'a Vec<Expr>),
    LocalAssignment(&'a Vec<Expr>),
}

impl<'a> Assignments<'a> {
    /// The right-hand expressions, whichever form the statement has.
    pub open spec fn expressions(&self) -> Seq<ExprView> {
        match *self {
            Assignments::Assignment(expressions) => expressions_view(expressions@),
            Assignments::LocalAssignment(expressions) => expressions_view(expressions@),
        }
    }
}

/// The keyword that loads a module.
pub open spec fn load_keyword() -> Seq<char> {
    "require"@
}

/// The token is an identifier that reads exactly as the load keyword.
pub open spec fn names_keyword(token: TokenView) -> bool {
    token matches TokenView::Identifier { identifier } && identifier == load_keyword()
}

/// Some token of the list is the load keyword.
pub open spec fn mentions_keyword(tokens: Seq<TokenView>) -> bool {
    exists|i: int| 0 <= i < tokens.len() && names_keyword(#[trigger] tokens[i])
}

/// The token is a parenthesis, left or right.
pub open spec fn is_parenthesis(token: TokenView) -> bool {
    token is LeftParen || token is RightParen
}

/// How many of the tokens are parentheses.
pub open spec fn parenthesis_count(tokens: Seq<TokenView>) -> nat
    decreases tokens.len(),
{
    if tokens.len() == 0 {
        0
    } else {
        parenthesis_count(tokens.drop_last()) + if is_parenthesis(tokens.last()) {
            1nat
        } else {
            0nat
        }
    }
}

/// The first `n` tokens hold no string literal.
pub open spec fn literal_free(tokens: Seq<TokenView>, n: int) -> bool {
    forall|j: int| 0 <= j < n ==> !(#[trigger] tokens[j] is StringLiteral)
}

/// The first string literal among the tokens, with its quotes.
pub open spec fn first_literal(tokens: Seq<TokenView>) -> Option<(Seq<char>, QuoteKind)> {
    if exists|i: int| first_literal_at(tokens, i) {
        let i = choose|i: int| first_literal_at(tokens, i);
        Some((tokens[i]->literal, tokens[i]->quote_type))
    } else {
        None
    }
}

/// Token `i` is a string literal and none stands before it.
pub open spec fn first_literal_at(tokens: Seq<TokenView>, i: int) -> bool {
    0 <= i < tokens.len() && tokens[i] is StringLiteral && literal_free(tokens, i)
}

/// The load sites among the right-hand expressions of one assignment: each
/// expression that is itself a call whose callee mentions the keyword, in
/// source order.
pub open spec fn expression_sites(expressions: Seq<ExprView>) -> Seq<RequireView>
    decreases expressions.len(),
{
    if expressions.len() == 0 {
        Seq::empty()
    } else {
        let before = expression_sites(expressions.drop_last());
        match expressions.last() {
            ExprView::FunctionCall(call) => if mentions_keyword(call.prefix) {
                before.push(RequireView { function_call: call, parent_type: ParentType::Assignment })
            } else {
                before
            },
            ExprView::Other => before,
        }
    }
}

/// The load sites of one top-level statement.
pub open spec fn statement_sites(statement: StatementView) -> Seq<RequireView> {
    match statement {
        StatementView::Assignment(expressions) => expression_sites(expressions),
        StatementView::LocalAssignment(expressions) => expression_sites(expressions),
        StatementView::FunctionCall(call) => if mentions_keyword(call.prefix) {
            seq![RequireView { function_call: call, parent_type: ParentType::Stmt }]
        } else {
            Seq::empty()
        },
        StatementView::Other => Seq::empty(),
    }
}

/// The load sites of a script: those of each top-level statement, in source
/// order. Nothing below the top level is looked at.
pub open spec fn call_sites(statements: Seq<StatementView>) -> Seq<RequireView>
    decreases statements.len(),
{
    if statements.len() == 0 {
        Seq::empty()
    } else {
        call_sites(statements.drop_last()) + statement_sites(statements.last())
    }
}

/// Why a call that mentions the load keyword is no load the bundler can
/// resolve.
#[derive(Debug, Clone, Copy, PartialEq, Eq, Structural)]
pub enum ShapeFault {
    /// The call has no suffix, so no argument list.
    NoArguments,
    /// The argument list holds no string literal.
    MissingLiteral,
    /// The argument list is not delimited by one pair of parentheses, as in
    /// `require "m"`.
    NotParenthesized,
    /// Between the parentheses stands more than one string literal token:
    /// several arguments, or a computed path.
    NotSingleLiteral,
    /// Further suffixes follow the argument list, as in `require("m").f()`.
    Chained,
}

/// The shape of a call that mentions the load keyword.
#[derive(Debug)]
pub enum CallShape {
    /// `keyword("literal")`: the module path as written, and its quotes.
    Supported { literal: String, quote_type: QuoteKind },
    /// Any other shape, with the first reason found.
    UnsupportedShape(ShapeFault),
}

/// What a [`CallShape`] holds, over sequences.
pub enum CallShapeView {
    Supported { literal: Seq<char>, quote_type: QuoteKind },
    UnsupportedShape(ShapeFault),
}

impl View for CallShape {
    type V = CallShapeView;

    open spec fn view(&self) -> CallShapeView {
        match *self {
            CallShape::Supported { literal, quote_type } => CallShapeView::Supported {
                literal: literal@,
                quote_type,
            },
            CallShape::UnsupportedShape(fault) => CallShapeView::UnsupportedShape(fault),
        }
    }
}

/// Some token of the list is a `(`.
pub open spec fn holds_left_paren(tokens: Seq<TokenView>) -> bool {
    exists|i: int| 0 <= i < tokens.len() && #[trigger] tokens[i] is LeftParen
}

/// Some token of the list is a `)`.
pub open spec fn holds_right_paren(tokens: Seq<TokenView>) -> bool {
    exists|i: int| 0 <= i < tokens.len() && #[trigger] tokens[i] is RightParen
}

/// The tokens are one `(`, one `)` and one string literal, and no more. The
/// parser hands out the parentheses of an argument list before what stands
/// between them, so the order of the three is left open.
pub open spec fn parenthesized_literal(tokens: Seq<TokenView>) -> bool {
    &&& tokens.len() == 3
    &&& holds_left_paren(tokens)
    &&& holds_right_paren(tokens)
    &&& first_literal(tokens) is Some
}

/// The shape of a call with these suffixes. A call is supported where it has
/// one suffix and that suffix is a parenthesized string literal; otherwise the
/// first of the faults, in the order of [`ShapeFault`], that applies.
pub open spec fn call_shape(suffixes: Seq<Seq<TokenView>>) -> CallShapeView {
    if suffixes.len() == 0 {
        CallShapeView::UnsupportedShape(ShapeFault::NoArguments)
    } else if first_literal(suffixes[0]) is None {
        CallShapeView::UnsupportedShape(ShapeFault::MissingLiteral)
    } else if parenthesis_count(suffixes[0]) != 2 {
        CallShapeView::UnsupportedShape(ShapeFault::NotParenthesized)
    } else if !parenthesized_literal(suffixes[0]) {
        CallShapeView::UnsupportedShape(ShapeFault::NotSingleLiteral)
    } else if suffixes.len() > 1 {
        CallShapeView::UnsupportedShape(ShapeFault::Chained)
    } else {
        CallShapeView::Supported {
            literal: first_literal(suffixes[0])->Some_0.0,
            quote_type: first_literal(suffixes[0])->Some_0.1,
        }
    }
}

/// A block of source text as the body of an anonymous function that is called
/// on the spot: `(function() <block> end)()`.
pub open spec fn function_call_text(block: Seq<u8>) -> Seq<u8> {
    "(function() ".spec_bytes() + block + " end)()".spec_bytes()
}

proof fn lemma_first_literal_is(tokens: Seq<TokenView>, i: int)
    requires
        first_literal_at(tokens, i),
    ensures
        first_literal(tokens) == Some((tokens[i]->literal, tokens[i]->quote_type)),
{
    let k = choose|k: int| first_literal_at(tokens, k);
    assert(first_literal_at(tokens, k));
    if k < i {
        assert(!(tokens[k] is StringLiteral));
    }
    if i < k {
        assert(!(tokens[i] is StringLiteral));
    }
}

impl Visitor {
    /// Whether some token of a callee is the identifier `require`.
    pub fn has_require(&mut self, tokens: &Vec<Token>) -> (r: bool)
        ensures
            *final(self) == *old(self),
            r == mentions_keyword(tokens_view(tokens@)),
    {
        let keyword = "require".to_owned();
        let mut i: usize = 0;
        while i < tokens.len()
            invariant
                i <= tokens.len(),
                keyword@ == load_keyword(),
                forall|j: int| 0 <= j < i ==> !names_keyword(#[trigger] tokens_view(tokens@)[j]),
            decreases tokens.len() - i,
        {
            if let Token::Identifier { identifier } = &tokens[i] {
                if *identifier == keyword {
                    assert(names_keyword(tokens_view(tokens@)[i as int]));
                    return true;
                }
            }
            assert(!names_keyword(tokens_view(tokens@)[i as int]));
            i = i + 1;
        }
        false
    }

    /// The text and the quotes of the first string literal among the tokens
    /// of an argument list, or `None` where they hold no string literal.
    pub fn get_string_literal(&mut self, tokens: &Vec<Token>) -> (r: Option<(String, QuoteKind)>)
        ensures
            *final(self) == *old(self),
            match r {
                Some((literal, quote_type)) => first_literal(tokens_view(tokens@)) == Some(
                    (literal@, quote_type),
                ),
                None => first_literal(tokens_view(tokens@)) is None,
            },
    {
        let ghost view = tokens_view(tokens@);
        let mut i: usize = 0;
        while i < tokens.len()
            invariant
                i <= tokens.len(),
                view == tokens_view(tokens@),
                literal_free(view, i as int),
            decreases tokens.len() - i,
        {
            if let Token::StringLiteral { literal, quote_type } = &tokens[i] {
                proof {
                    assert(view[i as int] == tokens[i as int]@);
                    lemma_first_literal_is(view, i as int);
                }
                return Some((literal.clone(), *quote_type));
            }
            assert(!(view[i as int] is StringLiteral));
            i = i + 1;
        }
        assert(forall|k: int| !first_literal_at(view, k));
        None
    }

    /// Whether the tokens of an argument list are one string literal inside
    /// one pair of parentheses, and no more: without parentheses, with
    /// several arguments, with an argument that is no literal, or with the
    /// literal in parentheses of its own, the answer is no.
    pub fn has_parentheses(&mut self, tokens: &Vec<Token>) -> (r: bool)
        ensures
            *final(self) == *old(self),
            r == parenthesized_literal(tokens_view(tokens@)),
    {
        tokens.len() == 3 && holds_both(tokens) && self.get_string_literal(tokens).is_some()
    }

    /// The load sites among the right-hand expressions of an assignment, each
    /// marked as one whose value is used.
    pub fn process_assignment(&mut self, assignment: &Assignments) -> (r: Vec<Require>)
        ensures
            *final(self) == *old(self),
            sites_view(r@) == expression_sites(assignment.expressions()),
    {
        let expressions = match assignment {
            Assignments::Assignment(expressions) => *expressions,
            Assignments::LocalAssignment(expressions) => *expressions,
        };
        let ghost view = expressions_view(expressions@);
        let mut out: Vec<Require> = Vec::new();
        let mut i: usize = 0;
        while i < expressions.len()
            invariant
                i <= expressions.len(),
                view == expressions_view(expressions@),
                sites_view(out@) == expression_sites(view.take(i as int)),
            decreases expressions.len() - i,
        {
            proof {
                assert(view.take(i + 1).drop_last() =~= view.take(i as int));
                assert(view.take(i + 1).last() == expressions[i as int]@);
            }
            let ghost before = sites_view(out@);
            if let Expr::FunctionCall(call) = &expressions[i] {
                if self.has_require(&call.prefix) {
                    out.push(Require::from(call.duplicate(), ParentType::Assignment));
                    assert(sites_view(out@) =~= before.push(
                        RequireView {
                            function_call: call@,
                            parent_type: ParentType::Assignment,
                        },
                    ));
                }
            }
            i = i + 1;
        }
        assert(view.take(i as int) =~= view);
        out
    }

    /// The load sites of a script, in source order: from each assignment and
    /// local declaration at the top level the right-hand expressions that are
    /// load calls, and each load call that stands alone as a statement.
    pub fn get_function_calls(&mut self, stmts: &Vec<Statement>) -> (r: Vec<Require>)
        ensures
            *final(self) == *old(self),
            sites_view(r@) == call_sites(statements_view(stmts@)),
    {
        let ghost view = statements_view(stmts@);
        let mut out: Vec<Require> = Vec::new();
        let mut i: usize = 0;
        while i < stmts.len()
            invariant
                i <= stmts.len(),
                view == statements_view(stmts@),
                sites_view(out@) == call_sites(view.take(i as int)),
            decreases stmts.len() - i,
        {
            proof {
                assert(view.take(i + 1).drop_last() =~= view.take(i as int));
                assert(view.take(i + 1).last() == stmts[i as int]@);
            }
            let ghost before = sites_view(out@);
            match &stmts[i] {
                Statement::LocalAssignment(expressions) => {
                    let mut found = self.process_assignment(
                        &Assignments::LocalAssignment(expressions),
                    );
                    let ghost added = sites_view(found@);
                    out.append(&mut found);
                    assert(sites_view(out@) =~= before + added);
                },
                Statement::Assignment(expressions) => {
                    let mut found = self.process_assignment(&Assignments::Assignment(expressions));
                    let ghost added = sites_view(found@);
                    out.append(&mut found);
                    assert(sites_view(out@) =~= before + added);
                },
                Statement::FunctionCall(call) => {
                    if self.has_require(&call.prefix) {
                        out.push(Require::from(call.duplicate(), ParentType::Stmt));
                        assert(sites_view(out@) =~= before + seq![
                            RequireView { function_call: call@, parent_type: ParentType::Stmt },
                        ]);
                    } else {
                        assert(sites_view(out@) =~= before + Seq::<RequireView>::empty());
                    }
                },
                Statement::Other => {
                    assert(sites_view(out@) =~= before + Seq::<RequireView>::empty());
                },
            }
            i = i + 1;
        }
        assert(view.take(i as int) =~= view);
        out
    }

    /// The block wrapped as an anonymous function that is called on the spot,
    /// so that it is one expression and its locals stay its own. A closing
    /// `return` of the block becomes the value of that expression.
    pub fn create_function_call(&self, block: &Vec<u8>) -> (r: Vec<u8>)
        ensures
            r@ == function_call_text(block@),
    {
        let mut out = "(function() ".as_bytes_vec();
        out.extend_from_slice(block.as_slice());
        let close = " end)()".as_bytes_vec();
        out.extend_from_slice(close.as_slice());
        out
    }
}

/// Whether exactly two of the tokens are parentheses.
fn two_parentheses(tokens: &Vec<Token>) -> (r: bool)
    ensures
        r == (parenthesis_count(tokens_view(tokens@)) == 2),
{
    let ghost view = tokens_view(tokens@);
    let mut count: usize = 0;
    let mut i: usize = 0;
    while i < tokens.len()
        invariant
            i <= tokens.len(),
            view == tokens_view(tokens@),
            count <= i,
            count == parenthesis_count(view.take(i as int)),
        decreases tokens.len() - i,
    {
        proof {
            assert(view.take(i + 1).drop_last() =~= view.take(i as int));
            assert(view.take(i + 1).last() == tokens[i as int]@);
        }
        match &tokens[i] {
            Token::LeftParen => {
                count = count + 1;
            },
            Token::RightParen => {
                count = count + 1;
            },
            _ => {},
        }
        i = i + 1;
    }
    assert(view.take(i as int) =~= view);
    count == 2
}

/// Whether the tokens hold a `(` and a `)`.
fn holds_both(tokens: &Vec<Token>) -> (r: bool)
    ensures
        r == (holds_left_paren(tokens_view(tokens@)) && holds_right_paren(tokens_view(tokens@))),
{
    let ghost view = tokens_view(tokens@);
    let mut left = false;
    let mut right = false;
    let mut i: usize = 0;
    while i < tokens.len()
        invariant
            i <= tokens.len(),
            view == tokens_view(tokens@),
            left == holds_left_paren(view.take(i as int)),
            right == holds_right_paren(view.take(i as int)),
        decreases tokens.len() - i,
    {
        let ghost done = view.take(i as int);
        let ghost next = view.take(i + 1);
        proof {
            assert(next[i as int] == tokens[i as int]@);
            assert forall|j: int| 0 <= j < i implies done[j] == next[j] by {}
            if holds_left_paren(done) {
                let j = choose|j: int| 0 <= j < done.len() && #[trigger] done[j] is LeftParen;
                assert(next[j] is LeftParen);
            }
            if holds_right_paren(done) {
                let j = choose|j: int| 0 <= j < done.len() && #[trigger] done[j] is RightParen;
                assert(next[j] is RightParen);
            }
            if holds_left_paren(next) && !(tokens[i as int]@ is LeftParen) {
                let j = choose|j: int| 0 <= j < next.len() && #[trigger] next[j] is LeftParen;
                assert(done[j] is LeftParen);
            }
            if holds_right_paren(next) && !(tokens[i as int]@ is RightParen) {
                let j = choose|j: int| 0 <= j < next.len() && #[trigger] next[j] is RightParen;
                assert(done[j] is RightParen);
            }
        }
        match &tokens[i] {
            Token::LeftParen => {
                left = true;
            },
            Token::RightParen => {
                right = true;
            },
            _ => {},
        }
        i = i + 1;
    }
    assert(view.take(i as int) =~= view);
    left && right
}

/// The shape of a call that mentions the load keyword: the module path it
/// names, or why it names none.
pub fn get_require_info(visitor: &mut Visitor, call: &Call) -> (r: CallShape)
    ensures
        *final(visitor) == *old(visitor),
        r@ == call_shape(call@.suffixes),
{
    if call.suffixes.len() == 0 {
        return CallShape::UnsupportedShape(ShapeFault::NoArguments);
    }
    let tokens = &call.suffixes[0];
    let ghost view = tokens_view(tokens@);
    assert(view == call@.suffixes[0]);
    let (literal, quote_type) = match visitor.get_string_literal(tokens) {
        None => {
            return CallShape::UnsupportedShape(ShapeFault::MissingLiteral);
        },
        Some(found) => found,
    };
    if !two_parentheses(tokens) {
        return CallShape::UnsupportedShape(ShapeFault::NotParenthesized);
    }
    if !visitor.has_parentheses(tokens) {
        return CallShape::UnsupportedShape(ShapeFault::NotSingleLiteral);
    }
    if call.suffixes.len() > 1 {
        return CallShape::UnsupportedShape(ShapeFault::Chained);
    }
    CallShape::Supported { literal, quote_type }
}

/// The token with its quotes, where it is a string literal, set to one kind.
pub open spec fn requoted_token(token: TokenView, quote_type: QuoteKind) -> TokenView {
    match token {
        TokenView::StringLiteral { literal, .. } => TokenView::StringLiteral {
            literal,
            quote_type,
        },
        _ => token,
    }
}

/// The tokens with the quotes of every string literal set to one kind.
pub open spec fn requoted_tokens(tokens: Seq<TokenView>, quote_type: QuoteKind) -> Seq<
    TokenView,
> {
    Seq::new(tokens.len(), |i: int| requoted_token(tokens[i], quote_type))
}

/// The suffixes with the quotes of every string literal set to one kind.
pub open spec fn requoted_suffixes(suffixes: Seq<Seq<TokenView>>, quote_type: QuoteKind) -> Seq<
    Seq<TokenView>,
> {
    Seq::new(suffixes.len(), |i: int| requoted_tokens(suffixes[i], quote_type))
}

/// The shape with its quotes, where it is supported, set to one kind.
pub open spec fn requoted_shape(shape: CallShapeView, quote_type: QuoteKind) -> CallShapeView {
    match shape {
        CallShapeView::Supported { literal, .. } => CallShapeView::Supported {
            literal,
            quote_type,
        },
        CallShapeView::UnsupportedShape(fault) => CallShapeView::UnsupportedShape(fault),
    }
}

/// The quotes of a load argument decide neither whether the call is
/// supported nor which module it names: written in other quotes, the call
/// has the same shape with the same module path, in those quotes.
pub proof fn lemma_quotes_do_not_decide(suffixes: Seq<Seq<TokenView>>, quote_type: QuoteKind)
    ensures
        call_shape(requoted_suffixes(suffixes, quote_type)) == requoted_shape(
            call_shape(suffixes),
            quote_type,
        ),
{
    if suffixes.len() > 0 {
        let tokens = suffixes[0];
        let other = requoted_tokens(tokens, quote_type);
        assert(requoted_suffixes(suffixes, quote_type)[0] == other);
        lemma_requoted_literal(tokens, quote_type);
        lemma_requoted_parentheses(tokens, quote_type, tokens.len() as int);
        assert(tokens.take(tokens.len() as int) =~= tokens);
        assert(other.take(tokens.len() as int) =~= other);
        if holds_left_paren(tokens) {
            let i = choose|i: int| 0 <= i < tokens.len() && #[trigger] tokens[i] is LeftParen;
            assert(other[i] is LeftParen);
        }
        if holds_left_paren(other) {
            let i = choose|i: int| 0 <= i < other.len() && #[trigger] other[i] is LeftParen;
            assert(tokens[i] is LeftParen);
        }
        if holds_right_paren(tokens) {
            let i = choose|i: int| 0 <= i < tokens.len() && #[trigger] tokens[i] is RightParen;
            assert(other[i] is RightParen);
        }
        if holds_right_paren(other) {
            let i = choose|i: int| 0 <= i < other.len() && #[trigger] other[i] is RightParen;
            assert(tokens[i] is RightParen);
        }
    }
}

/// The first string literal stays where it is, with its text.
proof fn lemma_requoted_literal(tokens: Seq<TokenView>, quote_type: QuoteKind)
    ensures
        first_literal(requoted_tokens(tokens, quote_type)) == match first_literal(tokens) {
            Some((literal, _)) => Some((literal, quote_type)),
            None => None,
        },
{
    let other = requoted_tokens(tokens, quote_type);
    assert forall|i: int| first_literal_at(other, i) == first_literal_at(tokens, i) by {
        if 0 <= i < tokens.len() {
            assert(other[i] is StringLiteral == tokens[i] is StringLiteral);
            if first_literal_at(tokens, i) {
                assert forall|j: int| 0 <= j < i implies !(#[trigger] other[j]
                    is StringLiteral) by {
                    assert(!(tokens[j] is StringLiteral));
                }
            }
            if first_literal_at(other, i) {
                assert forall|j: int| 0 <= j < i implies !(#[trigger] tokens[j]
                    is StringLiteral) by {
                    assert(!(other[j] is StringLiteral));
                }
            }
        }
    }
    if exists|i: int| first_literal_at(tokens, i) {
        let a = choose|i: int| first_literal_at(tokens, i);
        assert(first_literal_at(tokens, a));
        assert(first_literal_at(other, a));
        lemma_first_literal_is(tokens, a);
        lemma_first_literal_is(other, a);
    } else {
        assert(forall|i: int| !first_literal_at(other, i));
    }
}

/// As many parentheses as before.
proof fn lemma_requoted_parentheses(tokens: Seq<TokenView>, quote_type: QuoteKind, n: int)
    requires
        0 <= n <= tokens.len(),
    ensures
        parenthesis_count(requoted_tokens(tokens, quote_type).take(n)) == parenthesis_count(
            tokens.take(n),
        ),
    decreases n,
{
    let other = requoted_tokens(tokens, quote_type);
    if n > 0 {
        lemma_requoted_parentheses(tokens, quote_type, n - 1);
        assert(tokens.take(n).drop_last() =~= tokens.take(n - 1));
        assert(other.take(n).drop_last() =~= other.take(n - 1));
        assert(tokens.take(n).last() == tokens[n - 1]);
        assert(other.take(n).last() == other[n - 1]);
    } else {
        assert(tokens.take(n).len() == 0);
        assert(other.take(n).len() == 0);
    }
}

/// A statement that is neither an assignment, a local declaration nor a call
/// holds no load site, whatever stands inside it.
pub proof fn lemma_scan_stops_at_top_level(statements: Seq<StatementView>)
    ensures
        call_sites(statements.push(StatementView::Other)) == call_sites(statements),
{
    let all = statements.push(StatementView::Other);
    assert(all.drop_last() =~= statements);
    assert(call_sites(statements) + Seq::<RequireView>::empty() =~= call_sites(statements));
}

} // verus!
